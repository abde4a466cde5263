use vstd::prelude::*;

verus! {

/// The two-character code of a list token: `(`, `,` and `cons` are written
/// `11`; `)` and `nil` are written `00`.  Any other text is not a token.
pub open spec fn token_code(t: Seq<char>) -> Option<Seq<char>> {
    if t == seq!['('] || t == seq![','] || t == seq!['c', 'o', 'n', 's'] {
        Some(seq!['1', '1'])
    } else if t == seq![')'] || t == seq!['n', 'i', 'l'] {
        Some(seq!['0', '0'])
    } else {
        None
    }
}

/// Whether `t` is one of the five list tokens.
pub open spec fn is_token(t: Seq<char>) -> bool {
    token_code(t) is Some
}

/// The byte that a token's code repeats twice: `1` (0x31) for `(`, `,` and
/// `cons`, `0` (0x30) for `)` and `nil`.
pub open spec fn token_byte(t: Seq<char>) -> u8 {
    if token_code(t) == Some(seq!['1', '1']) {
        0x31u8
    } else {
        0x30u8
    }
}

/// Modulates a list token: `(`, `,`, `cons` give `11`; `)`, `nil` give `00`.
pub fn mod_str(s: &str) -> (res: &str)
    requires
        is_token(s@),
    ensures
        Some(res@) == token_code(s@),
{
    proof {
        reveal_strlit("11");
        reveal_strlit("00");
        assert(vstd::utf8::is_ascii_chars(s@));
        vstd::utf8::is_ascii_chars_encode_utf8(s@);
    }
    let b = s.as_bytes();
    if b.len() == 4 || (b.len() == 1 && (b[0] == 0x28u8 || b[0] == 0x2cu8)) {
        "11"
    } else {
        "00"
    }
}


/// Two to the power `k`.
pub open spec fn two_to(k: nat) -> nat
    decreases k,
{
    if k == 0 {
        1
    } else {
        2 * two_to((k - 1) as nat)
    }
}

/// The binary digit `d` (0 or 1) as a character.
pub open spec fn bit_char(d: nat) -> char {
    if d == 0 {
        '0'
    } else {
        '1'
    }
}

/// The binary numeral of `n`, most significant digit first, without leading
/// zeros (`0` is written `0`).
pub open spec fn binary(n: nat) -> Seq<char>
    decreases n,
{
    if n < 2 {
        seq![bit_char(n)]
    } else {
        binary(n / 2).push(bit_char(n % 2))
    }
}

/// `k` copies of the character `c`.
pub open spec fn repeat_char(c: char, k: nat) -> Seq<char> {
    Seq::new(k, |_j: int| c)
}

/// The absolute value of `i`.
pub open spec fn abs(i: int) -> nat {
    if i < 0 {
        (-i) as nat
    } else {
        i as nat
    }
}

/// The sign code of a non-zero integer: `01` for positive, `10` for negative.
pub open spec fn sign_code(i: int) -> Seq<char> {
    if i < 0 {
        seq!['1', '0']
    } else {
        seq!['0', '1']
    }
}

/// The number of 4-bit groups needed to hold the binary numeral of `n`.
pub open spec fn group_count(n: nat) -> nat {
    ((binary(n).len() - 1) / 4 + 1) as nat
}

/// The modulated form of an integer.  Zero is `010`.  Any other integer is
/// its sign code, then one `1` per 4-bit group of its magnitude followed by a
/// `0`, then its magnitude in binary, left-padded with zeros to fill those
/// groups.
#[verifier::opaque]
pub open spec fn modulate_int(i: int) -> Seq<char> {
    if i == 0 {
        seq!['0', '1', '0']
    } else {
        let digits = binary(abs(i));
        let k = group_count(abs(i));
        sign_code(i) + repeat_char('1', k) + seq!['0'] + repeat_char(
            '0',
            (4 * k - digits.len()) as nat,
        ) + digits
    }
}

/// A binary numeral is never longer than `k` digits when `n < 2^k`.
pub proof fn lemma_binary_len_bound(n: nat, k: nat)
    requires
        1 <= k,
        n < two_to(k),
    ensures
        1 <= binary(n).len() <= k,
    decreases n,
{
    if n >= 2 {
        assert(two_to(k) == 2 * two_to((k - 1) as nat));
        if k == 1 {
            assert(two_to(0) == 1);
        } else {
            lemma_binary_len_bound(n / 2, (k - 1) as nat);
        }
    }
}

/// `2^64` is the first number that a `u64` cannot hold.
pub proof fn lemma_two_to_64()
    ensures
        two_to(64) == 0x1_0000_0000_0000_0000,
{
    reveal_with_fuel(two_to, 65);
}

/// Appends the binary numeral of `n` to `out` and returns its length.
fn push_binary(out: &mut String, n: u64) -> (len: usize)
    ensures
        final(out)@ == old(out)@ + binary(n as nat),
        len == binary(n as nat).len(),
    decreases n,
{
    proof {
        reveal_strlit("0");
        reveal_strlit("1");
        lemma_two_to_64();
        lemma_binary_len_bound(n as nat, 64);
    }
    let mut len: usize = 0;
    if n >= 2 {
        len = push_binary(out, n / 2);
    }
    if n % 2 == 0 {
        out.append("0");
    } else {
        out.append("1");
    }
    proof {
        if n >= 2 {
            assert(binary(n as nat) == binary((n / 2) as nat).push(bit_char((n % 2) as nat)));
        }
    }
    len + 1
}

/// Appends `k` copies of the one-character string `c` to `out`.
fn push_repeat(out: &mut String, c: &str, k: usize)
    requires
        c@.len() == 1,
    ensures
        final(out)@ == old(out)@ + repeat_char(c@[0], k as nat),
{
    let ghost start = out@;
    let mut j: usize = 0;
    while j < k
        invariant
            j <= k,
            c@.len() == 1,
            out@ == start + repeat_char(c@[0], j as nat),
        decreases k - j,
    {
        out.append(c);
        j = j + 1;
        assert(out@ =~= start + repeat_char(c@[0], j as nat));
    }
}

/// Modulates an integer (see [`modulate_int`]): `0` gives `010`, `1` gives
/// `01100001`, `-1` gives `10100001`, `256` gives `011110000100000000`.
/// `i64::MIN` is left out: negating it overflows.
pub fn mod_int(i: i64) -> (res: String)
    requires
        i != i64::MIN,
    ensures
        res@ == modulate_int(i as int),
{
    proof {
        reveal(modulate_int);
        reveal_strlit("010");
        reveal_strlit("01");
        reveal_strlit("10");
        reveal_strlit("0");
        reveal_strlit("1");
    }
    let mut out = String::new();
    if i == 0 {
        out.append("010");
        assert(out@ =~= seq!['0', '1', '0']);
        return out;
    }
    if i < 0 {
        out.append("10");
    } else {
        out.append("01");
    }
    let mag: u64 = if i < 0 {
        (-i) as u64
    } else {
        i as u64
    };
    let mut num = String::new();
    let len = push_binary(&mut num, mag);
    proof {
        lemma_two_to_64();
        lemma_binary_len_bound(mag as nat, 64);
    }
    assert(num@ =~= binary(mag as nat));
    let groups = (len - 1) / 4 + 1;
    push_repeat(&mut out, "1", groups);
    out.append("0");
    push_repeat(&mut out, "0", 4 * groups - len);
    out.append(num.as_str());
    proof {
        reveal(modulate_int);
    }
    assert(out@ =~= modulate_int(i as int));
    out
}

} // verus!
