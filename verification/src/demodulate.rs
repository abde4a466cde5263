use vstd::prelude::*;
use vstd::string::StringSliceAdditionalSpecFns;
use vstd::utf8::{encode_utf8, is_char_boundary, is_continuation_byte, valid_utf8, pop_first_scalar, length_of_first_scalar};
use crate::modulate::{is_token, token_byte, mod_str};
use crate::numeral::{push_decimal, decimal};

verus! {

broadcast use vstd::utf8::encode_utf8_valid_utf8;

/// The byte `1`.
pub open spec fn one_byte() -> u8 {
    0x31u8
}

/// The byte `0`.
pub open spec fn zero_byte() -> u8 {
    0x30u8
}

/// Whether a character starts at byte `k` of `b` (a slice of a string may
/// end there): `k` is the length, or the byte at `k` is not a UTF-8
/// continuation byte.
pub open spec fn starts_char(b: Seq<u8>, k: int) -> bool {
    k == b.len() || (0 <= k < b.len() && !is_continuation_byte(b[k]))
}

/// Whether `b` begins with the two bytes `x` and `y`.
pub open spec fn begins_with(b: Seq<u8>, x: u8, y: u8) -> bool {
    b.len() >= 2 && b[0] == x && b[1] == y
}

/// The number of consecutive `1` bytes in `b` from position `p` on.
pub open spec fn ones_from(b: Seq<u8>, p: int) -> nat
    decreases b.len() - p,
{
    if 0 <= p < b.len() && b[p] == one_byte() {
        1 + ones_from(b, p + 1)
    } else {
        0
    }
}

/// Whether every byte of `d` is an ASCII decimal digit.
pub open spec fn all_decimal_digits(d: Seq<u8>) -> bool {
    forall|j: int| 0 <= j < d.len() ==> 0x30 <= #[trigger] d[j] <= 0x39
}

/// The value of a digit field read as a base-2 positional number whose
/// digits may be any decimal digit: the last digit weighs 1, the one before
/// it 2, the one before that 4, and so on.
pub open spec fn field_value(d: Seq<u8>) -> int
    decreases d.len(),
{
    if d.len() == 0 {
        0
    } else {
        2 * field_value(d.drop_last()) + (d.last() - 0x30)
    }
}

/// Demodulates the integer at the front of `b`, giving its value and the
/// bytes after it, or `None` where the input is not accepted.  `b` must begin
/// with the sign code `01` or `10`, then `k` ones and a zero, then `4k` digit
/// bytes; `k` is at most 15 and the field's value fits in an `i64`.
pub open spec fn spec_decode_int(b: Seq<u8>) -> Option<(int, Seq<u8>)> {
    if !(begins_with(b, zero_byte(), one_byte()) || begins_with(b, one_byte(), zero_byte())) {
        None
    } else {
        let k: int = ones_from(b, 2) as int;
        let start: int = 3 + k;
        let end: int = start + 4 * k;
        if 2 + k >= b.len() || b[2 + k] != zero_byte() || k > 15 || end > b.len() {
            None
        } else {
            let field = b.subrange(start, end);
            let v = field_value(field);
            if !all_decimal_digits(field) || v > i64::MAX {
                None
            } else {
                Some((if b[0] == one_byte() { -v } else { v }, b.subrange(end, b.len() as int)))
            }
        }
    }
}

/// In valid UTF-8, a character starts right after any run of ASCII bytes at
/// the front.
pub proof fn lemma_ascii_prefix_boundary(b: Seq<u8>, k: int)
    requires
        valid_utf8(b),
        0 <= k <= b.len(),
        forall|j: int| 0 <= j < k ==> #[trigger] b[j] < 0x80,
    ensures
        is_char_boundary(b, k),
    decreases k,
{
    if k > 0 {
        assert(b[0] < 0x80);
        assert(length_of_first_scalar(b) == 1);
        let p = pop_first_scalar(b);
        assert(valid_utf8(p));
        assert forall|j: int| 0 <= j < k - 1 implies #[trigger] p[j] < 0x80 by {
            assert(p[j] == b[j + 1]);
        }
        lemma_ascii_prefix_boundary(p, k - 1);
    }
}

/// The part of `s` from byte `k` on, where the bytes before `k` are ASCII.
pub(crate) fn suffix_after_ascii(s: &str, k: usize) -> (rest: &str)
    requires
        k <= s.spec_bytes().len(),
        forall|j: int| 0 <= j < k ==> #[trigger] s.spec_bytes()[j] < 0x80,
    ensures
        rest.spec_bytes() == s.spec_bytes().subrange(k as int, s.spec_bytes().len() as int),
{
    proof {
        lemma_ascii_prefix_boundary(s.spec_bytes(), k as int);
    }
    let (_, rest) = s.split_at(k);
    rest
}

/// A prefix of a digit field never has a larger value than the whole field.
pub proof fn lemma_field_prefix_le(d: Seq<u8>, j: int)
    requires
        all_decimal_digits(d),
        0 <= j <= d.len(),
    ensures
        0 <= field_value(d.subrange(0, j)) <= field_value(d),
    decreases d.len(),
{
    if j == d.len() {
        assert(d.subrange(0, j) =~= d);
        lemma_field_nonneg(d);
    } else {
        let e = d.drop_last();
        assert(all_decimal_digits(e)) by {
            assert forall|i: int| 0 <= i < e.len() implies 0x30 <= #[trigger] e[i] <= 0x39 by {
                assert(e[i] == d[i]);
            }
        }
        lemma_field_prefix_le(e, j);
        assert(e.subrange(0, j) =~= d.subrange(0, j));
        lemma_field_nonneg(e);
        assert(0x30 <= d[d.len() - 1] <= 0x39);
    }
}

/// The value of a digit field is never negative.
pub proof fn lemma_field_nonneg(d: Seq<u8>)
    requires
        all_decimal_digits(d),
    ensures
        field_value(d) >= 0,
    decreases d.len(),
{
    if d.len() > 0 {
        let e = d.drop_last();
        assert(all_decimal_digits(e)) by {
            assert forall|i: int| 0 <= i < e.len() implies 0x30 <= #[trigger] e[i] <= 0x39 by {
                assert(e[i] == d[i]);
            }
        }
        lemma_field_nonneg(e);
        assert(0x30 <= d[d.len() - 1] <= 0x39);
    }
}

/// `ones_from` counts exactly the run of ones that a scan finds.
pub proof fn lemma_ones_from_run(b: Seq<u8>, p: int, c: int)
    requires
        0 <= p,
        0 <= c,
        p + c <= b.len(),
        forall|j: int| p <= j < p + c ==> #[trigger] b[j] == one_byte(),
        p + c == b.len() || b[p + c] != one_byte(),
    ensures
        ones_from(b, p) == c,
    decreases c,
{
    if c > 0 {
        lemma_ones_from_run(b, p + 1, c - 1);
    }
}

/// Demodulates the integer at the front of `s`; `None` where `s` does not
/// begin with a well-formed modulated integer (see [`spec_decode_int`]).
pub fn parse_int(s: &str) -> (res: Option<(i64, &str)>)
    ensures
        match spec_decode_int(s.spec_bytes()) {
            None => res is None,
            Some((v, rest)) => res matches Some((w, r)) && w == v && r.spec_bytes() == rest,
        },
{
    let b = s.as_bytes();
    let n = b.len();
    if n < 2 {
        return None;
    }
    let negative = if b[0] == 0x31u8 && b[1] == 0x30u8 {
        true
    } else if b[0] == 0x30u8 && b[1] == 0x31u8 {
        false
    } else {
        return None;
    };
    let mut k: usize = 0;
    while 2 + k < n && b[2 + k] == 0x31u8
        invariant
            n == b@.len(),
            2 + k <= n,
            forall|j: int| 2 <= j < 2 + k ==> #[trigger] b@[j] == one_byte(),
        decreases n - k,
    {
        k = k + 1;
    }
    proof {
        lemma_ones_from_run(b@, 2, k as int);
    }
    if 2 + k >= n || b[2 + k] != 0x30u8 || k > 15 {
        return None;
    }
    let start = 3 + k;
    let end = start + 4 * k;
    if end > n {
        return None;
    }
    let ghost field = b@.subrange(start as int, end as int);
    let mut v: u64 = 0;
    let mut j = start;
    while j < end
        invariant
            n == b@.len(),
            b@ == s.spec_bytes(),
            negative ==> begins_with(b@, one_byte(), zero_byte()),
            !negative ==> begins_with(b@, zero_byte(), one_byte()),
            ones_from(b@, 2) == k,
            2 + k < n,
            b@[2 + k] == zero_byte(),
            k <= 15,
            start == 3 + k,
            end == start + 4 * k,
            start <= j <= end <= n,
            field == b@.subrange(start as int, end as int),
            forall|i: int| start <= i < j ==> 0x30 <= #[trigger] b@[i] <= 0x39,
            v as int == field_value(b@.subrange(start as int, j as int)),
            v <= i64::MAX,
        decreases end - j,
    {
        let d = b[j];
        if d < 0x30u8 || d > 0x39u8 {
            assert(field[j - start] == d);
            return None;
        }
        let dv = (d - 0x30u8) as u64;
        assert(b@.subrange(start as int, j + 1).drop_last() =~= b@.subrange(start as int, j as int));
        if v > (0x7fff_ffff_ffff_ffffu64 - dv) / 2 {
            proof {
                assert(2 * v + dv > 0x7fff_ffff_ffff_ffff) by (nonlinear_arith)
                    requires
                        v > (0x7fff_ffff_ffff_ffffu64 - dv) / 2,
                        dv <= 9,
                ;
                let pre = b@.subrange(start as int, j + 1);
                assert(field_value(pre) == 2 * v + dv);
                if all_decimal_digits(field) {
                    lemma_field_prefix_le(field, j + 1 - start);
                    assert(field.subrange(0, j + 1 - start) =~= pre);
                }
            }
            return None;
        }
        v = 2 * v + dv;
        j = j + 1;
    }
    assert(b@.subrange(start as int, j as int) =~= field);
    assert(all_decimal_digits(field)) by {
        assert forall|i: int| 0 <= i < field.len() implies 0x30 <= #[trigger] field[i] <= 0x39 by {
            assert(field[i] == b@[start + i]);
        }
    }
    let value: i64 = if negative { -(v as i64) } else { v as i64 };
    let rest = suffix_after_ascii(s, end);
    Some((value, rest))
}


/// Demodulates the integer at the front of `s`, giving its value and the
/// rest of `s`.
pub fn decode_int(s: &str) -> (res: (i64, &str))
    requires
        spec_decode_int(s.spec_bytes()) is Some,
    ensures
        spec_decode_int(s.spec_bytes()) == Some((res.0 as int, res.1.spec_bytes())),
{
    match parse_int(s) {
        Some(r) => r,
        None => {
            assert(false);
            (0, s)
        },
    }
}

/// The bytes of a two-character token code.
proof fn lemma_code_bytes(code: &str)
    requires
        code@ == seq!['1', '1'] || code@ == seq!['0', '0'],
    ensures
        code.spec_bytes().len() == 2,
        code@ == seq!['1', '1'] ==> code.spec_bytes()[0] == 0x31 && code.spec_bytes()[1] == 0x31,
        code@ == seq!['0', '0'] ==> code.spec_bytes()[0] == 0x30 && code.spec_bytes()[1] == 0x30,
{
    assert(vstd::utf8::is_ascii_chars(code@));
    vstd::utf8::is_ascii_chars_encode_utf8(code@);
}

/// Reads the token `token` at the front of `s` if it is there: gives the rest
/// of `s` and `true`, or `s` itself and `false`.
pub fn consume_token<'a>(s: &'a str, token: &str) -> (res: (&'a str, bool))
    requires
        is_token(token@),
        s.spec_bytes().len() >= 2,
        starts_char(s.spec_bytes(), 2),
    ensures
        res.1 == begins_with(s.spec_bytes(), token_byte(token@), token_byte(token@)),
        res.1 ==> res.0.spec_bytes() == s.spec_bytes().subrange(2, s.spec_bytes().len() as int),
        !res.1 ==> res.0 == s,
{
    let expect_raw = mod_str(token);
    proof {
        lemma_code_bytes(expect_raw);
    }
    let b = s.as_bytes();
    let e = expect_raw.as_bytes();
    let ret = b[0] == e[0] && b[1] == e[1];
    if ret {
        (suffix_after_ascii(s, 2), ret)
    } else {
        (s, ret)
    }
}

/// Reads the token `token` at the front of `s` and gives the rest of `s`.
pub fn expect_token<'a>(s: &'a str, token: &str) -> (rest: &'a str)
    requires
        is_token(token@),
        begins_with(s.spec_bytes(), token_byte(token@), token_byte(token@)),
    ensures
        rest.spec_bytes() == s.spec_bytes().subrange(2, s.spec_bytes().len() as int),
{
    suffix_after_ascii(s, 2)
}

/// Checks that `s` begins with the sign code of a non-zero integer (`01` or
/// `10`).
pub fn expect_int(s: &str)
    requires
        begins_with(s.spec_bytes(), zero_byte(), one_byte()) || begins_with(
            s.spec_bytes(),
            one_byte(),
            zero_byte(),
        ),
{
}

/// Renders a whole response as a readable term, the way the game's log
/// shows it: a list start `11` becomes `(` and takes the last two bytes
/// as its end, written `)`; an integer becomes its decimal text; `00` becomes
/// `nil`.  `None` where the input is not accepted.
pub open spec fn spec_render_term(b: Seq<u8>) -> Option<Seq<char>>
    decreases b.len(),
{
    if b.len() == 0 {
        Some(Seq::empty())
    } else if begins_with(b, one_byte(), one_byte()) {
        if b.len() < 4 || !starts_char(b, b.len() - 2) {
            None
        } else {
            match spec_render_term(b.subrange(2, b.len() - 2)) {
                Some(inner) => Some(seq!['('] + inner + seq![')']),
                None => None,
            }
        }
    } else if begins_with(b, zero_byte(), one_byte()) || begins_with(b, one_byte(), zero_byte()) {
        match spec_decode_int(b) {
            Some((v, rest)) => match spec_render_term(rest) {
                Some(more) => Some(decimal(v) + more),
                None => None,
            },
            None => None,
        }
    } else if begins_with(b, zero_byte(), zero_byte()) {
        match spec_render_term(b.subrange(2, b.len() as int)) {
            Some(more) => Some(seq!['n', 'i', 'l'] + more),
            None => None,
        }
    } else {
        None
    }
}

/// Renders a whole response as a readable term (see [`spec_render_term`]);
/// `None` where it is not accepted.
pub fn render_term(s: &str) -> (res: Option<String>)
    ensures
        match spec_render_term(s.spec_bytes()) {
            None => res is None,
            Some(t) => res matches Some(r) && r@ == t,
        },
    decreases s.spec_bytes().len(),
{
    proof {
        reveal_strlit("(");
        reveal_strlit(")");
        reveal_strlit("nil");
    }
    let b = s.as_bytes();
    let n = b.len();
    if n == 0 {
        return Some(String::new());
    }
    if n < 2 {
        return None;
    }
    if b[0] == 0x31u8 && b[1] == 0x31u8 {
        if n < 4 || (0x80u8 <= b[n - 2] && b[n - 2] <= 0xbfu8) {
            return None;
        }
        proof {
            vstd::utf8::is_char_boundary_iff_not_is_continuation_byte(b@, n - 2);
        }
        let (left, _) = s.split_at(n - 2);
        let mid = suffix_after_ascii(left, 2);
        assert(mid.spec_bytes() =~= b@.subrange(2, n - 2));
        match render_term(mid) {
            None => None,
            Some(inner) => {
                let mut out = String::new();
                out.append("(");
                out.append(inner.as_str());
                out.append(")");
                assert(out@ =~= seq!['('] + inner@ + seq![')']);
                Some(out)
            },
        }
    } else if (b[0] == 0x30u8 && b[1] == 0x31u8) || (b[0] == 0x31u8 && b[1] == 0x30u8) {
        match parse_int(s) {
            None => None,
            Some((v, rest)) => {
                match render_term(rest) {
                    None => None,
                    Some(more) => {
                        let mut out = String::new();
                        push_decimal(&mut out, v);
                        out.append(more.as_str());
                        Some(out)
                    },
                }
            },
        }
    } else if b[0] == 0x30u8 && b[1] == 0x30u8 {
        let rest = suffix_after_ascii(s, 2);
        match render_term(rest) {
            None => None,
            Some(more) => {
                let mut out = String::new();
                out.append("nil");
                out.append(more.as_str());
                Some(out)
            },
        }
    } else {
        None
    }
}

/// A reply recorded at tick 0 of a game, whose demodulated text is empty.
pub open spec fn blank_reply() -> Seq<char> {
    "110110000111011000011111011110000110000000110110000111110111100001110000001101100001110111001000000001111011100001000011011101000000000110000111101011110111000010000110111010000000001111111101100001110101111011100010000001110001100001111010010111101111000011011101011011000011101011011000010011010110111001000000110110000100110000111111010110110000111111011000100000101100011000011110100101111011000011101100010110110001111011001000011010110111001000000110110000100110000000000"@
}

/// The text of [`blank_reply`].
pub fn blank_reply_text() -> (t: &'static str)
    ensures
        t@ == blank_reply(),
{
    "110110000111011000011111011110000110000000110110000111110111100001110000001101100001110111001000000001111011100001000011011101000000000110000111101011110111000010000110111010000000001111111101100001110101111011100010000001110001100001111010010111101111000011011101011011000011101011011000010011010110111001000000110110000100110000111111010110110000111111011000100000101100011000011110100101111011000011101100010110110001111011001000011010110111001000000110110000100110000000000"
}

/// Whether the two texts have the same bytes.
pub(crate) fn same_bytes(a: &str, b: &str) -> (r: bool)
    ensures
        r == (a.spec_bytes() == b.spec_bytes()),
{
    let x = a.as_bytes();
    let y = b.as_bytes();
    if x.len() != y.len() {
        return false;
    }
    let mut j: usize = 0;
    while j < x.len()
        invariant
            x@ == a.spec_bytes(),
            y@ == b.spec_bytes(),
            x@.len() == y@.len(),
            j <= x@.len(),
            forall|i: int| 0 <= i < j ==> x@[i] == y@[i],
        decreases x@.len() - j,
    {
        if x[j] != y[j] {
            assert(x@[j as int] != y@[j as int]);
            return false;
        }
        j = j + 1;
    }
    assert(x@ =~= y@);
    true
}

/// Demodulates a whole response into text: [`blank_reply`] gives the empty
/// text, any other response its rendering as a term ([`spec_render_term`]).
pub open spec fn spec_decode_response(b: Seq<u8>) -> Option<Seq<char>> {
    if b == encode_utf8(blank_reply()) {
        Some(Seq::empty())
    } else {
        spec_render_term(b)
    }
}

/// Demodulates a whole response into text (see [`spec_decode_response`]);
/// `None` where it is not accepted.
pub fn parse_response_text(s: &str) -> (res: Option<String>)
    ensures
        match spec_decode_response(s.spec_bytes()) {
            None => res is None,
            Some(t) => res matches Some(r) && r@ == t,
        },
{
    let blank = blank_reply_text();
    if same_bytes(s, blank) {
        return Some(String::new());
    }
    render_term(s)
}

/// Demodulates a whole response into text (see [`spec_decode_response`]).
pub fn decode_response(s: &str) -> (res: String)
    requires
        spec_decode_response(s.spec_bytes()) is Some,
    ensures
        Some(res@) == spec_decode_response(s.spec_bytes()),
{
    match parse_response_text(s) {
        Some(r) => r,
        None => {
            assert(false);
            String::new()
        },
    }
}

} // verus!
