use vstd::prelude::*;
use vstd::utf8::{encode_utf8, is_ascii_chars, is_ascii_chars_encode_utf8};
use crate::modulate::{
    abs, binary, bit_char, group_count, is_token, lemma_binary_len_bound, modulate_int,
    repeat_char, sign_code, token_byte, token_code, two_to,
};
use crate::demodulate::{
    all_decimal_digits, field_value, lemma_ones_from_run, one_byte, ones_from, spec_decode_int,
    spec_render_term, zero_byte,
};
use crate::numeral::{decimal, decimal_nat, decimal_value, digit_char, spec_parse_i64};
use crate::response::{
    Piece, spec_scan, spec_read_game_response, spec_decode_response2, still_reply, header_pattern,
    quad_pattern, static_end_pattern, state_pattern,
};

verus! {

/// The bytes of a text whose characters are all ASCII.
pub open spec fn ascii_bytes(cs: Seq<char>) -> Seq<u8> {
    cs.map_values(|c: char| c as u8)
}

/// Whether every character of `cs` is `0` or `1`.
pub open spec fn is_bit_string(cs: Seq<char>) -> bool {
    forall|j: int| 0 <= j < cs.len() ==> #[trigger] cs[j] == '0' || cs[j] == '1'
}

/// The UTF-8 bytes of an ASCII text are its characters' codes.
pub proof fn lemma_encode_ascii(cs: Seq<char>)
    requires
        is_ascii_chars(cs),
    ensures
        encode_utf8(cs) == ascii_bytes(cs),
{
    is_ascii_chars_encode_utf8(cs);
    assert(encode_utf8(cs) =~= ascii_bytes(cs));
}

/// A modulated integer begins with `01` or `10`.
pub proof fn lemma_sign_code_front(i: int)
    ensures
        modulate_int(i).len() >= 3,
        (modulate_int(i)[0] == '0' && modulate_int(i)[1] == '1') || (modulate_int(i)[0] == '1'
            && modulate_int(i)[1] == '0'),
{
    reveal(modulate_int);
    let m = modulate_int(i);
    if i != 0 {
        let n = abs(i);
        let k = group_count(n);
        let pad = (4 * k - binary(n).len()) as nat;
        assert(m == sign_code(i) + repeat_char('1', k) + seq!['0'] + repeat_char('0', pad)
            + binary(n));
        assert(m[0] == sign_code(i)[0] && m[1] == sign_code(i)[1]);
    }
}

/// A binary numeral is a bit string whose value, read as a digit field, is
/// the number itself.
pub proof fn lemma_binary_value(n: nat)
    ensures
        is_bit_string(binary(n)),
        field_value(ascii_bytes(binary(n))) == n,
    decreases n,
{
    assert(('0' as u8) == 0x30u8 && ('1' as u8) == 0x31u8);
    let d = binary(n);
    let bs = ascii_bytes(d);
    let last: nat = if n >= 2 { n % 2 } else { n };
    if n >= 2 {
        lemma_binary_value(n / 2);
        assert(d == binary(n / 2).push(bit_char(n % 2)));
        assert(bs.drop_last() =~= ascii_bytes(binary(n / 2)));
    } else {
        assert(bs.drop_last() =~= Seq::<u8>::empty());
    }
    assert(bs.last() == bit_char(last) as u8);
    assert(bs.last() - 0x30 == last);
    assert(field_value(bs) == 2 * field_value(bs.drop_last()) + (bs.last() - 0x30));
}

/// Leading zero digits do not change the value of a digit field.
pub proof fn lemma_zero_pad_value(z: nat, d: Seq<u8>)
    ensures
        field_value(ascii_bytes(repeat_char('0', z)) + d) == field_value(d),
    decreases d.len(),
{
    let zs = ascii_bytes(repeat_char('0', z));
    if d.len() == 0 {
        assert(zs + d =~= zs);
        lemma_zeros_value(z);
    } else {
        assert((zs + d).drop_last() =~= zs + d.drop_last());
        lemma_zero_pad_value(z, d.drop_last());
    }
}

/// A field of zero digits is worth zero.
proof fn lemma_zeros_value(z: nat)
    ensures
        field_value(ascii_bytes(repeat_char('0', z))) == 0,
    decreases z,
{
    if z > 0 {
        assert(ascii_bytes(repeat_char('0', z)).drop_last() =~= ascii_bytes(
            repeat_char('0', (z - 1) as nat),
        ));
        lemma_zeros_value((z - 1) as nat);
    }
}

/// A modulated integer is a bit string of `3 + 5k` characters, where `k` is
/// the number of 4-bit groups of its magnitude (`010`, of 3, for zero).
pub proof fn lemma_modulate_int_shape(i: int)
    ensures
        is_bit_string(modulate_int(i)),
        is_ascii_chars(modulate_int(i)),
        modulate_int(i).len() == if i == 0 {
            3
        } else {
            3 + 5 * group_count(abs(i))
        },
{
    reveal(modulate_int);
    let m = modulate_int(i);
    if i != 0 {
        let n = abs(i);
        let k = group_count(n);
        lemma_binary_value(n);
        lemma_two_to_above(n + 1);
        lemma_binary_len_bound(n, n + 1);
        let digits = binary(n);
        let pad = (4 * k - digits.len()) as nat;
        assert(m == sign_code(i) + repeat_char('1', k) + seq!['0'] + repeat_char('0', pad) + digits);
        assert forall|j: int| 0 <= j < m.len() implies #[trigger] m[j] == '0' || m[j] == '1' by {
            if j >= m.len() - digits.len() {
                assert(m[j] == digits[j - (m.len() - digits.len())]);
            }
        }
    }
    assert(is_ascii_chars(m)) by {
        assert forall|j: int| 0 <= j < m.len() implies '\0' <= #[trigger] m[j] <= '\u{7f}' by {
            assert(m[j] == '0' || m[j] == '1');
        }
    }
}

/// `2^k` is larger than `k - 1`.
proof fn lemma_two_to_above(k: nat)
    ensures
        two_to(k) >= k + 1,
    decreases k,
{
    if k > 0 {
        lemma_two_to_above((k - 1) as nat);
    }
}

/// Reading back a modulated integer: for every integer of magnitude below
/// `2^60`, demodulating its modulated form, followed by any bytes, gives the
/// integer and exactly those following bytes.
pub proof fn lemma_decode_modulated_int(i: int, rest: Seq<u8>)
    requires
        -0x1000_0000_0000_0000 < i < 0x1000_0000_0000_0000,
    ensures
        spec_decode_int(encode_utf8(modulate_int(i)) + rest) == Some((i, rest)),
{
    reveal(modulate_int);
    let m = modulate_int(i);
    lemma_modulate_int_shape(i);
    lemma_encode_ascii(m);
    let mb = ascii_bytes(m);
    let b = mb + rest;
    assert(b.len() == m.len() + rest.len());
    assert forall|j: int| 0 <= j < m.len() implies #[trigger] b[j] == m[j] as u8 by {
        assert(b[j] == mb[j]);
    }
    let n = abs(i);
    if i == 0 {
        assert(m == seq!['0', '1', '0']);
        assert(b[0] == zero_byte() && b[1] == one_byte() && b[2] == zero_byte());
        lemma_ones_from_run(b, 2, 0);
        assert(b.subrange(3, 3) =~= Seq::<u8>::empty());
        assert(b.subrange(3, b.len() as int) =~= rest);
    } else {
        let k: int = group_count(n) as int;
        let digits = binary(n);
        assert(two_to(60) == 0x1000_0000_0000_0000) by {
            reveal_with_fuel(two_to, 61);
        }
        lemma_binary_len_bound(n, 60);
        lemma_binary_value(n);
        let pad = (4 * k - digits.len()) as nat;
        assert(m == sign_code(i) + repeat_char('1', k as nat) + seq!['0'] + repeat_char('0', pad) + digits);
        assert(k <= 15);
        assert(m.len() == 3 + 5 * k);
        assert(b[0] == m[0] as u8 && b[1] == m[1] as u8);
        assert forall|j: int| 2 <= j < 2 + k implies #[trigger] b[j] == one_byte() by {
            assert(m[j] == repeat_char('1', k as nat)[j - 2]);
            assert(b[j] == m[j] as u8);
        }
        assert(m[2 + k] == '0');
        assert(b[2 + k] == m[2 + k] as u8);
        lemma_ones_from_run(b, 2, k);
        assert(ones_from(b, 2) == k);
        let start = 3 + k;
        let end = start + 4 * k;
        let field = b.subrange(start as int, end as int);
        let zs = ascii_bytes(repeat_char('0', pad));
        let ds = ascii_bytes(digits);
        assert(field =~= zs + ds) by {
            assert forall|j: int| 0 <= j < field.len() implies #[trigger] field[j] == (zs + ds)[j] by {
                assert(field[j] == b[start + j]);
                assert(b[start + j] == m[start + j] as u8);
                if j < pad {
                    assert(m[start + j] == repeat_char('0', pad)[j]);
                } else {
                    assert(m[start + j] == digits[j - pad]);
                }
            }
        }
        lemma_zero_pad_value(pad, ds);
        assert(field_value(field) == n);
        assert(all_decimal_digits(field)) by {
            assert forall|j: int| 0 <= j < field.len() implies 0x30 <= #[trigger] field[j] <= 0x39 by {
                assert(field[j] == b[start + j]);
                assert(b[start + j] == m[start + j] as u8);
                assert(m[start + j] == '0' || m[start + j] == '1');
            }
        }
        assert(n < 0x1000_0000_0000_0000);
        assert(b.subrange(end as int, b.len() as int) =~= rest);
    }
}


/// What `mod_str` writes for a token is what `consume_token` and
/// `expect_token` look for: the two bytes `token_byte(t)`.
pub proof fn lemma_token_code_bytes(t: Seq<char>)
    requires
        is_token(t),
    ensures
        encode_utf8(token_code(t).unwrap()) == seq![token_byte(t), token_byte(t)],
{
    let c = token_code(t).unwrap();
    assert(is_ascii_chars(c));
    lemma_encode_ascii(c);
    assert(('0' as u8) == 0x30u8 && ('1' as u8) == 0x31u8);
    assert(ascii_bytes(c) =~= seq![token_byte(t), token_byte(t)]);
}

/// Rendering the modulated form of an integer of magnitude below `2^60` as
/// a term gives the integer's decimal text.
pub proof fn lemma_render_int(i: int)
    requires
        -0x1000_0000_0000_0000 < i < 0x1000_0000_0000_0000,
    ensures
        spec_render_term(encode_utf8(modulate_int(i))) == Some(decimal(i)),
{
    reveal(modulate_int);
    let m = modulate_int(i);
    let b = encode_utf8(m);
    let empty = Seq::<u8>::empty();
    lemma_decode_modulated_int(i, empty);
    assert(b + empty =~= b);
    lemma_modulate_int_shape(i);
    lemma_encode_ascii(m);
    assert(b.len() >= 3);
    assert(b[0] == m[0] as u8 && b[1] == m[1] as u8);
    assert(m[0] != m[1]) by {
        if i != 0 {
            let n = abs(i);
            let k = group_count(n);
            let pad = (4 * k - binary(n).len()) as nat;
            assert(m == sign_code(i) + repeat_char('1', k) + seq!['0'] + repeat_char('0', pad)
                + binary(n));
            assert(m[0] == sign_code(i)[0] && m[1] == sign_code(i)[1]);
        }
    }
    assert(m[0] == '0' || m[0] == '1');
    assert(m[1] == '0' || m[1] == '1');
    assert(('0' as u8) == 0x30u8 && ('1' as u8) == 0x31u8);
    assert(spec_render_term(empty) == Some(Seq::<char>::empty()));
    assert(decimal(i) + Seq::<char>::empty() =~= decimal(i));
}

/// A decimal numeral is made of digit characters, and its digits, read as
/// bytes, have the number as their decimal value.
pub proof fn lemma_decimal_nat_value(n: nat)
    ensures
        decimal_nat(n).len() >= 1,
        is_ascii_chars(decimal_nat(n)),
        all_decimal_digits(ascii_bytes(decimal_nat(n))),
        decimal_value(ascii_bytes(decimal_nat(n))) == n,
    decreases n,
{
    let d = decimal_nat(n);
    let bs = ascii_bytes(d);
    let last: nat = if n >= 10 { n % 10 } else { n };
    assert(('0' as u8) == 0x30u8 && ('1' as u8) == 0x31u8 && ('2' as u8) == 0x32u8 && ('3' as u8)
        == 0x33u8 && ('4' as u8) == 0x34u8 && ('5' as u8) == 0x35u8 && ('6' as u8) == 0x36u8 && (
    '7' as u8) == 0x37u8 && ('8' as u8) == 0x38u8 && ('9' as u8) == 0x39u8);
    if n >= 10 {
        lemma_decimal_nat_value(n / 10);
        assert(d == decimal_nat(n / 10).push(digit_char(n % 10)));
        assert(bs.drop_last() =~= ascii_bytes(decimal_nat(n / 10)));
        assert forall|j: int| 0 <= j < d.len() implies '\0' <= #[trigger] d[j] <= '\u{7f}' by {
            if j < d.len() - 1 {
                assert(d[j] == decimal_nat(n / 10)[j]);
            }
        }
        assert forall|j: int| 0 <= j < bs.len() implies 0x30 <= #[trigger] bs[j] <= 0x39 by {
            if j < bs.len() - 1 {
                assert(bs[j] == ascii_bytes(decimal_nat(n / 10))[j]);
            }
        }
    } else {
        assert(bs.drop_last() =~= Seq::<u8>::empty());
    }
    assert(bs.last() == digit_char(last) as u8);
    assert(bs.last() - 0x30 == last);
    assert(decimal_value(bs) == 10 * decimal_value(bs.drop_last()) + (bs.last() - 0x30));
}

/// Parsing the decimal text of an `i64` gives the number back.
pub proof fn lemma_parse_decimal(i: int)
    requires
        i64::MIN <= i <= i64::MAX,
    ensures
        spec_parse_i64(encode_utf8(decimal(i))) == Some(i),
{
    let n = abs(i);
    lemma_decimal_nat_value(n);
    let d = decimal_nat(n);
    let t = decimal(i);
    assert(('-' as u8) == 0x2du8);
    if i < 0 {
        assert(is_ascii_chars(t)) by {
            assert forall|j: int| 0 <= j < t.len() implies '\0' <= #[trigger] t[j] <= '\u{7f}' by {
                if j > 0 {
                    assert(t[j] == d[j - 1]);
                }
            }
        }
        lemma_encode_ascii(t);
        assert(ascii_bytes(t).drop_first() =~= ascii_bytes(d));
        assert(ascii_bytes(t)[0] == 0x2d);
    } else {
        lemma_encode_ascii(t);
        assert(ascii_bytes(t) =~= ascii_bytes(d));
        assert(0x30 <= ascii_bytes(d)[0] <= 0x39);
    }
}


/// The run that `ones_from` counts is made of ones and ends at the end of
/// `b` or at a byte that is not a one.
pub proof fn lemma_ones_from_facts(b: Seq<u8>, p: int)
    requires
        0 <= p <= b.len(),
    ensures
        p + ones_from(b, p) <= b.len(),
        forall|j: int| p <= j < p + ones_from(b, p) ==> #[trigger] b[j] == one_byte(),
        p + ones_from(b, p) == b.len() || b[p + ones_from(b, p)] != one_byte(),
    decreases b.len() - p,
{
    if p < b.len() && b[p] == one_byte() {
        lemma_ones_from_facts(b, p + 1);
    }
}

/// Bytes after a modulated integer do not change how it is read: they only
/// follow it in the rest.
pub proof fn lemma_decode_int_append(b: Seq<u8>, t: Seq<u8>)
    ensures
        spec_decode_int(b) matches Some((v, r)) ==> spec_decode_int(b + t) == Some((v, r + t)),
{
    if let Some((v, r)) = spec_decode_int(b) {
        let c = b + t;
        let k = ones_from(b, 2) as int;
        lemma_ones_from_facts(b, 2);
        assert forall|j: int| 2 <= j < 2 + k implies #[trigger] c[j] == one_byte() by {
            assert(c[j] == b[j]);
        }
        assert(c[2 + k] == b[2 + k]);
        lemma_ones_from_run(c, 2, k);
        let start = 3 + k;
        let end = start + 4 * k;
        assert(c.subrange(start, end) =~= b.subrange(start, end));
        assert(c.subrange(end, c.len() as int) =~= b.subrange(end, b.len() as int) + t);
        assert(c[0] == b[0] && c[1] == b[1]);
    }
}

/// Bytes after the pieces of a scan do not change what it reads: they only
/// follow in the rest.
pub proof fn lemma_scan_append(b: Seq<u8>, pat: Seq<Piece>, t: Seq<u8>)
    ensures
        spec_scan(b, pat) matches Some((vs, r)) ==> spec_scan(b + t, pat) == Some((vs, r + t)),
    decreases pat.len(),
{
    if pat.len() > 0 {
        if pat[0] == Piece::Int {
            lemma_decode_int_append(b, t);
            if let Some((v, rest)) = spec_decode_int(b) {
                lemma_scan_append(rest, pat.drop_first(), t);
            }
        } else {
            let rest = b.subrange(2, b.len() as int);
            lemma_scan_append(rest, pat.drop_first(), t);
            if b.len() >= 2 {
                assert((b + t).subrange(2, (b + t).len() as int) =~= rest + t);
                assert((b + t)[0] == b[0] && (b + t)[1] == b[1]);
            }
        }
    }
}

/// Whether `(b + t)` begins with the bytes `x y` just as `b` does, when `b`
/// has at least two bytes.
proof fn lemma_begins_append(b: Seq<u8>, t: Seq<u8>)
    ensures
        b.len() >= 2 ==> (b + t)[0] == b[0] && (b + t)[1] == b[1],
{
}

/// Text appended after a game response does not change what is read from
/// it by its shape.
pub proof fn lemma_read_game_response_append(b: Seq<u8>, t: Seq<u8>)
    requires
        spec_read_game_response(b) is Some,
    ensures
        spec_read_game_response(b + t) == spec_read_game_response(b),
{
    lemma_scan_append(b, header_pattern(), t);
    let (head, r1) = spec_scan(b, header_pattern()).unwrap();
    lemma_begins_append(r1, t);
    lemma_scan_append(r1, quad_pattern(), t);
    lemma_scan_append(r1, seq![Piece::Nil], t);
    if r1.len() < 2 {
        assert(spec_scan(r1, seq![Piece::Nil]) is None);
    }
    let x4 = if crate::demodulate::begins_with(r1, one_byte(), one_byte()) {
        spec_scan(r1, quad_pattern())
    } else {
        spec_scan(r1, seq![Piece::Nil])
    };
    let (_, r2) = x4.unwrap();
    lemma_scan_append(r2, static_end_pattern(), t);
    let (_, r3) = spec_scan(r2, static_end_pattern()).unwrap();
    lemma_begins_append(r3, t);
    lemma_scan_append(r3, state_pattern(), t);
    if !crate::demodulate::begins_with(r3, zero_byte(), zero_byte()) {
        assert(state_pattern()[0] == Piece::Open);
        assert(r3.len() >= 2);
    }
}

/// Text appended after a game response does not change what
/// `decode_response2` reads from it, where neither the response nor the
/// longer text is the recorded still reply.
pub proof fn lemma_decode_response2_append(b: Seq<u8>, t: Seq<u8>)
    requires
        spec_decode_response2(b) is Some,
        b != encode_utf8(still_reply()),
        b + t != encode_utf8(still_reply()),
    ensures
        spec_decode_response2(b + t) == spec_decode_response2(b),
{
    lemma_read_game_response_append(b, t);
}

} // verus!
