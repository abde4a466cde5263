use vstd::prelude::*;
use vstd::string::StringSliceAdditionalSpecFns;
use crate::modulate::abs;
use crate::demodulate::all_decimal_digits;

verus! {

/// The decimal digit `d` (0 to 9) as a character.
pub open spec fn digit_char(d: nat) -> char {
    if d == 0 {
        '0'
    } else if d == 1 {
        '1'
    } else if d == 2 {
        '2'
    } else if d == 3 {
        '3'
    } else if d == 4 {
        '4'
    } else if d == 5 {
        '5'
    } else if d == 6 {
        '6'
    } else if d == 7 {
        '7'
    } else if d == 8 {
        '8'
    } else {
        '9'
    }
}

/// The decimal numeral of `n`, without leading zeros (`0` is written `0`).
pub open spec fn decimal_nat(n: nat) -> Seq<char>
    decreases n,
{
    if n < 10 {
        seq![digit_char(n)]
    } else {
        decimal_nat(n / 10).push(digit_char(n % 10))
    }
}

/// The decimal text of an integer, as `to_string` writes it: a `-` before
/// the numeral of the magnitude when negative.
pub open spec fn decimal(i: int) -> Seq<char> {
    if i < 0 {
        seq!['-'] + decimal_nat(abs(i))
    } else {
        decimal_nat(i as nat)
    }
}

/// The value of a sequence of ASCII decimal digits.
pub open spec fn decimal_value(d: Seq<u8>) -> int
    decreases d.len(),
{
    if d.len() == 0 {
        0
    } else {
        10 * decimal_value(d.drop_last()) + (d.last() - 0x30)
    }
}

/// What parsing text as an `i64` gives: an optional `+` or `-`, then one or
/// more ASCII decimal digits whose value, with the sign, fits in an `i64`.
/// Anything else (empty text, a lone sign, any other byte, a value out of
/// range) gives `None`.
pub open spec fn spec_parse_i64(b: Seq<u8>) -> Option<int> {
    let signed = b.len() > 0 && (b[0] == 0x2d || b[0] == 0x2b);
    let digits = if signed {
        b.drop_first()
    } else {
        b
    };
    let magnitude = decimal_value(digits);
    let v = if signed && b[0] == 0x2d {
        -magnitude
    } else {
        magnitude
    };
    if digits.len() == 0 || !all_decimal_digits(digits) || v < i64::MIN || v > i64::MAX {
        None
    } else {
        Some(v)
    }
}

/// A prefix of a run of digits never has a larger decimal value than the
/// whole run.
pub proof fn lemma_decimal_prefix_le(d: Seq<u8>, j: int)
    requires
        all_decimal_digits(d),
        0 <= j <= d.len(),
    ensures
        0 <= decimal_value(d.subrange(0, j)) <= decimal_value(d),
    decreases d.len(),
{
    if j == d.len() {
        assert(d.subrange(0, j) =~= d);
        lemma_decimal_nonneg(d);
    } else {
        let e = d.drop_last();
        assert(all_decimal_digits(e)) by {
            assert forall|i: int| 0 <= i < e.len() implies 0x30 <= #[trigger] e[i] <= 0x39 by {
                assert(e[i] == d[i]);
            }
        }
        lemma_decimal_prefix_le(e, j);
        assert(e.subrange(0, j) =~= d.subrange(0, j));
        lemma_decimal_nonneg(e);
        assert(0x30 <= d[d.len() - 1] <= 0x39);
    }
}

/// The decimal value of a run of digits is never negative.
pub proof fn lemma_decimal_nonneg(d: Seq<u8>)
    requires
        all_decimal_digits(d),
    ensures
        decimal_value(d) >= 0,
    decreases d.len(),
{
    if d.len() > 0 {
        let e = d.drop_last();
        assert(all_decimal_digits(e)) by {
            assert forall|i: int| 0 <= i < e.len() implies 0x30 <= #[trigger] e[i] <= 0x39 by {
                assert(e[i] == d[i]);
            }
        }
        lemma_decimal_nonneg(e);
        assert(0x30 <= d[d.len() - 1] <= 0x39);
    }
}

/// The one-character text of the decimal digit `d`.
fn digit_str(d: u64) -> (res: &'static str)
    requires
        d < 10,
    ensures
        res@ == seq![digit_char(d as nat)],
{
    proof {
        reveal_strlit("0");
        reveal_strlit("1");
        reveal_strlit("2");
        reveal_strlit("3");
        reveal_strlit("4");
        reveal_strlit("5");
        reveal_strlit("6");
        reveal_strlit("7");
        reveal_strlit("8");
        reveal_strlit("9");
    }
    if d == 0 {
        "0"
    } else if d == 1 {
        "1"
    } else if d == 2 {
        "2"
    } else if d == 3 {
        "3"
    } else if d == 4 {
        "4"
    } else if d == 5 {
        "5"
    } else if d == 6 {
        "6"
    } else if d == 7 {
        "7"
    } else if d == 8 {
        "8"
    } else {
        "9"
    }
}

/// Appends the decimal numeral of `n` to `out`.
fn push_decimal_nat(out: &mut String, n: u64)
    ensures
        final(out)@ == old(out)@ + decimal_nat(n as nat),
    decreases n,
{
    if n >= 10 {
        push_decimal_nat(out, n / 10);
    }
    let d = digit_str(n % 10);
    out.append(d);
    proof {
        if n >= 10 {
            assert(decimal_nat(n as nat) == decimal_nat((n / 10) as nat).push(
                digit_char((n % 10) as nat),
            ));
        }
    }
    assert(final(out)@ =~= old(out)@ + decimal_nat(n as nat));
}

/// Appends the decimal text of `i` to `out`, as `to_string` writes it.
pub fn push_decimal(out: &mut String, i: i64)
    ensures
        final(out)@ == old(out)@ + decimal(i as int),
{
    proof {
        reveal_strlit("-");
    }
    let ghost start = out@;
    if i < 0 {
        out.append("-");
        let m: u64 = if i == i64::MIN {
            0x8000_0000_0000_0000u64
        } else {
            (-i) as u64
        };
        push_decimal_nat(out, m);
        assert(out@ =~= start + decimal(i as int));
    } else {
        push_decimal_nat(out, i as u64);
    }
}

/// Parses decimal text as an `i64` (see [`spec_parse_i64`]), as `str::parse`
/// does.
pub fn parse_i64(s: &str) -> (res: Option<i64>)
    ensures
        match spec_parse_i64(s.spec_bytes()) {
            None => res is None,
            Some(v) => res == Some(v as i64),
        },
{
    let b = s.as_bytes();
    let n = b.len();
    let signed = n > 0 && (b[0] == 0x2du8 || b[0] == 0x2bu8);
    let negative = signed && b[0] == 0x2du8;
    let first: usize = if signed {
        1
    } else {
        0
    };
    if first >= n {
        return None;
    }
    let ghost digits = b@.subrange(first as int, n as int);
    assert(digits =~= (if signed {
        b@.drop_first()
    } else {
        b@
    }));
    let limit: u64 = if negative {
        0x8000_0000_0000_0000u64
    } else {
        0x7fff_ffff_ffff_ffffu64
    };
    let mut v: u64 = 0;
    let mut j = first;
    while j < n
        invariant
            n == b@.len(),
            b@ == s.spec_bytes(),
            first <= j <= n,
            digits == b@.subrange(first as int, n as int),
            digits == (if signed { b@.drop_first() } else { b@ }),
            forall|i: int| first <= i < j ==> 0x30 <= #[trigger] b@[i] <= 0x39,
            v as int == decimal_value(b@.subrange(first as int, j as int)),
            v <= limit,
            signed == (n > 0 && (b@[0] == 0x2d || b@[0] == 0x2b)),
            negative == (signed && b@[0] == 0x2d),
            first == (if signed { 1usize } else { 0usize }),
            limit == (if negative { 0x8000_0000_0000_0000u64 } else { 0x7fff_ffff_ffff_ffffu64 }),
        decreases n - j,
    {
        let d = b[j];
        if d < 0x30u8 || d > 0x39u8 {
            assert(digits[j - first] == d);
            return None;
        }
        let dv = (d - 0x30u8) as u64;
        assert(b@.subrange(first as int, j + 1).drop_last() =~= b@.subrange(first as int, j as int));
        if v > (limit - dv) / 10 {
            proof {
                assert(10 * v + dv > limit) by (nonlinear_arith)
                    requires
                        v > (limit - dv) / 10,
                        dv <= 9,
                        dv <= limit,
                ;
                let pre = b@.subrange(first as int, j + 1);
                assert(decimal_value(pre) == 10 * v + dv);
                if all_decimal_digits(digits) {
                    lemma_decimal_prefix_le(digits, j + 1 - first);
                    assert(digits.subrange(0, j + 1 - first) =~= pre);
                }
            }
            return None;
        }
        v = 10 * v + dv;
        j = j + 1;
    }
    assert(b@.subrange(first as int, j as int) =~= digits);
    assert(all_decimal_digits(digits)) by {
        assert forall|i: int| 0 <= i < digits.len() implies 0x30 <= #[trigger] digits[i] <= 0x39 by {
            assert(digits[i] == b@[first + i]);
        }
    }
    if negative {
        if v == 0x8000_0000_0000_0000u64 {
            Some(i64::MIN)
        } else {
            Some(-(v as i64))
        }
    } else {
        Some(v as i64)
    }
}

} // verus!
