//! Decimal text of 64-bit signed integers.
//!
//! Counters are kept as the decimal ASCII text of their value, so the store
//! reads a counter by parsing such text and writes it by formatting one.

use vstd::prelude::*;

verus! {

/// The byte of the minus sign.
pub const MINUS: u8 = 0x2d;

/// The byte of the plus sign.
pub const PLUS: u8 = 0x2b;

/// The byte of the digit zero.
pub const ZERO: u8 = 0x30;

/// Whether `b` is an ASCII decimal digit.
pub open spec fn is_digit(b: u8) -> bool {
    0x30 <= b && b <= 0x39
}

/// The number that the digit `b` stands for; zero for any other byte.
pub open spec fn digit_of(b: u8) -> nat {
    if is_digit(b) {
        (b - 0x30) as nat
    } else {
        0
    }
}

/// Whether every byte of `s` is a decimal digit.
pub open spec fn all_digits(s: Seq<u8>) -> bool {
    forall|i: int| 0 <= i < s.len() ==> is_digit(#[trigger] s[i])
}

/// The number that a run of digits denotes, most significant digit first.
pub open spec fn digits_value(s: Seq<u8>) -> nat
    decreases s.len(),
{
    if s.len() == 0 {
        0
    } else {
        digits_value(s.drop_last()) * 10 + digit_of(s.last())
    }
}

/// How many bytes of `s` the sign takes: one for a leading `-` or `+`, else none.
pub open spec fn sign_len(s: Seq<u8>) -> int {
    if s.len() > 0 && (s[0] == 0x2d || s[0] == 0x2b) {
        1
    } else {
        0
    }
}

/// Whether `s` starts with a minus sign.
pub open spec fn is_negative(s: Seq<u8>) -> bool {
    s.len() > 0 && s[0] == 0x2d
}

/// What follows the sign of `s`.
pub open spec fn magnitude(s: Seq<u8>) -> Seq<u8> {
    s.skip(sign_len(s))
}

/// The integer that `s` denotes when it is a sign and digits.
pub open spec fn decimal_value(s: Seq<u8>) -> int {
    if is_negative(s) {
        -(digits_value(magnitude(s)) as int)
    } else {
        digits_value(magnitude(s)) as int
    }
}

/// Whether `s` is the decimal text of a 64-bit signed integer: an optional
/// sign, then at least one digit and nothing else, the value in range.
pub open spec fn is_decimal_i64(s: Seq<u8>) -> bool {
    &&& magnitude(s).len() > 0
    &&& all_digits(magnitude(s))
    &&& i64::MIN <= decimal_value(s) <= i64::MAX
}

/// The integer that `s` parses to, if it is decimal text of one.
pub open spec fn parse_decimal(s: Seq<u8>) -> Option<i64> {
    if is_decimal_i64(s) {
        Some(decimal_value(s) as i64)
    } else {
        None
    }
}

/// The digits of `n`, most significant first, without leading zeros.
pub open spec fn nat_digits(n: nat) -> Seq<u8>
    decreases n,
{
    if n < 10 {
        seq![(0x30 + n) as u8]
    } else {
        nat_digits(n / 10).push((0x30 + n % 10) as u8)
    }
}

/// The canonical decimal text of `v`: a minus sign if negative, then the digits.
pub open spec fn format_decimal(v: int) -> Seq<u8> {
    if v < 0 {
        seq![0x2du8] + nat_digits((-v) as nat)
    } else {
        nat_digits(v as nat)
    }
}

/// A run of digits denotes at least what any of its prefixes denotes.
pub proof fn lemma_digits_prefix_le(s: Seq<u8>, k: int)
    requires
        0 <= k <= s.len(),
    ensures
        digits_value(s.take(k)) <= digits_value(s),
    decreases s.len(),
{
    if k == s.len() {
        assert(s.take(k) =~= s);
    } else {
        assert(s.drop_last().take(k) =~= s.take(k));
        lemma_digits_prefix_le(s.drop_last(), k);
    }
}

/// Appending one byte multiplies the value by ten and adds the byte's digit.
pub proof fn lemma_digits_push(s: Seq<u8>, b: u8)
    ensures
        digits_value(s.push(b)) == digits_value(s) * 10 + digit_of(b),
{
    assert(s.push(b).drop_last() =~= s);
}

/// The digits written for `n` are digits, at least one, and denote `n`.
pub proof fn lemma_nat_digits(n: nat)
    ensures
        nat_digits(n).len() > 0,
        all_digits(nat_digits(n)),
        digits_value(nat_digits(n)) == n,
    decreases n,
{
    if n < 10 {
        let s = nat_digits(n);
        assert(s.drop_last() =~= Seq::<u8>::empty());
        assert(digits_value(s.drop_last()) == 0);
    } else {
        lemma_nat_digits(n / 10);
        lemma_digits_push(nat_digits(n / 10), (0x30 + n % 10) as u8);
    }
}

/// Formatting then parsing gives the integer back.
pub proof fn lemma_format_then_parse(v: i64)
    ensures
        parse_decimal(format_decimal(v as int)) == Some(v),
{
    let s = format_decimal(v as int);
    if v < 0 {
        let n = (-(v as int)) as nat;
        lemma_nat_digits(n);
        assert(s.skip(1) =~= nat_digits(n));
    } else {
        lemma_nat_digits(v as nat);
        assert(is_digit(s[0]));
        assert(s.skip(0) =~= s);
    }
}

/// Parses the decimal text of a 64-bit signed integer.
///
/// The text is an optional `+` or `-` followed by one or more ASCII digits
/// and nothing else. Leading zeros are allowed. Text that is empty, holds
/// another byte, or denotes a value outside the 64-bit range gives `None`.
pub fn parse_i64(text: &[u8]) -> (r: Option<i64>)
    ensures
        r == parse_decimal(text@),
{
    let n = text.len();
    if n == 0 {
        return None;
    }
    let negative = text[0] == MINUS;
    let start: usize = if negative || text[0] == PLUS {
        1
    } else {
        0
    };
    if start == n {
        return None;
    }
    let limit: u64 = if negative {
        0x8000_0000_0000_0000
    } else {
        0x7fff_ffff_ffff_ffff
    };
    let ghost digits = magnitude(text@);
    assert(digits =~= text@.subrange(start as int, n as int));
    let mut acc: u64 = 0;
    let mut i: usize = start;
    assert(digits.take(0) =~= Seq::<u8>::empty());
    while i < n
        invariant
            start <= i <= n,
            n == text@.len(),
            digits == magnitude(text@),
            digits == text@.subrange(start as int, n as int),
            negative == is_negative(text@),
            all_digits(digits.take(i - start)),
            acc == digits_value(digits.take(i - start)),
            acc <= limit,
            limit == if negative {
                0x8000_0000_0000_0000u64
            } else {
                0x7fff_ffff_ffff_ffffu64
            },
        decreases n - i,
    {
        let b = text[i];
        if b < 0x30 || b > 0x39 {
            assert(!is_digit(digits[i - start]));
            return None;
        }
        let d: u64 = (b - ZERO) as u64;
        proof {
            assert(digits.take(i - start + 1) =~= digits.take(i - start).push(b));
            lemma_digits_push(digits.take(i - start), b);
        }
        if acc > (limit - d) / 10 {
            proof {
                if all_digits(digits) {
                    lemma_digits_prefix_le(digits, i - start + 1);
                }
            }
            return None;
        }
        acc = acc * 10 + d;
        i = i + 1;
    }
    assert(digits.take(n - start) =~= digits);
    if negative {
        if acc == 0x8000_0000_0000_0000 {
            Some(i64::MIN)
        } else {
            Some(-(acc as i64))
        }
    } else {
        Some(acc as i64)
    }
}

/// Appends the digits of `n` to `out`.
fn push_digits(n: u64, out: &mut Vec<u8>)
    ensures
        final(out)@ == old(out)@ + nat_digits(n as nat),
    decreases n,
{
    if n >= 10 {
        push_digits(n / 10, out);
    }
    out.push(ZERO + (n % 10) as u8);
    assert(final(out)@ =~= old(out)@ + nat_digits(n as nat));
}

/// Writes the canonical decimal text of `v`.
pub fn format_i64(v: i64) -> (text: Vec<u8>)
    ensures
        text@ == format_decimal(v as int),
        parse_decimal(text@) == Some(v),
{
    let mut text: Vec<u8> = Vec::new();
    if v < 0 {
        text.push(MINUS);
        let n: u64 = if v == i64::MIN {
            0x8000_0000_0000_0000
        } else {
            (-v) as u64
        };
        push_digits(n, &mut text);
    } else {
        push_digits(v as u64, &mut text);
    }
    proof {
        assert(text@ =~= format_decimal(v as int));
        lemma_format_then_parse(v);
    }
    text
}

} // verus!
