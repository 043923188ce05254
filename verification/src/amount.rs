//! Fixed-point money.
//!
//! Every amount and every balance is a whole number of millionths of the
//! currency unit. Reports carry four decimal digits, so the smallest step
//! that is ever shown is one `QUANTUM`, a hundred millionths.

use vstd::prelude::*;

verus! {

/// Millionths in one whole currency unit.
pub const SCALE: u64 = 1_000_000;

/// Millionths in one ten-thousandth, the last digit that is reported.
pub const QUANTUM: u64 = 100;

/// The largest amount a record can carry. Balances are 128 bits wide, so a
/// log would need more than `usize::MAX` records to push one out of range.
pub const MAX_AMOUNT: u64 = 0x7fff_ffff_ffff_ffff;

/// `v` rounded down to a whole number of ten-thousandths.
pub open spec fn floor_4f(v: int) -> int {
    v - v % 100
}

/// Whether `v` is a whole number of ten-thousandths.
pub open spec fn is_4f(v: int) -> bool {
    v % 100 == 0
}

/// Rounds an amount down to four decimal digits.
pub fn floor_amount(a: u64) -> (r: u64)
    ensures
        r == floor_4f(a as int),
{
    a - a % QUANTUM
}

/// Rounds a balance down (towards minus infinity) to four decimal digits.
pub fn floor_balance(b: i128) -> (r: i128)
    requires
        floor_4f(b as int) >= i128::MIN,
    ensures
        r == floor_4f(b as int),
{
    if b >= 0 {
        b - b % 100
    } else {
        let m: i128 = b % 100;
        if m == 0 {
            b
        } else {
            (b - m) - 100
        }
    }
}

/// Flooring is idempotent, never raises a value, and moves it by less than
/// one quantum; a value that is already a whole number of ten-thousandths
/// is left alone.
pub proof fn lemma_floor_4f(v: int)
    ensures
        is_4f(floor_4f(v)),
        floor_4f(floor_4f(v)) == floor_4f(v),
        v - 100 < floor_4f(v) <= v,
        is_4f(v) ==> floor_4f(v) == v,
        floor_4f(v) / 100 == v / 100,
{
}

/// Whether `b` is an ASCII decimal digit.
pub open spec fn is_digit(b: u8) -> bool {
    0x30 <= b <= 0x39
}

/// Whether `s` holds decimal digits and nothing else.
pub open spec fn all_digits(s: Seq<u8>) -> bool {
    forall|i: int| 0 <= i < s.len() ==> is_digit(#[trigger] s[i])
}

/// The number that the decimal digits `s` write; 0 for no digits.
pub open spec fn digits_value(s: Seq<u8>) -> nat
    decreases s.len(),
{
    if s.len() == 0 {
        0
    } else {
        digits_value(s.drop_last()) * 10 + (s.last() - 0x30) as nat
    }
}

/// The whole number that `s` writes: one or more decimal digits, no sign.
pub open spec fn integer_value(s: Seq<u8>) -> Option<nat> {
    if s.len() > 0 && all_digits(s) {
        Some(digits_value(s))
    } else {
        None
    }
}

/// The whole number that `s` writes, if it is at most `max`.
pub open spec fn bounded_integer(s: Seq<u8>, max: u64) -> Option<u64> {
    match integer_value(s) {
        Some(v) => if v <= max {
            Some(v as u64)
        } else {
            None
        },
        None => None,
    }
}

/// Where the first `.` of `s` stands; the length of `s` if it has none.
pub open spec fn dot_position(s: Seq<u8>) -> int
    decreases s.len(),
{
    if s.len() == 0 || s[0] == 0x2e {
        0
    } else {
        1 + dot_position(s.drop_first())
    }
}

/// The first six digits of `frac`, with zeros for those that are missing.
pub open spec fn six_digits(frac: Seq<u8>) -> Seq<u8> {
    Seq::new(
        6,
        |i: int|
            if i < frac.len() {
                frac[i]
            } else {
                0x30u8
            },
    )
}

/// The amount in millionths that the decimal number `s` writes.
///
/// A decimal number is digits, optionally followed by `.` and more digits,
/// with at least one digit in all; there is no sign and no exponent.
/// Fraction digits after the sixth are dropped.
pub open spec fn decimal_value(s: Seq<u8>) -> Option<nat> {
    let d = dot_position(s);
    let whole = s.take(d);
    let frac = if d < s.len() {
        s.skip(d + 1)
    } else {
        Seq::empty()
    };
    if all_digits(whole) && all_digits(frac) && whole.len() + frac.len() > 0 {
        Some(digits_value(whole) * 1_000_000 + digits_value(six_digits(frac)))
    } else {
        None
    }
}

/// The amount in millionths that `s` writes, if it is at most `MAX_AMOUNT`.
pub open spec fn amount_value(s: Seq<u8>) -> Option<u64> {
    match decimal_value(s) {
        Some(v) => if v <= MAX_AMOUNT {
            Some(v as u64)
        } else {
            None
        },
        None => None,
    }
}

/// A prefix of a digit string writes no larger a number than the whole.
proof fn lemma_digits_value_prefix(s: Seq<u8>, k: int)
    requires
        0 <= k <= s.len(),
    ensures
        digits_value(s.take(k)) <= digits_value(s),
    decreases s.len(),
{
    if k == s.len() {
        assert(s.take(k) =~= s);
    } else {
        assert(s.drop_last().take(k) =~= s.take(k));
        lemma_digits_value_prefix(s.drop_last(), k);
    }
}

/// The first `.` of `s` is at `i` if there is none before `i` and `i` is
/// either a `.` or the end.
proof fn lemma_dot_position(s: Seq<u8>, i: int)
    requires
        0 <= i <= s.len(),
        forall|j: int| 0 <= j < i ==> s[j] != 0x2e,
        i < s.len() ==> s[i] == 0x2e,
    ensures
        dot_position(s) == i,
    decreases i,
{
    if i > 0 {
        let rest = s.drop_first();
        assert forall|j: int| 0 <= j < i - 1 implies rest[j] != 0x2e by {
            assert(rest[j] == s[j + 1]);
        }
        lemma_dot_position(rest, i - 1);
    }
}

/// Reads the digits `text[from..to]` as a number, up to `cap`.
fn number(text: &[u8], from: usize, to: usize, cap: u64) -> (r: Option<u64>)
    requires
        from <= to <= text@.len(),
        all_digits(text@.subrange(from as int, to as int)),
    ensures
        r == if digits_value(text@.subrange(from as int, to as int)) <= cap {
            Some(digits_value(text@.subrange(from as int, to as int)) as u64)
        } else {
            None
        },
{
    let ghost digits = text@.subrange(from as int, to as int);
    let mut value: u64 = 0;
    let mut i: usize = from;
    while i < to
        invariant
            from <= i <= to <= text@.len(),
            digits == text@.subrange(from as int, to as int),
            all_digits(digits),
            value == digits_value(digits.take(i - from)),
            value <= cap,
        decreases to - i,
    {
        proof {
            let k = i - from;
            assert(digits[k] == text@[i as int]);
            assert(is_digit(digits[k]));
            assert(digits.take(k + 1).drop_last() =~= digits.take(k));
            assert(digits.take(k + 1).last() == digits[k]);
            lemma_digits_value_prefix(digits, k + 1);
        }
        let digit: u64 = (text[i] - 0x30) as u64;
        if digit > cap || value > (cap - digit) / 10 {
            return None;
        }
        value = value * 10 + digit;
        i += 1;
    }
    proof {
        assert(digits.take(to - from) =~= digits);
    }
    Some(value)
}

/// Whether `text[from..to]` holds decimal digits and nothing else.
fn digits_only(text: &[u8], from: usize, to: usize) -> (r: bool)
    requires
        from <= to <= text@.len(),
    ensures
        r == all_digits(text@.subrange(from as int, to as int)),
{
    let ghost digits = text@.subrange(from as int, to as int);
    let mut i: usize = from;
    while i < to
        invariant
            from <= i <= to <= text@.len(),
            digits == text@.subrange(from as int, to as int),
            forall|j: int| 0 <= j < i - from ==> is_digit(#[trigger] digits[j]),
        decreases to - i,
    {
        if text[i] < 0x30 || text[i] > 0x39 {
            proof {
                assert(digits[i - from] == text@[i as int]);
            }
            return false;
        }
        proof {
            assert(digits[i - from] == text@[i as int]);
        }
        i += 1;
    }
    true
}

/// Reads a whole number no larger than `max`.
///
/// Gives the number that `text` writes if `text` is one or more decimal
/// digits and the number is at most `max`, and `None` otherwise.
pub fn parse_integer(text: &[u8], max: u64) -> (r: Option<u64>)
    ensures
        r == bounded_integer(text@, max),
{
    proof {
        assert(text@.subrange(0, text@.len() as int) =~= text@);
    }
    if text.len() == 0 || !digits_only(text, 0, text.len()) {
        return None;
    }
    number(text, 0, text.len(), max)
}

/// Reads an amount.
///
/// Gives the millionths that `text` writes if `text` is a decimal number
/// (see [`decimal_value`]) of at most `MAX_AMOUNT` millionths, and `None`
/// otherwise.
pub fn parse_amount(text: &[u8]) -> (r: Option<u64>)
    ensures
        r == amount_value(text@),
{
    let len = text.len();
    let mut dot: usize = 0;
    while dot < len && text[dot] != 0x2e
        invariant
            dot <= len == text@.len(),
            forall|j: int| 0 <= j < dot ==> text@[j] != 0x2e,
        decreases len - dot,
    {
        dot += 1;
    }
    let frac_from: usize = if dot < len {
        dot + 1
    } else {
        len
    };
    let ghost whole = text@.take(dot as int);
    let ghost frac = if dot < len {
        text@.skip(dot + 1)
    } else {
        Seq::empty()
    };
    proof {
        lemma_dot_position(text@, dot as int);
        assert(text@.subrange(0, dot as int) =~= whole);
        assert(text@.subrange(frac_from as int, len as int) =~= frac);
    }
    if !digits_only(text, 0, dot) || !digits_only(text, frac_from, len) {
        return None;
    }
    if dot + (len - frac_from) == 0 {
        return None;
    }
    let units: u64 = match number(text, 0, dot, MAX_AMOUNT / SCALE) {
        Some(units) => units,
        None => {
            return None;
        },
    };
    let mut part: u64 = 0;
    let mut k: usize = 0;
    while k < 6
        invariant
            k <= 6,
            frac_from <= len == text@.len(),
            frac == text@.subrange(frac_from as int, len as int),
            all_digits(frac),
            part == digits_value(six_digits(frac).take(k as int)),
            part < 1_000_000,
            k < 6 ==> part < 100_000,
            k < 5 ==> part < 10_000,
            k < 4 ==> part < 1_000,
            k < 3 ==> part < 100,
            k < 2 ==> part < 10,
            k < 1 ==> part < 1,
        decreases 6 - k,
    {
        proof {
            let six = six_digits(frac);
            if k < len - frac_from {
                assert(frac[k as int] == text@[frac_from + k]);
                assert(is_digit(frac[k as int]));
            }
            assert(six.take(k + 1).drop_last() =~= six.take(k as int));
            assert(six.take(k + 1).last() == six[k as int]);
        }
        let digit: u64 = if k < len - frac_from {
            (text[frac_from + k] - 0x30) as u64
        } else {
            0
        };
        part = part * 10 + digit;
        k += 1;
    }
    proof {
        assert(six_digits(frac).take(6) =~= six_digits(frac));
    }
    let value: u64 = units * SCALE + part;
    if value > MAX_AMOUNT {
        None
    } else {
        Some(value)
    }
}

/// The decimal digits of `n`, without leading zeros.
pub open spec fn digits_text(n: nat) -> Seq<u8>
    decreases n,
{
    if n < 10 {
        seq![(0x30 + n) as u8]
    } else {
        digits_text(n / 10).push((0x30 + n % 10) as u8)
    }
}

/// The fraction digits of `t` ten-thousandths, `t` below 10000: four
/// digits without their trailing zeros, but at least one digit.
pub open spec fn fraction_text(t: nat) -> Seq<u8> {
    let four = seq![
        (0x30 + t / 1000) as u8,
        (0x30 + t / 100 % 10) as u8,
        (0x30 + t / 10 % 10) as u8,
        (0x30 + t % 10) as u8,
    ];
    if t % 1000 == 0 {
        four.take(1)
    } else if t % 100 == 0 {
        four.take(2)
    } else if t % 10 == 0 {
        four.take(3)
    } else {
        four
    }
}

/// How a balance of `v` millionths is reported: rounded down to four
/// decimal digits, then written as an optional `-`, the whole part, `.`
/// and one to four fraction digits.
pub open spec fn decimal_text(v: int) -> Seq<u8> {
    let t = v / 100;
    let m = if t < 0 {
        -t
    } else {
        t
    };
    let body = (digits_text((m / 10000) as nat) + seq![0x2eu8]) + fraction_text((m % 10000) as nat);
    if t < 0 {
        seq![0x2du8] + body
    } else {
        body
    }
}

/// Appends the decimal digits of `n` to `out`.
fn push_digits(out: &mut Vec<u8>, n: u128)
    ensures
        final(out)@ == old(out)@ + digits_text(n as nat),
    decreases n,
{
    if n >= 10 {
        push_digits(out, n / 10);
    }
    out.push(0x30 + (n % 10) as u8);
    assert(out@ =~= old(out)@ + digits_text(n as nat));
}

/// Writes a whole number in decimal digits.
pub fn integer_text(n: u64) -> (text: Vec<u8>)
    ensures
        text@ == digits_text(n as nat),
{
    let mut text: Vec<u8> = Vec::new();
    push_digits(&mut text, n as u128);
    text
}

/// Writes a balance as it is reported; see [`decimal_text`].
pub fn balance_text(b: i128) -> (text: Vec<u8>)
    ensures
        text@ == decimal_text(b as int),
{
    let quotient: i128 = b / 100;
    let t: i128 = if b % 100 < 0 {
        quotient - 1
    } else {
        quotient
    };
    assert(t == (b as int) / 100);
    let m: u128 = if t < 0 {
        (-t) as u128
    } else {
        t as u128
    };
    let mut text: Vec<u8> = Vec::new();
    if t < 0 {
        text.push(0x2d);
    }
    push_digits(&mut text, m / 10000);
    text.push(0x2e);
    let f: u128 = m % 10000;
    text.push(0x30 + (f / 1000) as u8);
    if f % 1000 != 0 {
        text.push(0x30 + (f / 100 % 10) as u8);
        if f % 100 != 0 {
            text.push(0x30 + (f / 10 % 10) as u8);
            if f % 10 != 0 {
                text.push(0x30 + (f % 10) as u8);
            }
        }
    }
    proof {
        assert(text@ =~= decimal_text(b as int));
    }
    text
}

} // verus!
