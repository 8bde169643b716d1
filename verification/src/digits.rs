//! Decimal numbers in ASCII.
use crate::ascii::{MINUS, NINE, PLUS, ZERO};
use crate::error::TimestampError;
use vstd::prelude::*;

verus! {

pub open spec fn is_digit(b: u8) -> bool {
    ZERO <= b <= NINE
}

pub open spec fn all_digits(s: Seq<u8>) -> bool {
    forall|i: int| 0 <= i < s.len() ==> is_digit(#[trigger] s[i])
}

/// The number that a row of digits stands for.
pub open spec fn value(s: Seq<u8>) -> int
    decreases s.len(),
{
    if s.len() == 0 {
        0
    } else {
        10 * value(s.drop_last()) + (s.last() - ZERO)
    }
}

/// The last `width` decimal digits of a number, with leading zeros.
pub open spec fn decimal(v: int, width: nat) -> Seq<u8>
    decreases width,
{
    if width == 0 {
        Seq::empty()
    } else {
        decimal(v / 10, (width - 1) as nat).push((ZERO + v % 10) as u8)
    }
}

/// The number of digits that a text begins with.
pub open spec fn digit_run(s: Seq<u8>) -> nat
    decreases s.len(),
{
    if s.len() > 0 && is_digit(s[0]) {
        1 + digit_run(s.skip(1))
    } else {
        0
    }
}

pub open spec fn pow10(n: nat) -> int
    decreases n,
{
    if n == 0 {
        1
    } else {
        10 * pow10((n - 1) as nat)
    }
}

/// The run of digits holds digits only, and ends at the first other byte.
pub proof fn lemma_digit_run(s: Seq<u8>)
    ensures
        digit_run(s) <= s.len(),
        all_digits(s.take(digit_run(s) as int)),
        digit_run(s) < s.len() ==> !is_digit(s[digit_run(s) as int]),
    decreases s.len(),
{
    if s.len() > 0 && is_digit(s[0]) {
        let tail = s.skip(1);
        lemma_digit_run(tail);
        let n = digit_run(s) as int;
        assert forall|i: int| 0 <= i < n implies is_digit(#[trigger] s.take(n)[i]) by {
            if i > 0 {
                assert(tail.take(n - 1)[i - 1] == s[i]);
            }
        }
    }
}

/// Digits up to a byte that is none are the run of digits.
pub proof fn lemma_digit_run_is(s: Seq<u8>, n: nat)
    requires
        n <= s.len(),
        all_digits(s.take(n as int)),
        n < s.len() ==> !is_digit(s[n as int]),
    ensures
        digit_run(s) == n,
{
    lemma_digit_run(s);
    let m = digit_run(s);
    if m < n {
        assert(is_digit(s.take(n as int)[m as int]));
    } else if n < m {
        assert(is_digit(s.take(m as int)[n as int]));
    }
}

pub proof fn lemma_value_bound(s: Seq<u8>)
    requires
        all_digits(s),
    ensures
        0 <= value(s) < pow10(s.len()),
    decreases s.len(),
{
    if s.len() > 0 {
        assert(all_digits(s.drop_last())) by {
            assert(forall|i: int| 0 <= i < s.len() - 1 ==> s.drop_last()[i] == s[i]);
        }
        lemma_value_bound(s.drop_last());
        assert(is_digit(s[s.len() - 1]));
    }
}

/// The first digits of a number stand for no more than the whole.
pub proof fn lemma_value_prefix(s: Seq<u8>, n: nat)
    requires
        all_digits(s),
        n <= s.len(),
    ensures
        0 <= value(s.take(n as int)) <= value(s),
    decreases s.len(),
{
    if n == s.len() {
        assert(s.take(n as int) =~= s);
        lemma_value_bound(s);
    } else {
        assert(all_digits(s.drop_last())) by {
            assert(forall|i: int| 0 <= i < s.len() - 1 ==> s.drop_last()[i] == s[i]);
        }
        lemma_value_prefix(s.drop_last(), n);
        assert(s.drop_last().take(n as int) =~= s.take(n as int));
        assert(is_digit(s[s.len() - 1]));
    }
}

/// Writing a number and reading it gives it back.
pub proof fn lemma_value_of_decimal(v: int, width: nat)
    requires
        0 <= v < pow10(width),
    ensures
        decimal(v, width).len() == width,
        all_digits(decimal(v, width)),
        value(decimal(v, width)) == v,
    decreases width,
{
    if width > 0 {
        let init = decimal(v / 10, (width - 1) as nat);
        lemma_value_of_decimal(v / 10, (width - 1) as nat);
        assert(decimal(v, width).drop_last() =~= init);
        assert forall|i: int| 0 <= i < width implies is_digit(#[trigger] decimal(v, width)[i]) by {
            if i < width - 1 {
                assert(is_digit(init[i]));
            }
        }
    }
}

/// Reading a row of digits and writing it in the same width gives it back.
pub proof fn lemma_decimal_of_value(s: Seq<u8>)
    requires
        all_digits(s),
    ensures
        decimal(value(s), s.len()) == s,
    decreases s.len(),
{
    if s.len() > 0 {
        let init = s.drop_last();
        assert(all_digits(init)) by {
            assert(forall|i: int| 0 <= i < s.len() - 1 ==> init[i] == s[i]);
        }
        lemma_decimal_of_value(init);
        assert(is_digit(s[s.len() - 1]));
        assert(value(s) / 10 == value(init));
        assert(value(s) % 10 == s.last() - ZERO);
        assert(decimal(value(s), s.len()) =~= init.push(s.last()));
        assert(init.push(s.last()) =~= s);
    } else {
        assert(decimal(value(s), s.len()) =~= s);
    }
}

pub proof fn lemma_decimal_len(v: int, width: nat)
    ensures
        decimal(v, width).len() == width,
        all_digits(decimal(v, width)),
    decreases width,
{
    if width > 0 {
        let init = decimal(v / 10, (width - 1) as nat);
        lemma_decimal_len(v / 10, (width - 1) as nat);
        assert forall|i: int| 0 <= i < width implies is_digit(#[trigger] decimal(v, width)[i]) by {
            if i < width - 1 {
                assert(is_digit(init[i]));
            }
        }
    }
}

pub proof fn lemma_pow10_positive(n: nat)
    ensures
        pow10(n) > 0,
    decreases n,
{
    if n > 0 {
        lemma_pow10_positive((n - 1) as nat);
    }
}

/// The last digits of a number can be cut off and written on their own.
pub proof fn lemma_decimal_split(v: int, high: nat, low: nat)
    requires
        0 <= v,
    ensures
        decimal(v, high + low) == decimal(v / pow10(low), high) + decimal(v, low),
    decreases low,
{
    if low == 0 {
        assert(decimal(v, high + low) =~= decimal(v / pow10(low), high) + decimal(v, low));
    } else {
        let less = (low - 1) as nat;
        lemma_decimal_split(v / 10, high, less);
        lemma_pow10_positive(less);
        vstd::arithmetic::div_mod::lemma_div_denominator(v, 10, pow10(less));
        assert(high + low - 1 == high + less);
        assert(decimal(v, high + low) =~= decimal(v / pow10(low), high) + decimal(v, low));
    }
}

/// The last digits of a number do not depend on the digits before them.
pub proof fn lemma_decimal_mod(v: int, width: nat, kept: nat)
    requires
        0 <= v,
        width <= kept,
    ensures
        decimal(v % pow10(kept), width) == decimal(v, width),
    decreases width,
{
    if width > 0 {
        let less = (kept - 1) as nat;
        lemma_pow10_positive(less);
        vstd::arithmetic::div_mod::lemma_mod_breakdown(v, 10, pow10(less));
        lemma_decimal_mod(v / 10, (width - 1) as nat, less);
    }
}

pub proof fn lemma_decimal_2(v: int)
    ensures
        decimal(v, 2) == seq![(ZERO + v / 10 % 10) as u8, (ZERO + v % 10) as u8],
{
    reveal_with_fuel(decimal, 3);
    assert(decimal(v, 2) =~= seq![(ZERO + v / 10 % 10) as u8, (ZERO + v % 10) as u8]);
}

pub open spec fn is_sign(b: u8) -> bool {
    b == MINUS || b == PLUS
}

/// A text without the sign that it may begin with.
pub open spec fn after_sign(s: Seq<u8>) -> Seq<u8> {
    if s.len() > 0 && is_sign(s[0]) {
        s.skip(1)
    } else {
        s
    }
}

/// The number that a text begins with, signed or not.
pub open spec fn leading_number(s: Seq<u8>) -> int {
    let body = after_sign(s);
    let magnitude = value(body.take(digit_run(body) as int));
    if s.len() > 0 && s[0] == MINUS {
        -magnitude
    } else {
        magnitude
    }
}

/// Reads the number that a text begins with, with an optional sign, and moves
/// past it. A text that begins with no digits stands for zero.
pub fn atoi_consume(ascii: &mut &[u8]) -> (r: i32)
    requires
        old(ascii)@.len() > 0,
        i32::MIN <= leading_number(old(ascii)@) <= i32::MAX,
    ensures
        r == leading_number(old(ascii)@),
        final(ascii)@ == after_sign(old(ascii)@).skip(
            digit_run(after_sign(old(ascii)@)) as int,
        ),
{
    let text: &[u8] = *ascii;
    let neg: bool = text[0] == MINUS;
    let s: &[u8] = if text[0] == MINUS || text[0] == PLUS {
        vstd::slice::slice_subrange(text, 1, text.len())
    } else {
        text
    };
    assert(s@ =~= after_sign(text@));
    let ghost run = digit_run(s@) as int;
    let ghost digits = s@.take(run);
    proof {
        lemma_digit_run(s@);
        assert(digits.take(0) =~= Seq::<u8>::empty());
    }
    let mut n: i32 = 0;
    let mut idx: usize = 0;
    // The number is built below zero, where one more value fits.
    while idx < s.len() && ZERO <= s[idx] && s[idx] <= NINE
        invariant
            0 <= idx <= run <= s@.len(),
            run == digit_run(s@),
            digits == s@.take(run),
            all_digits(digits),
            run < s@.len() ==> !is_digit(s@[run]),
            -value(digits) >= i32::MIN,
            n == -value(digits.take(idx as int)),
        decreases s.len() - idx,
    {
        proof {
            assert(idx < run);
            lemma_value_prefix(digits, (idx + 1) as nat);
            assert(digits.take(idx + 1).drop_last() =~= digits.take(idx as int));
            assert(digits[idx as int] == s@[idx as int]);
        }
        n = n * 10 - (s[idx] - ZERO) as i32;
        idx = idx + 1;
    }
    proof {
        if idx < run {
            assert(is_digit(digits[idx as int]));
        }
        assert(digits.take(run) =~= digits);
    }
    *ascii = vstd::slice::slice_subrange(s, idx, s.len());
    assert(ascii@ =~= s@.skip(run));
    if neg {
        n
    } else {
        -n
    }
}

/// A text begins with `digits` digits and then, where `after` asks for it, a
/// delimiter.
pub open spec fn is_field(s: Seq<u8>, digits: int, after: Option<u8>) -> bool {
    &&& digits <= s.len()
    &&& all_digits(s.take(digits))
    &&& after matches Some(c) ==> digits < s.len() && s[digits] == c
}

/// Reads a field of `digits` digits and the delimiter that must follow it, if
/// any, and moves past both. A sign is not a digit.
pub fn decode_tsdigits(ascii: &mut &[u8], digits: usize, after: Option<u8>) -> (r: Result<
    i32,
    TimestampError,
>)
    requires
        digits > 0,
        digits <= old(ascii)@.len() ==> leading_number(old(ascii)@.take(digits as int)) <= i32::MAX,
    ensures
        r is Ok <==> is_field(old(ascii)@, digits as int, after),
        r matches Ok(v) ==> v == value(old(ascii)@.take(digits as int)),
        r is Ok ==> final(ascii)@ == old(ascii)@.skip(
            digits + (if after is Some { 1int } else { 0 }),
        ),
        r matches Err(e) ==> e == TimestampError::InvalidFormat && *final(ascii) == *old(ascii),
{
    let text: &[u8] = *ascii;
    if text.len() < digits {
        return Err(TimestampError::InvalidFormat);
    }
    if let Some(c) = after {
        if text.len() == digits || text[digits] != c {
            return Err(TimestampError::InvalidFormat);
        }
    }
    let mut s: &[u8] = vstd::slice::slice_subrange(text, 0, digits);
    let ghost field = text@.take(digits as int);
    assert(s@ =~= field);
    if text[0] == MINUS || text[0] == PLUS {
        assert(!is_digit(field[0]));
        return Err(TimestampError::InvalidFormat);
    }
    proof {
        lemma_digit_run(field);
        lemma_value_bound(field.take(digit_run(field) as int));
    }
    let i: i32 = atoi_consume(&mut s);
    if !s.is_empty() {
        assert(!is_digit(field[digit_run(field) as int]));
        return Err(TimestampError::InvalidFormat);
    }
    assert(field.take(digit_run(field) as int) =~= field);
    let next: usize = if after.is_some() { digits + 1 } else { digits };
    *ascii = vstd::slice::slice_subrange(text, next, text.len());
    assert(ascii@ =~= text@.skip(next as int));
    Ok(i)
}

}
