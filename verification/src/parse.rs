//! Reading the parts of a timestamp: date and time, fraction, offset.
use crate::ascii::{COLON, DOT, LETTER_T, LETTER_Z, MINUS, NINE, PLUS, ZERO};
use crate::calendar;
use crate::calendar::{jsondec_unixtime, SECONDS_MAX, SECONDS_MIN};
use crate::digits;
use crate::digits::{atoi_consume, decode_tsdigits};
use crate::error::TimestampError;
use vstd::prelude::*;

verus! {

/// A date and a time of day, as they are written.
pub struct CivilTime {
    pub year: int,
    pub month: int,
    pub day: int,
    pub hour: int,
    pub minute: int,
    pub second: int,
}

impl CivilTime {
    /// Each field lies in its own range. The day is not held against the length
    /// of the month.
    pub open spec fn in_range(self) -> bool {
        &&& 1 <= self.year <= 9999
        &&& 1 <= self.month <= 12
        &&& 1 <= self.day <= 31
        &&& 0 <= self.hour <= 23
        &&& 0 <= self.minute <= 59
        &&& 0 <= self.second <= 59
    }

    /// The Unix second, with the fields taken as UTC.
    pub open spec fn unix_seconds(self) -> int {
        calendar::unix_seconds(
            self.year,
            self.month,
            self.day,
            self.hour,
            self.minute,
            self.second,
        )
    }
}

/// A text begins with `YYYY-MM-DDTHH:mm:ss`, a letter standing for a digit.
pub open spec fn has_civil_time_layout(s: Seq<u8>) -> bool {
    &&& s.len() >= 19
    &&& digits::all_digits(s.subrange(0, 4))
    &&& s[4] == MINUS
    &&& digits::all_digits(s.subrange(5, 7))
    &&& s[7] == MINUS
    &&& digits::all_digits(s.subrange(8, 10))
    &&& s[10] == LETTER_T
    &&& digits::all_digits(s.subrange(11, 13))
    &&& s[13] == COLON
    &&& digits::all_digits(s.subrange(14, 16))
    &&& s[16] == COLON
    &&& digits::all_digits(s.subrange(17, 19))
}

/// The fields of `YYYY-MM-DDTHH:mm:ss`.
pub open spec fn civil_time(s: Seq<u8>) -> CivilTime {
    CivilTime {
        year: digits::value(s.subrange(0, 4)),
        month: digits::value(s.subrange(5, 7)),
        day: digits::value(s.subrange(8, 10)),
        hour: digits::value(s.subrange(11, 13)),
        minute: digits::value(s.subrange(14, 16)),
        second: digits::value(s.subrange(17, 19)),
    }
}

/// A text begins with a date and a time of day.
pub open spec fn is_civil_time(s: Seq<u8>) -> bool {
    has_civil_time_layout(s) && civil_time(s).in_range()
}

pub open spec fn is_dot(s: Seq<u8>) -> bool {
    s.len() > 0 && s[0] == DOT
}

/// The digits after the dot that a text begins with.
pub open spec fn fraction_digits(s: Seq<u8>) -> Seq<u8> {
    s.skip(1).take(digits::digit_run(s.skip(1)) as int)
}

/// A text begins with no dot, or with one and 3, 6 or 9 digits.
pub open spec fn is_fraction(s: Seq<u8>) -> bool {
    is_dot(s) ==> {
        let n = digits::digit_run(s.skip(1));
        n == 3 || n == 6 || n == 9
    }
}

/// How many bytes the fraction takes, its dot counted.
pub open spec fn fraction_len(s: Seq<u8>) -> int {
    if is_dot(s) {
        1int + digits::digit_run(s.skip(1))
    } else {
        0
    }
}

/// The fraction in nanoseconds.
pub open spec fn fraction_nanos(s: Seq<u8>) -> int {
    if is_dot(s) {
        digits::value(fraction_digits(s)) * digits::pow10((9 - fraction_digits(s).len()) as nat)
    } else {
        0
    }
}

/// A sign is followed by `HH:MM`, at most 23 hours and 59 minutes, and nothing else.
pub open spec fn is_offset(s: Seq<u8>) -> bool {
    &&& s.len() == 6
    &&& digits::all_digits(s.subrange(1, 3))
    &&& s[3] == COLON
    &&& digits::all_digits(s.subrange(4, 6))
    &&& digits::value(s.subrange(1, 3)) <= 23
    &&& digits::value(s.subrange(4, 6)) <= 59
}

/// The seconds that an offset stands for, its sign left out.
pub open spec fn offset_seconds(s: Seq<u8>) -> int {
    digits::value(s.subrange(1, 3)) * 3600 + digits::value(s.subrange(4, 6)) * 60
}

/// What a time zone, `Z` or an offset, adds to the local second to give the UTC
/// second. Local time is UTC plus the offset, so a plus sign takes away.
pub open spec fn zone_shift(s: Seq<u8>) -> Option<int> {
    if s == seq![LETTER_Z] {
        Some(0)
    } else if s.len() > 0 && s[0] == PLUS && is_offset(s) {
        Some(-offset_seconds(s))
    } else if s.len() > 0 && s[0] == MINUS && is_offset(s) {
        Some(offset_seconds(s))
    } else {
        None
    }
}

/// What a text stands for: seconds since 1970-01-01T00:00:00Z, and nanoseconds.
pub open spec fn parsed(s: Seq<u8>) -> Result<(int, int), TimestampError> {
    let rest = s.skip(19);
    let zone = rest.skip(fraction_len(rest));
    if !is_civil_time(s) || !is_fraction(rest) || zone_shift(zone) is None {
        Err(TimestampError::InvalidFormat)
    } else {
        let seconds = civil_time(s).unix_seconds() + zone_shift(zone)->0;
        if SECONDS_MIN <= seconds <= SECONDS_MAX {
            Ok((seconds, fraction_nanos(rest)))
        } else {
            Err(TimestampError::OutOfRange)
        }
    }
}

/// The fields of a date and time of day never leave the years 1 to 9999.
pub proof fn lemma_civil_time_in_range(t: CivilTime)
    requires
        t.in_range(),
    ensures
        SECONDS_MIN <= t.unix_seconds() <= SECONDS_MAX,
        -719_162 <= calendar::epoch_days(t.year, t.month, t.day) <= 2_932_896,
{
    calendar::lemma_epoch_days_range(t.year, t.month, t.day);
}

proof fn lemma_short_number(s: Seq<u8>)
    requires
        s.len() <= 9,
    ensures
        digits::leading_number(s) <= i32::MAX,
{
    let body = digits::after_sign(s);
    let run = body.take(digits::digit_run(body) as int);
    digits::lemma_digit_run(body);
    digits::lemma_value_bound(run);
    reveal_with_fuel(digits::pow10, 10);
}

/// What a field of fewer than ten digits asks of the text from position `at` on.
proof fn lemma_field_at(s: Seq<u8>, at: int, width: int, after: Option<u8>)
    requires
        0 <= at <= s.len(),
        0 < width <= 9,
    ensures
        digits::is_field(s.skip(at), width, after) <==> {
            &&& at + width <= s.len()
            &&& digits::all_digits(s.subrange(at, at + width))
            &&& after matches Some(c) ==> at + width < s.len() && s[at + width] == c
        },
        at + width <= s.len() ==> s.skip(at).take(width) == s.subrange(at, at + width),
        at + width <= s.len() ==> s.skip(at).skip(width) == s.skip(at + width),
        at + width < s.len() ==> s.skip(at).skip(width + 1) == s.skip(at + width + 1),
        at + width <= s.len() ==> digits::leading_number(s.skip(at).take(width)) <= i32::MAX,
{
    if at + width <= s.len() {
        assert(s.skip(at).take(width) =~= s.subrange(at, at + width));
        assert(s.skip(at).skip(width) =~= s.skip(at + width));
        lemma_short_number(s.skip(at).take(width));
    }
    if at + width < s.len() {
        assert(s.skip(at).skip(width + 1) =~= s.skip(at + width + 1));
    }
}

/// Reads `YYYY-MM-DDTHH:mm:ss` and moves past it. The result is the Unix second,
/// with the fields taken as UTC.
pub fn decode_seconds(ascii: &mut &[u8]) -> (r: Result<i64, TimestampError>)
    ensures
        r is Ok <==> is_civil_time(old(ascii)@),
        r matches Ok(v) ==> v == civil_time(old(ascii)@).unix_seconds() && SECONDS_MIN <= v
            <= SECONDS_MAX,
        r is Ok ==> final(ascii)@ == old(ascii)@.skip(19),
        r matches Err(e) ==> e == TimestampError::InvalidFormat && *final(ascii) == *old(ascii),
{
    let mut rest: &[u8] = *ascii;
    let ghost s = ascii@;
    proof {
        assert(s.skip(0) =~= s);
        lemma_field_at(s, 0, 4, Some(MINUS));
    }
    let year: i32 = match decode_tsdigits(&mut rest, 4, Some(MINUS)) {
        Ok(v) => v,
        Err(e) => {
            return Err(e);
        },
    };
    proof {
        lemma_field_at(s, 5, 2, Some(MINUS));
    }
    let mon: i32 = match decode_tsdigits(&mut rest, 2, Some(MINUS)) {
        Ok(v) => v,
        Err(e) => {
            return Err(e);
        },
    };
    proof {
        lemma_field_at(s, 8, 2, Some(LETTER_T));
    }
    let day: i32 = match decode_tsdigits(&mut rest, 2, Some(LETTER_T)) {
        Ok(v) => v,
        Err(e) => {
            return Err(e);
        },
    };
    proof {
        lemma_field_at(s, 11, 2, Some(COLON));
    }
    let hour: i32 = match decode_tsdigits(&mut rest, 2, Some(COLON)) {
        Ok(v) => v,
        Err(e) => {
            return Err(e);
        },
    };
    proof {
        lemma_field_at(s, 14, 2, Some(COLON));
    }
    let min: i32 = match decode_tsdigits(&mut rest, 2, Some(COLON)) {
        Ok(v) => v,
        Err(e) => {
            return Err(e);
        },
    };
    proof {
        lemma_field_at(s, 17, 2, None);
    }
    let sec: i32 = match decode_tsdigits(&mut rest, 2, None) {
        Ok(v) => v,
        Err(e) => {
            return Err(e);
        },
    };
    proof {
        assert(has_civil_time_layout(s));
        digits::lemma_value_bound(s.subrange(0, 4));
        digits::lemma_value_bound(s.subrange(11, 13));
        digits::lemma_value_bound(s.subrange(14, 16));
        digits::lemma_value_bound(s.subrange(17, 19));
        reveal_with_fuel(digits::pow10, 5);
    }
    if year < 1 || mon < 1 || mon > 12 || day < 1 || day > 31 || hour > 23 || min > 59 || sec > 59 {
        return Err(TimestampError::InvalidFormat);
    }
    proof {
        lemma_civil_time_in_range(civil_time(s));
    }
    *ascii = rest;
    Ok(jsondec_unixtime(year, mon, day, hour, min, sec))
}

/// Counts the digits that a text begins with.
fn count_digits(s: &[u8]) -> (n: usize)
    ensures
        n == digits::digit_run(s@),
{
    let mut n: usize = 0;
    while n < s.len() && ZERO <= s[n] && s[n] <= NINE
        invariant
            n <= s@.len(),
            digits::all_digits(s@.take(n as int)),
        decreases s.len() - n,
    {
        assert(s@.take(n + 1) =~= s@.take(n as int).push(s@[n as int]));
        n = n + 1;
    }
    proof {
        digits::lemma_digit_run_is(s@, n as nat);
    }
    n
}

/// Reads a fraction of a second, a dot and 3, 6 or 9 digits, and moves past it.
/// The result is in nanoseconds, and zero where no dot stands.
pub fn decode_nanos(ascii: &mut &[u8]) -> (r: Result<i32, TimestampError>)
    requires
        old(ascii)@.len() > 0,
    ensures
        r is Ok <==> is_fraction(old(ascii)@),
        r matches Ok(v) ==> v == fraction_nanos(old(ascii)@) && 0 <= v < 1_000_000_000,
        r is Ok ==> final(ascii)@ == old(ascii)@.skip(fraction_len(old(ascii)@)),
        r matches Err(e) ==> e == TimestampError::InvalidFormat && *final(ascii) == *old(ascii),
{
    let text: &[u8] = *ascii;
    if text[0] != DOT {
        assert(text@.skip(0) =~= text@);
        return Ok(0);
    }
    let remaining: &[u8] = vstd::slice::slice_subrange(text, 1, text.len());
    assert(remaining@ =~= text@.skip(1));
    let count: usize = count_digits(remaining);
    if count != 3 && count != 6 && count != 9 {
        return Err(TimestampError::InvalidFormat);
    }
    let ghost run = fraction_digits(text@);
    proof {
        digits::lemma_digit_run(remaining@);
        digits::lemma_value_bound(run);
        digits::lemma_digit_run_is(run, run.len());
        lemma_short_number(run);
        assert(digits::is_digit(run[0]));
        assert(run.take(run.len() as int) =~= run);
    }
    let mut number: &[u8] = vstd::slice::slice_subrange(remaining, 0, count);
    assert(number@ =~= run);
    let mut nanos: i32 = atoi_consume(&mut number);
    let mut exp_lg10: usize = 9 - count;
    while exp_lg10 > 0
        invariant
            0 <= exp_lg10 <= 9 - count,
            0 <= nanos < digits::pow10((9 - exp_lg10) as nat),
            nanos * digits::pow10(exp_lg10 as nat) == fraction_nanos(text@),
            count == 3 || count == 6 || count == 9,
        decreases exp_lg10,
    {
        proof {
            let tail = digits::pow10((exp_lg10 - 1) as nat);
            assert(nanos * (10 * tail) == (nanos * 10) * tail) by (nonlinear_arith);
            reveal_with_fuel(digits::pow10, 10);
        }
        exp_lg10 = exp_lg10 - 1;
        nanos = nanos * 10;
    }
    proof {
        reveal_with_fuel(digits::pow10, 10);
    }
    *ascii = vstd::slice::slice_subrange(remaining, count, remaining.len());
    assert(ascii@ =~= text@.skip(fraction_len(text@)));
    Ok(nanos)
}

proof fn lemma_two_digits(s: Seq<u8>)
    requires
        s.len() == 2,
    ensures
        digits::value(s) == 10 * (s[0] - ZERO) + (s[1] - ZERO),
{
    reveal_with_fuel(digits::value, 3);
    assert(s.drop_last()[0] == s[0]);
}

/// Reads an offset from UTC, a sign and `HH:MM`. The result is what must be added
/// to the local second to give the UTC second: `+05:00` gives -18000.
pub fn decode_offset(ascii: &[u8], sign: u8) -> (r: Result<i64, TimestampError>)
    ensures
        r is Ok <==> is_offset(ascii@),
        r matches Ok(v) ==> v == (if sign == PLUS {
            -offset_seconds(ascii@)
        } else {
            offset_seconds(ascii@)
        }) && -86_400 < v < 86_400,
        r matches Err(e) ==> e == TimestampError::InvalidFormat,
{
    if ascii.len() != 6 || ascii[3] != COLON {
        return Err(TimestampError::InvalidFormat);
    }
    let ghost hh = ascii@.subrange(1, 3);
    let ghost mm = ascii@.subrange(4, 6);
    if ascii[1] < ZERO || ascii[1] > NINE || ascii[2] < ZERO || ascii[2] > NINE {
        assert(!digits::is_digit(hh[0]) || !digits::is_digit(hh[1]));
        return Err(TimestampError::InvalidFormat);
    }
    if ascii[4] < ZERO || ascii[4] > NINE || ascii[5] < ZERO || ascii[5] > NINE {
        assert(!digits::is_digit(mm[0]) || !digits::is_digit(mm[1]));
        return Err(TimestampError::InvalidFormat);
    }
    proof {
        lemma_two_digits(hh);
        lemma_two_digits(mm);
    }
    let hours: i64 = (ascii[1] - ZERO) as i64 * 10 + (ascii[2] - ZERO) as i64;
    let mins: i64 = (ascii[4] - ZERO) as i64 * 10 + (ascii[5] - ZERO) as i64;
    if hours > 23 || mins > 59 {
        return Err(TimestampError::InvalidFormat);
    }
    let magnitude: i64 = hours * 3600 + mins * 60;
    Ok(
        if sign == PLUS {
            -magnitude
        } else {
            magnitude
        },
    )
}

}
