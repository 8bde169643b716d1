//! What is written, byte by byte.
use crate::ascii;
use crate::ascii::ascii_str;
use crate::buffer::Buffer;
use crate::calendar;
use crate::digits;
use crate::text;
use crate::timestamp::Timestamp;
use vstd::arithmetic::power::pow;
use vstd::prelude::*;

verus! {

/// Digit `i` of a number that is written in `width` digits counts its power of ten, the highest
/// first.
pub proof fn law_decimal_digits(v: int, width: nat, i: int)
    requires
        0 <= v,
        0 <= i < width,
    ensures
        digits::decimal(v, width).len() == width,
        digits::decimal(v, width)[i] == 0x30 + v / pow(10, (width - 1 - i) as nat) % 10,
    decreases width,
{
    digits::lemma_decimal_len(v, width);
    if i == width - 1 {
        vstd::arithmetic::power::lemma_pow0(10);
    } else {
        let high = (width - 2 - i) as nat;
        law_decimal_digits(v / 10, (width - 1) as nat, i);
        digits::lemma_decimal_len(v / 10, (width - 1) as nat);
        vstd::arithmetic::power::lemma_pow_positive(10, high);
        assert(pow(10, high + 1) == 10 * pow(10, high)) by {
            reveal(pow);
        }
        vstd::arithmetic::div_mod::lemma_div_denominator(v, 10, pow(10, high));
    }
}

/// Two digits are a number below 100, the tens first.
proof fn lemma_two_written(v: int, s: Seq<u8>, at: int)
    requires
        0 <= v < 100,
        0 <= at,
        at + 2 <= s.len(),
        s.subrange(at, at + 2) == digits::decimal(v, 2),
    ensures
        0x30 <= s[at] <= 0x39,
        0x30 <= s[at + 1] <= 0x39,
        10 * (s[at] - 0x30) + (s[at + 1] - 0x30) == v,
{
    digits::lemma_decimal_2(v);
    assert(s[at] == s.subrange(at, at + 2)[0] && s[at + 1] == s.subrange(at, at + 2)[1]);
}

proof fn lemma_three_written(v: int, s: Seq<u8>, at: int)
    requires
        0 <= v < 1_000,
        0 <= at,
        at + 3 <= s.len(),
        s.subrange(at, at + 3) == digits::decimal(v, 3),
    ensures
        0x30 <= s[at] <= 0x39,
        0x30 <= s[at + 1] <= 0x39,
        0x30 <= s[at + 2] <= 0x39,
        100 * (s[at] - 0x30) + 10 * (s[at + 1] - 0x30) + (s[at + 2] - 0x30) == v,
{
    let t = s.subrange(at, at + 3);
    assert(s[at] == t[0] && s[at + 1] == t[1] && s[at + 2] == t[2]);
    reveal_with_fuel(digits::decimal, 4);
}

proof fn lemma_four_written(v: int, s: Seq<u8>)
    requires
        0 <= v < 10_000,
        4 <= s.len(),
        s.subrange(0, 4) == digits::decimal(v, 4),
    ensures
        0x30 <= s[0] <= 0x39,
        0x30 <= s[1] <= 0x39,
        0x30 <= s[2] <= 0x39,
        0x30 <= s[3] <= 0x39,
        1_000 * (s[0] - 0x30) + 100 * (s[1] - 0x30) + 10 * (s[2] - 0x30) + (s[3] - 0x30) == v,
{
    let t = s.subrange(0, 4);
    assert(s[0] == t[0] && s[1] == t[1] && s[2] == t[2] && s[3] == t[3]);
    reveal_with_fuel(digits::decimal, 5);
}

/// A number of `3 * k` digits is written as one of three digits fewer and its last three.
proof fn lemma_last_three(v: int, width: nat)
    requires
        0 <= v,
        3 <= width,
    ensures
        digits::decimal(v, width) == digits::decimal(v / 1_000, (width - 3) as nat)
            + digits::decimal(v % 1_000, 3),
{
    assert(digits::pow10(3) == 1_000) by {
        reveal_with_fuel(digits::pow10, 4);
    }
    digits::lemma_decimal_split(v, (width - 3) as nat, 3);
    digits::lemma_decimal_mod(v, 3, 3);
}

/// The fraction of a second is nothing where it is zero. Otherwise it is a dot and groups of three
/// digits, the first for milliseconds, the second for microseconds and the third for
/// nanoseconds, of which those at the end that are zero are left out.
pub proof fn law_fraction_text(nanos: int)
    requires
        0 <= nanos < 1_000_000_000,
    ensures
        ({
            let s = text::fraction_text(nanos);
            let group = |i: int| 100 * (s[i] - 0x30) + 10 * (s[i + 1] - 0x30) + (s[i + 2] - 0x30);
            &&& s.len() == (if nanos == 0 {
                0int
            } else if nanos % 1_000_000 == 0 {
                4
            } else if nanos % 1_000 == 0 {
                7
            } else {
                10
            })
            &&& s.len() > 0 ==> s[0] == 0x2E
            &&& forall|i: int| 1 <= i < s.len() ==> 0x30 <= #[trigger] s[i] <= 0x39
            &&& s.len() > 0 ==> group(1) == nanos / 1_000_000
            &&& s.len() > 4 ==> group(4) == nanos / 1_000 % 1_000
            &&& s.len() > 7 ==> group(7) == nanos % 1_000
        }),
{
    let s = text::fraction_text(nanos);
    let millis = nanos / 1_000_000;
    let micros = nanos / 1_000;
    digits::lemma_decimal_len(millis, 3);
    digits::lemma_decimal_len(micros, 6);
    digits::lemma_decimal_len(nanos, 9);
    assert forall|i: int| 1 <= i < s.len() implies 0x30 <= #[trigger] s[i] <= 0x39 by {
        let written = s.skip(1);
        assert(written =~= digits::decimal(millis, 3) || written =~= digits::decimal(micros, 6)
            || written =~= digits::decimal(nanos, 9));
        assert(digits::is_digit(written[i - 1]));
    }
    if nanos != 0 {
        lemma_last_three(nanos, 9);
        lemma_last_three(micros, 6);
        assert(micros / 1_000 == millis);
        digits::lemma_decimal_len(micros % 1_000, 3);
        digits::lemma_decimal_len(nanos % 1_000, 3);
        assert(s.subrange(1, 4) =~= digits::decimal(millis, 3));
        lemma_three_written(millis, s, 1);
        if s.len() > 4 {
            assert(s.subrange(4, 7) =~= digits::decimal(micros % 1_000, 3));
            lemma_three_written(micros % 1_000, s, 4);
        }
        if s.len() > 7 {
            assert(s.subrange(7, 10) =~= digits::decimal(nanos % 1_000, 3));
            lemma_three_written(nanos % 1_000, s, 7);
        }
    }
}

/// The text of a timestamp is `YYYY-MM-DDTHH:mm:ss`, the fraction and `Z`: the year stands in the
/// bytes 0 to 3, the month in 5 and 6, the day in 8 and 9, the hour in 11 and 12, the minute in
/// 14 and 15, the second in 17 and 18. They are a date that occurs in the calendar and a time of
/// day, and together the Unix second.
pub proof fn law_timestamp_text(seconds: int, nanos: int)
    requires
        -62_135_596_800 <= seconds <= 253_402_300_799,
        0 <= nanos < 1_000_000_000,
    ensures
        ({
            let s = text::timestamp_text(seconds, nanos);
            let d = |i: int| s[i] - 0x30;
            let digit = |i: int| 0x30 <= s[i] <= 0x39;
            let year = 1_000 * d(0) + 100 * d(1) + 10 * d(2) + d(3);
            let month = 10 * d(5) + d(6);
            let day = 10 * d(8) + d(9);
            let hour = 10 * d(11) + d(12);
            let minute = 10 * d(14) + d(15);
            let second = 10 * d(17) + d(18);
            &&& s.len() >= 20
            &&& digit(0) && digit(1) && digit(2) && digit(3) && s[4] == 0x2D
            &&& digit(5) && digit(6) && s[7] == 0x2D
            &&& digit(8) && digit(9) && s[10] == 0x54
            &&& digit(11) && digit(12) && s[13] == 0x3A
            &&& digit(14) && digit(15) && s[16] == 0x3A
            &&& digit(17) && digit(18)
            &&& 1 <= year <= 9999
            &&& 1 <= month <= 12
            &&& 1 <= day <= (if month == 2 {
                if year % 4 == 0 && (year % 100 != 0 || year % 400 == 0) {
                    29int
                } else {
                    28
                }
            } else if month == 4 || month == 6 || month == 9 || month == 11 {
                30
            } else {
                31
            })
            &&& hour <= 23 && minute <= 59 && second <= 59
            &&& calendar::epoch_days(year, month, day) * 86_400 + hour * 3_600 + minute * 60 + second
                == seconds
            &&& s.skip(19) == text::fraction_text(nanos).push(0x5A)
        }),
{
    let s = text::timestamp_text(seconds, nanos);
    let date = calendar::date_of(seconds / 86_400);
    let of_day = seconds % 86_400;
    let hour = of_day / 3_600;
    let minute = of_day / 60 % 60;
    let second = of_day % 60;
    calendar::law_every_day_has_a_date(seconds / 86_400);
    digits::lemma_decimal_len(date.year, 4);
    digits::lemma_decimal_len(date.month, 2);
    digits::lemma_decimal_len(date.day, 2);
    digits::lemma_decimal_len(hour, 2);
    digits::lemma_decimal_len(minute, 2);
    digits::lemma_decimal_len(second, 2);
    assert(s.subrange(0, 4) =~= digits::decimal(date.year, 4));
    assert(s.subrange(5, 7) =~= digits::decimal(date.month, 2));
    assert(s.subrange(8, 10) =~= digits::decimal(date.day, 2));
    assert(s.subrange(11, 13) =~= digits::decimal(hour, 2));
    assert(s.subrange(14, 16) =~= digits::decimal(minute, 2));
    assert(s.subrange(17, 19) =~= digits::decimal(second, 2));
    assert(s.skip(19) =~= text::fraction_text(nanos).push(0x5A));
    lemma_four_written(date.year, s);
    lemma_two_written(date.month, s, 5);
    lemma_two_written(date.day, s, 8);
    lemma_two_written(hour, s, 11);
    lemma_two_written(minute, s, 14);
    lemma_two_written(second, s, 17);
    assert(of_day == hour * 3_600 + minute * 60 + second);
}

/// `to_string` gives the text of the timestamp, each byte as the character with its number.
pub proof fn law_to_string(t: Timestamp, r: String)
    requires
        call_ensures(Timestamp::to_string, (&t,), r),
    ensures
        ({
            let s = text::timestamp_text(t.seconds() as int, t.subsec_nanos() as int);
            &&& r@.len() == s.len()
            &&& forall|i: int| 0 <= i < s.len() && s[i] < 0x80 ==> #[trigger] r@[i] as int == s[i]
        }),
{
}

/// `jsonenc_timestamp` leaves the text of the point in time in the buffer, whatever the buffer
/// held.
pub proof fn law_jsonenc_timestamp(buf: &mut Buffer, seconds: i64, nanos: i32, r: ())
    requires
        call_ensures(Buffer::jsonenc_timestamp, (buf, seconds, nanos), r),
    ensures
        final(buf)@ == text::timestamp_text(seconds as int, nanos as int),
{
}

/// `format` leaves the text of the timestamp that its argument is converted to in the buffer,
/// whatever the buffer held, and returns it, each byte as the character with its number.
pub proof fn law_format<T: Into<Timestamp>>(buf: &mut Buffer, value: T, r: &str)
    requires
        call_ensures(Buffer::format::<T>, (buf, value), r),
    ensures
        exists|t: Timestamp|
            {
                &&& call_ensures(<T as Into<Timestamp>>::into, (value,), t)
                &&& -62_135_596_800 <= t.seconds() <= 253_402_300_799
                &&& t.subsec_nanos() < 1_000_000_000
                &&& final(buf)@ == #[trigger] text::timestamp_text(
                    t.seconds() as int,
                    t.subsec_nanos() as int,
                )
            },
        r@.len() == final(buf)@.len(),
        forall|i: int|
            0 <= i < r@.len() && final(buf)@[i] < 0x80 ==> #[trigger] r@[i] as int == final(buf)@[i],
{
}

/// `jsonenc_nanos` adds the fraction to the text and keeps what stood before it.
pub proof fn law_jsonenc_nanos(buf: &mut Buffer, nanos: u32, r: ())
    requires
        call_ensures(Buffer::jsonenc_nanos, (buf, nanos), r),
    ensures
        final(buf)@ == old(buf)@ + text::fraction_text(nanos as int),
{
}

/// `write_number` adds as many digits as it is asked for and keeps what stood before them. Digit
/// `i` counts its power of ten, the highest first.
pub proof fn law_write_number(buf: &mut Buffer, value: u32, count: usize, r: ())
    requires
        call_ensures(Buffer::write_number, (buf, value, count), r),
    ensures
        final(buf)@.len() == old(buf)@.len() + count,
        forall|i: int| 0 <= i < old(buf)@.len() ==> #[trigger] final(buf)@[i] == old(buf)@[i],
        forall|i: int|
            0 <= i < count ==> #[trigger] final(buf)@[old(buf)@.len() + i] == 0x30 + value as int
                / pow(10, (count - 1 - i) as nat) % 10,
{
    digits::lemma_decimal_len(value as int, count as nat);
    assert forall|i: int| 0 <= i < count implies #[trigger] final(buf)@[old(buf)@.len() + i] == 0x30
        + value as int / pow(10, (count - 1 - i) as nat) % 10 by {
        law_decimal_digits(value as int, count as nat, i);
    }
}

/// `write_byte` adds one byte and keeps what stood before it.
pub proof fn law_write_byte(buf: &mut Buffer, value: u8, r: ())
    requires
        call_ensures(Buffer::write_byte, (buf, value), r),
    ensures
        final(buf)@ == old(buf)@.push(value),
{
}

/// `as_str` gives the text of the buffer, each byte as the character with its number.
pub proof fn law_as_str(buf: Buffer, r: &str)
    requires
        call_ensures(Buffer::as_str, (&buf,), r),
    ensures
        r@.len() == buf@.len(),
        forall|i: int| 0 <= i < r@.len() && buf@[i] < 0x80 ==> #[trigger] r@[i] as int == buf@[i],
{
}

/// A buffer is empty when it is made, also as a clone of one that is not.
pub proof fn law_new_buffers_are_empty(from: Buffer, a: Buffer, b: Buffer, c: Buffer)
    requires
        call_ensures(Buffer::new, (), a),
        call_ensures(<Buffer as Default>::default, (), b),
        call_ensures(<Buffer as Clone>::clone, (&from,), c),
    ensures
        a@.len() == 0,
        b@.len() == 0,
        c@.len() == 0,
{
}

/// ASCII bytes become the string of the characters with their numbers.
pub proof fn law_ascii_str(bytes: &[u8], r: &str)
    requires
        forall|i: int| 0 <= i < bytes@.len() ==> #[trigger] bytes@[i] < 0x80,
        call_ensures(ascii_str, (bytes,), r),
    ensures
        ascii::is_ascii(bytes@),
        r@.len() == bytes@.len(),
        forall|i: int| 0 <= i < r@.len() ==> #[trigger] r@[i] as int == bytes@[i],
{
}

}
