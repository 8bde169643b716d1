//! Which texts are read, byte by byte, and what they stand for.
use crate::calendar;
use crate::digits;
use crate::digits::{atoi_consume, decode_tsdigits};
use crate::error::TimestampError;
use crate::parse;
use crate::parse::{decode_nanos, decode_offset, decode_seconds};
use crate::timestamp::Timestamp;
use vstd::prelude::*;

verus! {

/// The number that a row of digits stands for: none is zero, and a digit after a row counts one
/// and the row before it ten times.
pub proof fn law_value_of_digits(s: Seq<u8>, last: u8)
    ensures
        digits::value(Seq::<u8>::empty()) == 0,
        digits::value(s.push(last)) == 10 * digits::value(s) + (last - 0x30),
{
    assert(s.push(last).drop_last() =~= s);
}

proof fn lemma_two(s: Seq<u8>, at: int)
    requires
        0 <= at,
        at + 2 <= s.len(),
    ensures
        digits::all_digits(s.subrange(at, at + 2)) <==> 0x30 <= s[at] <= 0x39 && 0x30 <= s[at + 1]
            <= 0x39,
        digits::value(s.subrange(at, at + 2)) == 10 * (s[at] - 0x30) + (s[at + 1] - 0x30),
{
    let t = s.subrange(at, at + 2);
    assert(t[0] == s[at] && t[1] == s[at + 1]);
    reveal_with_fuel(digits::value, 3);
    assert(t.drop_last().drop_last() =~= Seq::<u8>::empty());
}

proof fn lemma_four(s: Seq<u8>)
    requires
        4 <= s.len(),
    ensures
        digits::all_digits(s.subrange(0, 4)) <==> 0x30 <= s[0] <= 0x39 && 0x30 <= s[1] <= 0x39
            && 0x30 <= s[2] <= 0x39 && 0x30 <= s[3] <= 0x39,
        digits::value(s.subrange(0, 4)) == 1_000 * (s[0] - 0x30) + 100 * (s[1] - 0x30) + 10 * (s[2]
            - 0x30) + (s[3] - 0x30),
{
    let t = s.subrange(0, 4);
    assert(t[0] == s[0] && t[1] == s[1] && t[2] == s[2] && t[3] == s[3]);
    reveal_with_fuel(digits::value, 5);
    assert(t.drop_last().drop_last() =~= s.subrange(0, 2));
    lemma_two(s, 0);
}

/// Three more digits count ones, tens and hundreds, and what stands before them a thousand times.
proof fn lemma_three_more(s: Seq<u8>)
    requires
        3 <= s.len(),
    ensures
        ({
            let n = s.len() as int;
            digits::value(s) == 1_000 * digits::value(s.take(n - 3)) + 100 * (s[n - 3] - 0x30) + 10
                * (s[n - 2] - 0x30) + (s[n - 1] - 0x30)
        }),
{
    reveal_with_fuel(digits::value, 4);
    assert(s.drop_last().drop_last().drop_last() =~= s.take(s.len() - 3));
}

/// The nine digits of a fraction, or fewer, in nanoseconds.
proof fn lemma_fraction_value(run: Seq<u8>)
    requires
        run.len() == 3 || run.len() == 6 || run.len() == 9,
    ensures
        ({
            let group = |i: int|
                100 * (run[i] - 0x30) + 10 * (run[i + 1] - 0x30) + (run[i + 2] - 0x30);
            digits::value(run) * digits::pow10((9 - run.len()) as nat) == (if run.len() == 3 {
                group(0) * 1_000_000
            } else if run.len() == 6 {
                group(0) * 1_000_000 + group(3) * 1_000
            } else {
                group(0) * 1_000_000 + group(3) * 1_000 + group(6)
            })
        }),
{
    assert(digits::pow10(0) == 1 && digits::pow10(3) == 1_000 && digits::pow10(6) == 1_000_000) by {
        reveal_with_fuel(digits::pow10, 7);
    }
    assert(digits::value(run.take(0)) == 0);
    lemma_three_more(run);
    if run.len() >= 6 {
        let init = run.take(run.len() - 3);
        lemma_three_more(init);
        assert(init.take(init.len() - 3) =~= run.take(run.len() - 6));
    }
    if run.len() == 9 {
        let init = run.take(3);
        lemma_three_more(init);
        assert(init.take(0) =~= run.take(0));
    }
}

/// What a date and a time of day are, byte by byte.
proof fn lemma_civil_time_bytes(s: Seq<u8>)
    requires
        s.len() >= 19,
    ensures
        ({
            let d = |i: int| s[i] - 0x30;
            let digit = |i: int| 0x30 <= s[i] <= 0x39;
            let t = parse::civil_time(s);
            &&& parse::has_civil_time_layout(s) <==> {
                &&& digit(0) && digit(1) && digit(2) && digit(3) && s[4] == 0x2D
                &&& digit(5) && digit(6) && s[7] == 0x2D
                &&& digit(8) && digit(9) && s[10] == 0x54
                &&& digit(11) && digit(12) && s[13] == 0x3A
                &&& digit(14) && digit(15) && s[16] == 0x3A
                &&& digit(17) && digit(18)
            }
            &&& t.year == 1_000 * d(0) + 100 * d(1) + 10 * d(2) + d(3)
            &&& t.month == 10 * d(5) + d(6)
            &&& t.day == 10 * d(8) + d(9)
            &&& t.hour == 10 * d(11) + d(12)
            &&& t.minute == 10 * d(14) + d(15)
            &&& t.second == 10 * d(17) + d(18)
        }),
{
    lemma_four(s);
    lemma_two(s, 5);
    lemma_two(s, 8);
    lemma_two(s, 11);
    lemma_two(s, 14);
    lemma_two(s, 17);
}

/// `decode_seconds` reads `YYYY-MM-DDTHH:mm:ss`: the year stands in the bytes 0 to 3, the month in
/// 5 and 6, the day in 8 and 9, the hour in 11 and 12, the minute in 14 and 15, the second in 17
/// and 18. Each has its range, and anything else is refused and left where it is.
pub proof fn law_decode_seconds(ascii: &mut &[u8], r: Result<i64, TimestampError>)
    requires
        call_ensures(decode_seconds, (ascii,), r),
    ensures
        ({
            let s = old(ascii)@;
            let d = |i: int| s[i] - 0x30;
            let digit = |i: int| 0x30 <= s[i] <= 0x39;
            let year = 1_000 * d(0) + 100 * d(1) + 10 * d(2) + d(3);
            let month = 10 * d(5) + d(6);
            let day = 10 * d(8) + d(9);
            let hour = 10 * d(11) + d(12);
            let minute = 10 * d(14) + d(15);
            let second = 10 * d(17) + d(18);
            let laid_out = {
                &&& s.len() >= 19
                &&& digit(0) && digit(1) && digit(2) && digit(3) && s[4] == 0x2D
                &&& digit(5) && digit(6) && s[7] == 0x2D
                &&& digit(8) && digit(9) && s[10] == 0x54
                &&& digit(11) && digit(12) && s[13] == 0x3A
                &&& digit(14) && digit(15) && s[16] == 0x3A
                &&& digit(17) && digit(18)
                &&& 1 <= year && 1 <= month <= 12 && 1 <= day <= 31
                &&& hour <= 23 && minute <= 59 && second <= 59
            };
            if laid_out {
                &&& r matches Ok(v) && v == calendar::epoch_days(year, month, day) * 86_400 + hour
                    * 3_600 + minute * 60 + second
                &&& final(ascii)@ == s.skip(19)
            } else {
                &&& r == Err::<i64, TimestampError>(TimestampError::InvalidFormat)
                &&& final(ascii)@ == s
            }
        }),
{
    let s = old(ascii)@;
    if s.len() >= 19 {
        lemma_civil_time_bytes(s);
    }
}

/// A row of digits up to another byte is the run that a text begins with, and a text that
/// begins with other than 3, 6 or 9 digits has no such row.
proof fn lemma_run_of(s: Seq<u8>, n: int)
    requires
        0 <= n,
    ensures
        digits::digit_run(s) == n <==> {
            &&& n <= s.len()
            &&& forall|i: int| 0 <= i < n ==> 0x30 <= #[trigger] s[i] <= 0x39
            &&& n < s.len() ==> !(0x30 <= s[n] <= 0x39)
        },
{
    digits::lemma_digit_run(s);
    if digits::digit_run(s) == n {
        assert forall|i: int| 0 <= i < n implies 0x30 <= #[trigger] s[i] <= 0x39 by {
            assert(digits::is_digit(s.take(n)[i]));
        }
    } else if n <= s.len() && (forall|i: int| 0 <= i < n ==> 0x30 <= #[trigger] s[i] <= 0x39) && (n
        < s.len() ==> !(0x30 <= s[n] <= 0x39)) {
        assert forall|i: int| 0 <= i < n implies digits::is_digit(#[trigger] s.take(n)[i]) by {
            assert(0x30 <= s[i] <= 0x39);
        }
        digits::lemma_digit_run_is(s, n as nat);
    }
}

/// `decode_nanos` reads a dot and exactly 3, 6 or 9 digits: the first three count milliseconds,
/// the next three microseconds, the last three nanoseconds. Without a dot nothing is read, and
/// another number of digits is refused and left where it is.
pub proof fn law_decode_nanos(ascii: &mut &[u8], width: int, r: Result<i32, TimestampError>)
    requires
        old(ascii)@.len() > 0,
        call_ensures(decode_nanos, (ascii,), r),
        0 <= width < old(ascii)@.len(),
        forall|i: int| 1 <= i <= width ==> 0x30 <= #[trigger] old(ascii)@[i] <= 0x39,
        width + 1 < old(ascii)@.len() ==> !(0x30 <= old(ascii)@[width + 1] <= 0x39),
    ensures
        ({
            let s = old(ascii)@;
            let group = |i: int| 100 * (s[i] - 0x30) + 10 * (s[i + 1] - 0x30) + (s[i + 2] - 0x30);
            if s[0] != 0x2E {
                r == Ok::<i32, TimestampError>(0) && final(ascii)@ == s
            } else if width == 3 || width == 6 || width == 9 {
                &&& r matches Ok(v) && v == group(1) * 1_000_000 + (if width >= 6 {
                    group(4) * 1_000
                } else {
                    0
                }) + (if width == 9 {
                    group(7)
                } else {
                    0
                })
                &&& final(ascii)@ == s.skip(width + 1)
            } else {
                r == Err::<i32, TimestampError>(TimestampError::InvalidFormat) && final(ascii)@ == s
            }
        }),
{
    let s = old(ascii)@;
    if s[0] == 0x2E {
        let tail = s.skip(1);
        assert forall|i: int| 0 <= i < width implies 0x30 <= #[trigger] tail[i] <= 0x39 by {
            assert(tail[i] == s[i + 1]);
        }
        lemma_run_of(tail, width);
        if width == 3 || width == 6 || width == 9 {
            let run = parse::fraction_digits(s);
            assert(run.len() == width);
            assert(forall|i: int| 0 <= i < width ==> run[i] == s[i + 1]);
            lemma_fraction_value(run);
        }
    } else {
        assert(s.skip(0) =~= s);
    }
}

/// `decode_offset` reads six bytes, of which the second and third are hours up to 23, the fifth
/// and sixth minutes up to 59, and the fourth is a colon. After a plus sign they are taken from
/// the local time, otherwise they are added to it.
pub proof fn law_decode_offset(ascii: &[u8], sign: u8, r: Result<i64, TimestampError>)
    requires
        call_ensures(decode_offset, (ascii, sign), r),
    ensures
        ({
            let s = ascii@;
            let digit = |i: int| 0x30 <= s[i] <= 0x39;
            let hours = 10 * (s[1] - 0x30) + (s[2] - 0x30);
            let minutes = 10 * (s[4] - 0x30) + (s[5] - 0x30);
            if s.len() == 6 && digit(1) && digit(2) && s[3] == 0x3A && digit(4) && digit(5) && hours
                <= 23 && minutes <= 59 {
                r matches Ok(v) && v == (if sign == 0x2B {
                    -(hours * 3_600 + minutes * 60)
                } else {
                    hours * 3_600 + minutes * 60
                })
            } else {
                r == Err::<i64, TimestampError>(TimestampError::InvalidFormat)
            }
        }),
{
    if ascii@.len() == 6 {
        lemma_two(ascii@, 1);
        lemma_two(ascii@, 4);
    }
}

/// `decode_tsdigits` reads exactly as many digits as it is asked for, and the delimiter after
/// them that it is asked for. Anything else is refused and left where it is.
pub proof fn law_decode_tsdigits(
    ascii: &mut &[u8],
    count: usize,
    after: Option<u8>,
    r: Result<i32, TimestampError>,
)
    requires
        count > 0,
        call_ensures(decode_tsdigits, (ascii, count, after), r),
    ensures
        ({
            let s = old(ascii)@;
            if count <= s.len() && (forall|i: int|
                0 <= i < count ==> 0x30 <= #[trigger] s[i] <= 0x39) && (after is Some ==> count
                < s.len() && s[count as int] == after->0) {
                &&& r matches Ok(v) && v == digits::value(s.take(count as int))
                &&& final(ascii)@ == s.skip(
                    if after is Some {
                        count + 1
                    } else {
                        count as int
                    },
                )
            } else {
                r == Err::<i32, TimestampError>(TimestampError::InvalidFormat) && final(ascii)@ == s
            }
        }),
{
    let s = old(ascii)@;
    if count <= s.len() {
        let field = s.take(count as int);
        assert(forall|i: int| 0 <= i < count ==> field[i] == s[i]);
        if digits::all_digits(field) {
            assert forall|i: int| 0 <= i < count implies 0x30 <= #[trigger] s[i] <= 0x39 by {
                assert(digits::is_digit(field[i]));
            }
        }
    }
}

/// The number that a text begins with is that of all digits after a sign, if there is one, and
/// negative after a minus sign.
pub proof fn law_leading_number(s: Seq<u8>, end: int)
    requires
        ({
            let start: int = if s.len() > 0 && (s[0] == 0x2D || s[0] == 0x2B) {
                1
            } else {
                0
            };
            &&& start <= end <= s.len()
            &&& forall|i: int| start <= i < end ==> 0x30 <= #[trigger] s[i] <= 0x39
            &&& end < s.len() ==> !(0x30 <= s[end] <= 0x39)
        }),
    ensures
        digits::leading_number(s) == (if s.len() > 0 && s[0] == 0x2D {
            -digits::value(s.subrange(1, end))
        } else if s.len() > 0 && s[0] == 0x2B {
            digits::value(s.subrange(1, end))
        } else {
            digits::value(s.subrange(0, end))
        }),
        digits::after_sign(s).skip(digits::digit_run(digits::after_sign(s)) as int) == s.skip(end),
{
    let start: int = if s.len() > 0 && (s[0] == 0x2D || s[0] == 0x2B) {
        1
    } else {
        0
    };
    let body = digits::after_sign(s);
    assert(body =~= s.skip(start));
    assert forall|i: int| 0 <= i < end - start implies 0x30 <= #[trigger] body[i] <= 0x39 by {
        assert(body[i] == s[start + i]);
    }
    lemma_run_of(body, end - start);
    assert(body.take(end - start) =~= s.subrange(start, end));
    assert(body.skip(end - start) =~= s.skip(end));
}

/// `atoi_consume` reads a sign, if there is one, and all digits after it, and no other byte. A
/// minus sign makes the number negative.
pub proof fn law_atoi_consume(ascii: &mut &[u8], end: int, r: i32)
    requires
        old(ascii)@.len() > 0,
        call_ensures(atoi_consume, (ascii,), r),
        ({
            let s = old(ascii)@;
            let start: int = if s[0] == 0x2D || s[0] == 0x2B {
                1
            } else {
                0
            };
            &&& start <= end <= s.len()
            &&& forall|i: int| start <= i < end ==> 0x30 <= #[trigger] s[i] <= 0x39
            &&& end < s.len() ==> !(0x30 <= s[end] <= 0x39)
            &&& i32::MIN <= (if s[0] == 0x2D {
                -digits::value(s.subrange(start, end))
            } else {
                digits::value(s.subrange(start, end))
            }) <= i32::MAX
        }),
    ensures
        ({
            let s = old(ascii)@;
            &&& r == (if s[0] == 0x2D {
                -digits::value(s.subrange(1, end))
            } else if s[0] == 0x2B {
                digits::value(s.subrange(1, end))
            } else {
                digits::value(s.subrange(0, end))
            })
            &&& final(ascii)@ == s.skip(end)
        }),
{
    law_leading_number(old(ascii)@, end);
}

/// The zone of a text that ends in one, byte by byte.
proof fn lemma_zone_bytes(zone: Seq<u8>)
    ensures
        ({
            let digit = |i: int| 0x30 <= zone[i] <= 0x39;
            let hours = 10 * (zone[1] - 0x30) + (zone[2] - 0x30);
            let minutes = 10 * (zone[4] - 0x30) + (zone[5] - 0x30);
            parse::zone_shift(zone) == (if zone.len() == 1 && zone[0] == 0x5A {
                Some(0int)
            } else if zone.len() == 6 && (zone[0] == 0x2B || zone[0] == 0x2D) && digit(1) && digit(2)
                && zone[3] == 0x3A && digit(4) && digit(5) && hours <= 23 && minutes <= 59 {
                if zone[0] == 0x2B {
                    Some(-(hours * 3_600 + minutes * 60))
                } else {
                    Some(hours * 3_600 + minutes * 60)
                }
            } else {
                None
            })
        }),
{
    if zone.len() == 1 && zone[0] == 0x5A {
        assert(zone =~= seq![0x5Au8]);
    }
    if zone.len() == 6 {
        lemma_two(zone, 1);
        lemma_two(zone, 4);
    }
}

/// The fraction of a text that has one of a given width, byte by byte.
proof fn lemma_fraction_bytes(rest: Seq<u8>, width: int)
    requires
        width == 3 || width == 6 || width == 9,
        rest.len() > width + 1,
        rest[0] == 0x2E,
        forall|i: int| 1 <= i <= width ==> 0x30 <= #[trigger] rest[i] <= 0x39,
        !(0x30 <= rest[width + 1] <= 0x39),
    ensures
        parse::is_fraction(rest),
        parse::fraction_len(rest) == width + 1,
        ({
            let group = |i: int|
                100 * (rest[i] - 0x30) + 10 * (rest[i + 1] - 0x30) + (rest[i + 2] - 0x30);
            parse::fraction_nanos(rest) == group(1) * 1_000_000 + (if width >= 6 {
                group(4) * 1_000
            } else {
                0
            }) + (if width == 9 {
                group(7)
            } else {
                0
            })
        }),
{
    let tail = rest.skip(1);
    assert forall|i: int| 0 <= i < width implies 0x30 <= #[trigger] tail[i] <= 0x39 by {
        assert(tail[i] == rest[i + 1]);
    }
    lemma_run_of(tail, width);
    let run = parse::fraction_digits(rest);
    assert(run.len() == width);
    assert(forall|i: int| 0 <= i < width ==> run[i] == rest[i + 1]);
    lemma_fraction_value(run);
}

/// A text of the form `YYYY-MM-DDTHH:mm:ss`, a dot and `width` digits where there are any, and
/// `Z` or an offset stands for the time that its bytes spell: the year in the bytes 0 to 3, the
/// month in 5 and 6, the day in 8 and 9, the hour in 11 and 12, the minute in 14 and 15, the
/// second in 17 and 18, milliseconds, microseconds and nanoseconds in groups of three from 20 on,
/// and an offset after a plus sign taken away, after a minus sign added.
pub proof fn law_text_is_read(s: Seq<u8>, width: int)
    requires
        width == 0 || width == 3 || width == 6 || width == 9,
    ensures
        ({
            let d = |i: int| s[i] - 0x30;
            let digit = |i: int| 0x30 <= s[i] <= 0x39;
            let year = 1_000 * d(0) + 100 * d(1) + 10 * d(2) + d(3);
            let month = 10 * d(5) + d(6);
            let day = 10 * d(8) + d(9);
            let hour = 10 * d(11) + d(12);
            let minute = 10 * d(14) + d(15);
            let second = 10 * d(17) + d(18);
            let local = calendar::epoch_days(year, month, day) * 86_400 + hour * 3_600 + minute * 60
                + second;
            let group = |i: int| 100 * d(i) + 10 * d(i + 1) + d(i + 2);
            let nanos = (if width >= 3 {
                group(20) * 1_000_000
            } else {
                0
            }) + (if width >= 6 {
                group(23) * 1_000
            } else {
                0
            }) + (if width == 9 {
                group(26)
            } else {
                0
            });
            let z = if width == 0 {
                19int
            } else {
                20 + width
            };
            let offset_hours = 10 * d(z + 1) + d(z + 2);
            let offset_minutes = 10 * d(z + 4) + d(z + 5);
            let offset = offset_hours * 3_600 + offset_minutes * 60;
            let utc = if s[z] == 0x5A {
                local
            } else if s[z] == 0x2B {
                local - offset
            } else {
                local + offset
            };
            let laid_out = {
                &&& s.len() > z
                &&& digit(0) && digit(1) && digit(2) && digit(3) && s[4] == 0x2D
                &&& digit(5) && digit(6) && s[7] == 0x2D
                &&& digit(8) && digit(9) && s[10] == 0x54
                &&& digit(11) && digit(12) && s[13] == 0x3A
                &&& digit(14) && digit(15) && s[16] == 0x3A
                &&& digit(17) && digit(18)
                &&& 1 <= year && 1 <= month <= 12 && 1 <= day <= 31
                &&& hour <= 23 && minute <= 59 && second <= 59
                &&& width > 0 ==> s[19] == 0x2E
                &&& forall|i: int| 20 <= i < z ==> 0x30 <= #[trigger] s[i] <= 0x39
                &&& (s.len() == z + 1 && s[z] == 0x5A) || (s.len() == z + 6 && (s[z] == 0x2B || s[z]
                    == 0x2D) && digit(z + 1) && digit(z + 2) && s[z + 3] == 0x3A && digit(z + 4)
                    && digit(z + 5) && offset_hours <= 23 && offset_minutes <= 59)
            };
            laid_out ==> parse::parsed(s) == (if -62_135_596_800 <= utc <= 253_402_300_799 {
                Ok::<(int, int), TimestampError>((utc, nanos))
            } else {
                Err(TimestampError::OutOfRange)
            })
        }),
{
    let z = if width == 0 {
        19int
    } else {
        20 + width
    };
    if s.len() > z {
        let rest = s.skip(19);
        let zone = s.skip(z);
        lemma_civil_time_bytes(s);
        lemma_zone_bytes(zone);
        assert(forall|i: int| 0 <= i < zone.len() ==> zone[i] == s[z + i]);
        assert(forall|i: int| 0 <= i < rest.len() ==> rest[i] == s[19 + i]);
        if width == 0 {
            assert(rest.skip(0) =~= zone);
        } else {
            assert(rest.skip(width + 1) =~= zone);
            if s[19] == 0x2E && (forall|i: int| 20 <= i < z ==> 0x30 <= #[trigger] s[i] <= 0x39)
                && !(0x30 <= s[z] <= 0x39) {
                assert forall|i: int| 1 <= i <= width implies 0x30 <= #[trigger] rest[i]
                    <= 0x39 by {
                    assert(rest[i] == s[19 + i]);
                }
                lemma_fraction_bytes(rest, width);
            }
        }
    }
}

/// Nothing else is read: a text that is not of the form `YYYY-MM-DDTHH:mm:ss`, with each field in
/// its range, then no fraction or a dot and 3, 6 or 9 digits, then `Z` or an offset of at most
/// 23 hours and 59 minutes, then nothing, has an invalid format.
pub proof fn law_nothing_else_is_read(s: Seq<u8>)
    ensures
        ({
            let d = |i: int| s[i] - 0x30;
            let digit = |i: int| 0x30 <= s[i] <= 0x39;
            let zone_at = |z: int|
                {
                    ||| s.len() == z + 1 && s[z] == 0x5A
                    ||| s.len() == z + 6 && (s[z] == 0x2B || s[z] == 0x2D) && digit(z + 1) && digit(
                        z + 2,
                    ) && s[z + 3] == 0x3A && digit(z + 4) && digit(z + 5) && 10 * d(z + 1) + d(z + 2)
                        <= 23 && 10 * d(z + 4) + d(z + 5) <= 59
                };
            let fraction_to = |z: int|
                s[19] == 0x2E && forall|i: int| 20 <= i < z ==> 0x30 <= #[trigger] s[i] <= 0x39;
            parse::parsed(s) != Err::<(int, int), TimestampError>(TimestampError::InvalidFormat) ==> {
                &&& s.len() >= 20
                &&& digit(0) && digit(1) && digit(2) && digit(3) && s[4] == 0x2D
                &&& digit(5) && digit(6) && s[7] == 0x2D
                &&& digit(8) && digit(9) && s[10] == 0x54
                &&& digit(11) && digit(12) && s[13] == 0x3A
                &&& digit(14) && digit(15) && s[16] == 0x3A
                &&& digit(17) && digit(18)
                &&& 1 <= 1_000 * d(0) + 100 * d(1) + 10 * d(2) + d(3)
                &&& 1 <= 10 * d(5) + d(6) <= 12
                &&& 1 <= 10 * d(8) + d(9) <= 31
                &&& 10 * d(11) + d(12) <= 23
                &&& 10 * d(14) + d(15) <= 59
                &&& 10 * d(17) + d(18) <= 59
                &&& zone_at(19) || (fraction_to(23) && zone_at(23)) || (fraction_to(26) && zone_at(
                    26,
                )) || (fraction_to(29) && zone_at(29))
            }
        }),
{
    if parse::parsed(s) != Err::<(int, int), TimestampError>(TimestampError::InvalidFormat) {
        let rest = s.skip(19);
        let n = parse::fraction_len(rest);
        let z = 19 + n;
        let zone = rest.skip(n);
        lemma_civil_time_bytes(s);
        if parse::is_dot(rest) {
            digits::lemma_digit_run(rest.skip(1));
            lemma_run_of(rest.skip(1), n - 1);
            assert forall|i: int| 20 <= i < z implies 0x30 <= #[trigger] s[i] <= 0x39 by {
                assert(rest.skip(1)[i - 20] == s[i]);
            }
        }
        assert(zone =~= s.skip(z));
        lemma_zone_bytes(zone);
        assert(forall|i: int| 0 <= i < zone.len() ==> zone[i] == s[z + i]);
    }
}

/// Three zeros after a fraction of 3 or 6 digits do not change what a text stands for.
pub proof fn law_zeros_after_a_fraction(s: Seq<u8>, width: int)
    requires
        width == 3 || width == 6,
        s.len() > 20 + width,
        s[19] == 0x2E,
        forall|i: int| 20 <= i < 20 + width ==> 0x30 <= #[trigger] s[i] <= 0x39,
        !(0x30 <= s[20 + width] <= 0x39),
    ensures
        parse::parsed(s.take(20 + width) + seq![0x30u8, 0x30u8, 0x30u8] + s.skip(20 + width))
            == parse::parsed(s),
{
    let t = s.take(20 + width) + seq![0x30u8, 0x30u8, 0x30u8] + s.skip(20 + width);
    let rest = s.skip(19);
    let longer = t.skip(19);
    lemma_civil_time_bytes(s);
    lemma_civil_time_bytes(t);
    assert(forall|i: int| 0 <= i < 19 ==> t[i] == s[i]);
    assert forall|i: int| 1 <= i <= width implies 0x30 <= #[trigger] rest[i] <= 0x39 by {
        assert(rest[i] == s[19 + i]);
    }
    assert(forall|i: int| 0 <= i <= width ==> longer[i] == rest[i]);
    assert(longer[width + 1] == 0x30 && longer[width + 2] == 0x30 && longer[width + 3] == 0x30);
    assert forall|i: int| 1 <= i <= width + 3 implies 0x30 <= #[trigger] longer[i] <= 0x39 by {
        if i <= width {
            assert(longer[i] == rest[i]);
        }
    }
    assert(longer[width + 4] == s[20 + width]);
    lemma_fraction_bytes(rest, width);
    lemma_fraction_bytes(longer, width + 3);
    assert(rest.skip(width + 1) =~= longer.skip(width + 4));
    assert(parse::civil_time(t) == parse::civil_time(s));
}

/// `from_bytes` gives what its text stands for.
pub proof fn law_from_bytes(text: &[u8], r: Result<Timestamp, TimestampError>)
    requires
        call_ensures(Timestamp::from_bytes, (text,), r),
    ensures
        match parse::parsed(text@) {
            Ok((seconds, nanos)) => r matches Ok(t) && t.seconds() == seconds && t.subsec_nanos()
                == nanos,
            Err(e) => r == Err::<Timestamp, TimestampError>(e),
        },
{
}

}
