//! What holds of the library as a whole.
//!
//! Here stand the laws that relate reading, writing and converting to one another. The modules
//! below say of each function what it does, over the bytes, numbers and times that go in and
//! come out.
use crate::ascii;
use crate::ascii::{COLON, DOT, LETTER_T, LETTER_Z, MINUS};
use crate::calendar;
use crate::calendar::{Date, SECONDS_MAX, SECONDS_MIN};
use crate::chrono_time;
use crate::digits;
use crate::error::TimestampError;
use crate::parse;
use crate::system_time;
use crate::text;
use crate::timestamp;
use crate::timestamp::Timestamp;
use crate::timestamptz;
use crate::timestamptz::TimestamptzError;
use chrono::NaiveDateTime;
use std::time::SystemTime;
use vstd::prelude::*;

pub mod dates;
pub mod moments;
pub mod reading;
pub mod storage;
pub mod writing;

verus! {

/// A text that begins with the six fields of a date and time of day has their layout,
/// and they are read back from it.
proof fn lemma_civil_time_text(date: Date, second: int, tail: Seq<u8>)
    requires
        date.exists_in_calendar(),
        1 <= date.year <= 9999,
        0 <= second < 86_400,
    ensures
        ({
            let s = text::date_text(date) + seq![LETTER_T] + text::time_text(second) + tail;
            &&& parse::is_civil_time(s)
            &&& parse::civil_time(s).unix_seconds() == date.epoch_days() * 86_400 + second
            &&& s.skip(19) == tail
        }),
{
    let s = text::date_text(date) + seq![LETTER_T] + text::time_text(second) + tail;
    let hour = second / 3600;
    let min = second / 60 % 60;
    let sec = second % 60;
    assert(digits::pow10(2) == 100 && digits::pow10(4) == 10_000) by {
        reveal_with_fuel(digits::pow10, 5);
    }
    digits::lemma_value_of_decimal(date.year, 4);
    digits::lemma_value_of_decimal(date.month, 2);
    digits::lemma_value_of_decimal(date.day, 2);
    digits::lemma_value_of_decimal(hour, 2);
    digits::lemma_value_of_decimal(min, 2);
    digits::lemma_value_of_decimal(sec, 2);
    assert(s.subrange(0, 4) =~= digits::decimal(date.year, 4));
    assert(s.subrange(5, 7) =~= digits::decimal(date.month, 2));
    assert(s.subrange(8, 10) =~= digits::decimal(date.day, 2));
    assert(s.subrange(11, 13) =~= digits::decimal(hour, 2));
    assert(s.subrange(14, 16) =~= digits::decimal(min, 2));
    assert(s.subrange(17, 19) =~= digits::decimal(sec, 2));
    assert(s.skip(19) =~= tail);
    assert(second == hour * 3600 + min * 60 + sec);
}

/// A fraction is read back from its text.
proof fn lemma_fraction_text(nanos: int)
    requires
        0 <= nanos < 1_000_000_000,
    ensures
        ({
            let rest = text::fraction_text(nanos) + seq![LETTER_Z];
            &&& parse::is_fraction(rest)
            &&& parse::fraction_nanos(rest) == nanos
            &&& rest.skip(parse::fraction_len(rest)) == seq![LETTER_Z]
        }),
{
    let rest = text::fraction_text(nanos) + seq![LETTER_Z];
    assert(digits::pow10(0) == 1 && digits::pow10(3) == 1_000 && digits::pow10(6) == 1_000_000
        && digits::pow10(9) == 1_000_000_000) by {
        reveal_with_fuel(digits::pow10, 10);
    }
    if nanos == 0 {
        assert(rest =~= seq![LETTER_Z]);
        assert(rest.skip(0) =~= rest);
    } else {
        let (width, number): (nat, int) = if nanos % 1_000_000 == 0 {
            (3, nanos / 1_000_000)
        } else if nanos % 1_000 == 0 {
            (6, nanos / 1_000)
        } else {
            (9, nanos)
        };
        let written = digits::decimal(number, width);
        digits::lemma_value_of_decimal(number, width);
        assert(rest =~= seq![DOT] + written + seq![LETTER_Z]);
        assert(rest.skip(1) =~= written + seq![LETTER_Z]);
        assert(rest.skip(1).take(width as int) =~= written);
        digits::lemma_digit_run_is(rest.skip(1), width);
        assert(rest.skip(1int + width) =~= seq![LETTER_Z]);
    }
}

/// The readers of the parts undo the writer of the whole: of what `Buffer::jsonenc_timestamp`
/// writes, `decode_seconds` reads the seconds, `decode_nanos` then reads the nanoseconds,
/// and `Z` alone is left.
pub proof fn law_parts_are_read_back(seconds: int, nanos: int)
    requires
        timestamp::in_range(seconds, nanos),
    ensures
        ({
            let s = text::timestamp_text(seconds, nanos);
            let rest = s.skip(19);
            &&& parse::is_civil_time(s)
            &&& parse::civil_time(s).unix_seconds() == seconds
            &&& parse::is_fraction(rest)
            &&& parse::fraction_nanos(rest) == nanos
            &&& rest.skip(parse::fraction_len(rest)) == seq![LETTER_Z]
        }),
{
    let day = seconds / 86_400;
    let second = seconds % 86_400;
    let date = calendar::date_of(day);
    let s = text::timestamp_text(seconds, nanos);
    let rest = text::fraction_text(nanos) + seq![LETTER_Z];
    calendar::law_every_day_has_a_date(day);
    lemma_civil_time_text(date, second, rest);
    lemma_fraction_text(nanos);
    assert(s =~= text::date_text(date) + seq![LETTER_T] + text::time_text(second) + rest);
}

/// Reading the text of a timestamp gives the timestamp back, for every timestamp.
pub proof fn law_text_is_read_back(seconds: int, nanos: int)
    requires
        timestamp::in_range(seconds, nanos),
    ensures
        parse::parsed(text::timestamp_text(seconds, nanos)) == Ok::<(int, int), TimestampError>(
            (seconds, nanos),
        ),
{
    law_parts_are_read_back(seconds, nanos);
}

/// The string of a timestamp, as it is written, is read back by the parser of strings.
pub proof fn law_string_is_read_back(seconds: int, nanos: int)
    requires
        timestamp::in_range(seconds, nanos),
    ensures
        parse::parsed(
            vstd::utf8::encode_utf8(ascii::chars(text::timestamp_text(seconds, nanos))),
        ) == Ok::<(int, int), TimestampError>((seconds, nanos)),
{
    law_text_is_read_back(seconds, nanos);
    law_text_shape(seconds, nanos);
    ascii::lemma_ascii_utf8(text::timestamp_text(seconds, nanos));
}

/// Two timestamps with the same text are the same timestamp.
pub proof fn law_text_tells_timestamps_apart(a: (int, int), b: (int, int))
    requires
        timestamp::in_range(a.0, a.1),
        timestamp::in_range(b.0, b.1),
        text::timestamp_text(a.0, a.1) == text::timestamp_text(b.0, b.1),
    ensures
        a == b,
{
    law_text_is_read_back(a.0, a.1);
    law_text_is_read_back(b.0, b.1);
}

/// A text that is read is written again as it was, where it says `Z`, its date occurs in the
/// calendar and its fraction takes no more digits than it needs.
pub proof fn law_canonical_text_is_written_back(s: Seq<u8>, seconds: int, nanos: int)
    requires
        parse::parsed(s) == Ok::<(int, int), TimestampError>((seconds, nanos)),
        ({
            let t = parse::civil_time(s);
            (Date { year: t.year, month: t.month, day: t.day }).exists_in_calendar()
        }),
        s.skip(19) == text::fraction_text(nanos) + seq![LETTER_Z],
    ensures
        text::timestamp_text(seconds, nanos) == s,
{
    let t = parse::civil_time(s);
    let date = Date { year: t.year, month: t.month, day: t.day };
    let rest = s.skip(19);
    law_parsed_in_range(s);
    lemma_fraction_text(nanos);
    let second = t.hour * 3600 + t.minute * 60 + t.second;
    lemma_fields_of_second(t.hour, t.minute, t.second);
    lemma_layout_is_text(s);
    assert(seconds == date.epoch_days() * 86_400 + second);
    assert(seconds / 86_400 == date.epoch_days() && seconds % 86_400 == second);
    calendar::law_date_of_epoch_days(date);
    assert(text::timestamp_text(seconds, nanos) =~= s.take(19) + rest);
    assert(s.take(19) + rest =~= s);
}

proof fn lemma_fields_of_second(hour: int, minute: int, second: int)
    requires
        0 <= hour <= 23,
        0 <= minute <= 59,
        0 <= second <= 59,
    ensures
        ({
            let s = hour * 3600 + minute * 60 + second;
            &&& 0 <= s < 86_400
            &&& s / 3600 == hour
            &&& s / 60 % 60 == minute
            &&& s % 60 == second
        }),
{
}

/// The layout of a date and time of day is the text of its fields.
proof fn lemma_layout_is_text(s: Seq<u8>)
    requires
        parse::is_civil_time(s),
    ensures
        ({
            let t = parse::civil_time(s);
            s.take(19) == text::date_text(Date { year: t.year, month: t.month, day: t.day })
                + seq![LETTER_T] + text::time_text(t.hour * 3600 + t.minute * 60 + t.second)
        }),
{
    let t = parse::civil_time(s);
    lemma_fields_of_second(t.hour, t.minute, t.second);
    digits::lemma_decimal_of_value(s.subrange(0, 4));
    digits::lemma_decimal_of_value(s.subrange(5, 7));
    digits::lemma_decimal_of_value(s.subrange(8, 10));
    digits::lemma_decimal_of_value(s.subrange(11, 13));
    digits::lemma_decimal_of_value(s.subrange(14, 16));
    digits::lemma_decimal_of_value(s.subrange(17, 19));
    let fields = s.subrange(0, 4) + seq![MINUS] + s.subrange(5, 7) + seq![MINUS] + s.subrange(8, 10)
        + seq![LETTER_T] + (s.subrange(11, 13) + seq![COLON] + s.subrange(14, 16) + seq![COLON]
        + s.subrange(17, 19));
    assert(s.take(19) =~= fields);
}

/// Whatever is read lies in the years 1 to 9999 and has fewer than 1_000_000_000 nanoseconds.
pub proof fn law_parsed_in_range(s: Seq<u8>)
    ensures
        parse::parsed(s) matches Ok((seconds, nanos)) ==> timestamp::in_range(seconds, nanos),
{
    let rest = s.skip(19);
    if parse::parsed(s) is Ok && parse::is_dot(rest) {
        let run = parse::fraction_digits(rest);
        digits::lemma_digit_run(rest.skip(1));
        digits::lemma_value_bound(run);
        assert(digits::pow10(0) == 1 && digits::pow10(3) == 1_000 && digits::pow10(6) == 1_000_000
            && digits::pow10(9) == 1_000_000_000) by {
            reveal_with_fuel(digits::pow10, 10);
        }
        assert(run.len() == 3 || run.len() == 6 || run.len() == 9);
    }
}

/// What is read, in whatever form it was given, is read again from the text that it is
/// written with.
pub proof fn law_normalized_text_is_read_back(s: Seq<u8>, seconds: int, nanos: int)
    requires
        parse::parsed(s) == Ok::<(int, int), TimestampError>((seconds, nanos)),
    ensures
        parse::parsed(text::timestamp_text(seconds, nanos)) == parse::parsed(s),
{
    law_parsed_in_range(s);
    law_text_is_read_back(seconds, nanos);
}

/// Only ASCII is read, so that bytes that are no UTF-8 never stand for a timestamp.
pub proof fn law_only_ascii_is_read(s: Seq<u8>)
    requires
        !ascii::is_ascii(s),
    ensures
        parse::parsed(s) == Err::<(int, int), TimestampError>(TimestampError::InvalidFormat),
{
    let rest = s.skip(19);
    let zone = rest.skip(parse::fraction_len(rest));
    if parse::is_civil_time(s) && parse::is_fraction(rest) && parse::zone_shift(zone) is Some {
        digits::lemma_digit_run(rest.skip(1));
        assert forall|i: int| 0 <= i < s.len() implies #[trigger] s[i] < 0x80 by {
            lemma_layout_is_ascii(s);
            if i < 19 {
                assert(s.take(19)[i] == s[i]);
            } else if i < 19 + parse::fraction_len(rest) {
                if i > 19 {
                    assert(digits::is_digit(parse::fraction_digits(rest)[i - 20]));
                }
            } else {
                lemma_zone_is_ascii(zone);
                assert(zone[i - 19 - parse::fraction_len(rest)] == s[i]);
            }
        }
    }
}

proof fn lemma_layout_is_ascii(s: Seq<u8>)
    requires
        parse::has_civil_time_layout(s),
    ensures
        ascii::is_ascii(s.take(19)),
{
    assert(digits::is_digit(s.subrange(0, 4)[0]) && digits::is_digit(s.subrange(0, 4)[1]));
    assert(digits::is_digit(s.subrange(0, 4)[2]) && digits::is_digit(s.subrange(0, 4)[3]));
    assert(digits::is_digit(s.subrange(5, 7)[0]) && digits::is_digit(s.subrange(5, 7)[1]));
    assert(digits::is_digit(s.subrange(8, 10)[0]) && digits::is_digit(s.subrange(8, 10)[1]));
    assert(digits::is_digit(s.subrange(11, 13)[0]) && digits::is_digit(s.subrange(11, 13)[1]));
    assert(digits::is_digit(s.subrange(14, 16)[0]) && digits::is_digit(s.subrange(14, 16)[1]));
    assert(digits::is_digit(s.subrange(17, 19)[0]) && digits::is_digit(s.subrange(17, 19)[1]));
}

proof fn lemma_zone_is_ascii(zone: Seq<u8>)
    requires
        parse::zone_shift(zone) is Some,
    ensures
        ascii::is_ascii(zone),
{
    if zone != seq![LETTER_Z] {
        assert(digits::is_digit(zone.subrange(1, 3)[0]) && digits::is_digit(zone.subrange(1, 3)[1]));
        assert(digits::is_digit(zone.subrange(4, 6)[0]) && digits::is_digit(zone.subrange(4, 6)[1]));
    }
}

/// A fraction of any other width than 3, 6 or 9 digits is refused.
pub proof fn law_other_fractions_are_refused(s: Seq<u8>)
    requires
        parse::is_dot(s.skip(19)),
        ({
            let n = digits::digit_run(s.skip(19).skip(1));
            n != 3 && n != 6 && n != 9
        }),
    ensures
        parse::parsed(s) == Err::<(int, int), TimestampError>(TimestampError::InvalidFormat),
{
}

/// An offset shifts a time: a text with a zone stands for the time of the same text with
/// `Z`, moved by what the zone stands for, unless that leaves the years 1 to 9999.
pub proof fn law_zone_shifts_time(local: Seq<u8>, zone: Seq<u8>)
    requires
        parse::is_civil_time(local),
        parse::is_fraction(local.skip(19)),
        parse::fraction_len(local.skip(19)) == local.len() - 19,
        parse::zone_shift(zone) is Some,
    ensures
        parse::parsed(local + seq![LETTER_Z]) matches Ok((seconds, nanos)) && {
            let utc = seconds + parse::zone_shift(zone)->0;
            parse::parsed(local + zone) == (if SECONDS_MIN <= utc <= SECONDS_MAX {
                Ok::<(int, int), TimestampError>((utc, nanos))
            } else {
                Err(TimestampError::OutOfRange)
            })
        },
{
    lemma_parsed_with_zone(local, seq![LETTER_Z]);
    lemma_parsed_with_zone(local, zone);
    parse::lemma_civil_time_in_range(parse::civil_time(local));
}

proof fn lemma_parsed_with_zone(local: Seq<u8>, zone: Seq<u8>)
    requires
        parse::is_civil_time(local),
        parse::is_fraction(local.skip(19)),
        parse::fraction_len(local.skip(19)) == local.len() - 19,
        parse::zone_shift(zone) is Some,
    ensures
        ({
            let s = local + zone;
            let rest = s.skip(19);
            &&& parse::is_civil_time(s)
            &&& parse::civil_time(s) == parse::civil_time(local)
            &&& parse::is_fraction(rest)
            &&& parse::fraction_nanos(rest) == parse::fraction_nanos(local.skip(19))
            &&& rest.skip(parse::fraction_len(rest)) == zone
        }),
{
    let s = local + zone;
    let rest = s.skip(19);
    assert(s.subrange(0, 4) =~= local.subrange(0, 4));
    assert(s.subrange(5, 7) =~= local.subrange(5, 7));
    assert(s.subrange(8, 10) =~= local.subrange(8, 10));
    assert(s.subrange(11, 13) =~= local.subrange(11, 13));
    assert(s.subrange(14, 16) =~= local.subrange(14, 16));
    assert(s.subrange(17, 19) =~= local.subrange(17, 19));
    assert(rest =~= local.skip(19) + zone);
    assert(zone.len() > 0 && zone[0] != DOT && !digits::is_digit(zone[0]));
    if parse::is_dot(local.skip(19)) {
        let run = local.skip(19).skip(1);
        digits::lemma_digit_run(run);
        assert(run.take(run.len() as int) =~= run);
        assert(rest.skip(1) =~= run + zone);
        assert(rest.skip(1).take(run.len() as int) =~= run);
        digits::lemma_digit_run_is(rest.skip(1), run.len());
    }
    assert(rest.skip(local.len() - 19) =~= zone);
}

/// Every text of a timestamp is ASCII, ends in `Z` and is 20, 24, 27 or 30 bytes long.
pub proof fn law_text_shape(seconds: int, nanos: int)
    requires
        timestamp::in_range(seconds, nanos),
    ensures
        ({
            let s = text::timestamp_text(seconds, nanos);
            &&& ascii::is_ascii(s)
            &&& s.last() == LETTER_Z
            &&& s.len() == (if nanos == 0 {
                20
            } else if nanos % 1_000_000 == 0 {
                24
            } else if nanos % 1_000 == 0 {
                27
            } else {
                30int
            })
        }),
{
    let date = calendar::date_of(seconds / 86_400);
    let second = seconds % 86_400;
    digits::lemma_decimal_len(date.year, 4);
    digits::lemma_decimal_len(date.month, 2);
    digits::lemma_decimal_len(date.day, 2);
    digits::lemma_decimal_len(second / 3600, 2);
    digits::lemma_decimal_len(second / 60 % 60, 2);
    digits::lemma_decimal_len(second % 60, 2);
    digits::lemma_decimal_len(nanos / 1_000_000, 3);
    digits::lemma_decimal_len(nanos / 1_000, 6);
    digits::lemma_decimal_len(nanos, 9);
    assert(ascii::is_ascii(text::date_text(date)));
    assert(ascii::is_ascii(text::time_text(second)));
    assert(ascii::is_ascii(text::fraction_text(nanos)));
}

/// A timestamp is told by its distance from the epoch: two at the same distance are equal.
pub proof fn law_same_time_is_same_timestamp(a: Timestamp, b: Timestamp)
    requires
        a.wf(),
        b.wf(),
    ensures
        a@ == b@ <==> a == b,
{
    a.lemma_parts();
    b.lemma_parts();
}

/// Saturation keeps every time of the years 1 to 9999, takes what lies before them to their
/// first second and what lies after them to their last.
pub proof fn law_saturation(nanos: int)
    ensures
        Timestamp::saturated(nanos).wf(),
        SECONDS_MIN <= nanos / 1_000_000_000 <= SECONDS_MAX ==> Timestamp::saturated(nanos)@
            == nanos,
        nanos / 1_000_000_000 < SECONDS_MIN ==> Timestamp::saturated(nanos)@ == SECONDS_MIN
            * 1_000_000_000,
        nanos / 1_000_000_000 > SECONDS_MAX ==> Timestamp::saturated(nanos)@ == SECONDS_MAX
            * 1_000_000_000,
{
    broadcast use Timestamp::lemma_of;

}

/// The distance of a timestamp from the epoch gives the timestamp back.
pub proof fn law_epoch_distance_round_trip(t: Timestamp)
    requires
        t.wf(),
    ensures
        Timestamp::saturated(t@) == t,
{
    t.lemma_parts();
}

/// A timestamp that becomes a `SystemTime` and is converted back is the same, wherever the
/// platform's clock tells that time exactly.
pub proof fn law_system_time_exact_round_trip(t: Timestamp, st: SystemTime)
    requires
        t.wf(),
        call_ensures(Timestamp::to_system_time, (&t,), Some(st)),
        system_time::nanos_since_epoch(st) == t@,
    ensures
        <Timestamp as vstd::std_specs::convert::FromSpec<SystemTime>>::from_spec(st) == t,
{
    law_epoch_distance_round_trip(t);
}

/// A timestamp that becomes a `SystemTime` and is converted back is the same, where every
/// platform's clock can tell it, that is in steps of 100 nanoseconds.
pub proof fn law_system_time_round_trip(t: Timestamp, st: SystemTime)
    requires
        t.wf(),
        t@ % 100 == 0,
        call_ensures(Timestamp::to_system_time, (&t,), Some(st)),
    ensures
        <Timestamp as vstd::std_specs::convert::FromSpec<SystemTime>>::from_spec(st) == t,
{
    law_epoch_distance_round_trip(t);
}

/// A `SystemTime` of the years 1 to 9999 that becomes a timestamp and is converted back lies
/// where it did, in steps of 100 nanoseconds.
pub proof fn law_system_time_is_kept(st: SystemTime, t: Timestamp, back: SystemTime)
    requires
        SECONDS_MIN <= system_time::nanos_since_epoch(st) / 1_000_000_000 <= SECONDS_MAX,
        system_time::nanos_since_epoch(st) % 100 == 0,
        call_ensures(<Timestamp as From<SystemTime>>::from, (st,), t),
        call_ensures(Timestamp::to_system_time, (&t,), Some(back)),
    ensures
        system_time::nanos_since_epoch(back) == system_time::nanos_since_epoch(st),
{
    law_saturation(system_time::nanos_since_epoch(st));
}

/// A timestamp that becomes a date and time of `chrono` and is converted back is the same.
pub proof fn law_chrono_round_trip(t: Timestamp, dt: NaiveDateTime)
    requires
        t.wf(),
        call_ensures(<NaiveDateTime as From<Timestamp>>::from, (t,), dt),
    ensures
        <Timestamp as vstd::std_specs::convert::FromSpec<NaiveDateTime>>::from_spec(dt) == t,
{
    law_epoch_distance_round_trip(t);
}

/// A date and time of `chrono` whose Unix second lies before the years 1 to 9999 becomes their
/// first second, one whose Unix second lies after them their last, at any nanosecond.
pub proof fn law_chrono_saturates(dt: NaiveDateTime, t: Timestamp)
    requires
        call_ensures(<Timestamp as From<NaiveDateTime>>::from, (dt,), t),
    ensures
        chrono_time::utc_seconds(dt) < SECONDS_MIN ==> t.seconds() == SECONDS_MIN
            && t.subsec_nanos() == 0,
        chrono_time::utc_seconds(dt) > SECONDS_MAX ==> t.seconds() == SECONDS_MAX
            && t.subsec_nanos() == 0,
{
    broadcast use Timestamp::lemma_of;

}

/// A date and time of `chrono` in the years 1 to 9999, and in no leap second, that becomes a
/// timestamp and is converted back has the same second and nanoseconds.
pub proof fn law_chrono_is_kept(dt: NaiveDateTime, t: Timestamp, back: NaiveDateTime)
    requires
        timestamp::in_range(
            chrono_time::utc_seconds(dt) as int,
            chrono_time::utc_subsec_nanos(dt) as int,
        ),
        call_ensures(<Timestamp as From<NaiveDateTime>>::from, (dt,), t),
        call_ensures(<NaiveDateTime as From<Timestamp>>::from, (t,), back),
    ensures
        chrono_time::utc_seconds(back) == chrono_time::utc_seconds(dt),
        chrono_time::utc_subsec_nanos(back) == chrono_time::utc_subsec_nanos(dt),
{
    broadcast use Timestamp::lemma_of;

}

/// A timestamp that is stored as a `timestamptz` value and read again keeps its microseconds.
pub proof fn law_timestamptz_round_trip(
    t: Timestamp,
    stored: [u8; 8],
    raw: &[u8],
    r: Result<Timestamp, TimestamptzError>,
)
    requires
        t.wf(),
        call_ensures(Timestamp::to_timestamptz, (&t,), stored),
        raw@ == stored@,
        call_ensures(Timestamp::from_timestamptz, (raw,), r),
    ensures
        r matches Ok(u) && u.seconds() == t.seconds() && u.subsec_nanos() == t.subsec_nanos()
            / 1_000 * 1_000,
{
}

/// A `timestamptz` value that is read and stored again is the same.
pub proof fn law_timestamptz_is_stored_back(
    raw: &[u8],
    r: Result<Timestamp, TimestamptzError>,
    t: Timestamp,
    stored: [u8; 8],
)
    requires
        call_ensures(Timestamp::from_timestamptz, (raw,), r),
        r == Ok::<Timestamp, TimestamptzError>(t),
        call_ensures(Timestamp::to_timestamptz, (&t,), stored),
    ensures
        stored@ == raw@,
{
    timestamptz::lemma_signed_big_endian_unique(stored@, raw@);
}

}
