//! Which points in time timestamps are made of, and what they are converted to.
use crate::chrono_time;
use crate::error::TimestampError;
use crate::system_time;
use crate::timestamp::Timestamp;
use chrono::NaiveDateTime;
use core::cmp::Ordering;
use std::time::{Duration, SystemTime};
use vstd::prelude::*;

verus! {

/// A timestamp counts nanoseconds from the epoch: a second is 1_000_000_000 of them, and the
/// getters give the two parts.
pub proof fn law_parts_make_the_time(t: Timestamp, seconds: i64, nanos: u32)
    requires
        call_ensures(Timestamp::seconds, (&t,), seconds),
        call_ensures(Timestamp::subsec_nanos, (&t,), nanos),
    ensures
        t.seconds() == seconds,
        t.subsec_nanos() == nanos,
        t@ == seconds * 1_000_000_000 + nanos,
        -62_135_596_800 <= seconds <= 253_402_300_799,
        nanos < 1_000_000_000,
{
}

/// `from_unix` makes a timestamp of exactly the seconds from `0001-01-01T00:00:00Z` to
/// `9999-12-31T23:59:59Z` with less than a second of nanoseconds, and it has those parts.
pub proof fn law_from_unix(seconds: i64, nanos: u32, r: Result<Timestamp, TimestampError>)
    requires
        call_ensures(Timestamp::from_unix, (seconds, nanos), r),
    ensures
        if -62_135_596_800 <= seconds <= 253_402_300_799 && nanos < 1_000_000_000 {
            r matches Ok(t) && t.seconds() == seconds && t.subsec_nanos() == nanos
        } else {
            r == Err::<Timestamp, TimestampError>(TimestampError::OutOfRange)
        },
{
}

/// A pair of seconds and nanoseconds is converted as `from_unix` does it.
pub proof fn law_try_from_pair(value: (i64, u32), r: Result<Timestamp, TimestampError>)
    requires
        call_ensures(<Timestamp as TryFrom<(i64, u32)>>::try_from, (value,), r),
    ensures
        if -62_135_596_800 <= value.0 <= 253_402_300_799 && value.1 < 1_000_000_000 {
            r matches Ok(t) && t.seconds() == value.0 && t.subsec_nanos() == value.1
        } else {
            r == Err::<Timestamp, TimestampError>(TimestampError::OutOfRange)
        },
{
}

/// A reference is converted to the timestamp that it refers to.
pub proof fn law_from_reference(value: &Timestamp, r: Timestamp)
    requires
        call_ensures(<Timestamp as From<&Timestamp>>::from, (value,), r),
    ensures
        r == *value,
{
}

/// Timestamps are compared by their time: the seconds decide, and the nanoseconds where the
/// seconds are equal.
pub proof fn law_order_is_by_time(a: Timestamp, b: Timestamp, r: Option<Ordering>)
    requires
        -62_135_596_800 <= a.seconds() <= 253_402_300_799,
        -62_135_596_800 <= b.seconds() <= 253_402_300_799,
        a.subsec_nanos() < 1_000_000_000,
        b.subsec_nanos() < 1_000_000_000,
        call_ensures(Timestamp::partial_cmp, (&a, &b), r),
    ensures
        r == Some(Ordering::Less) <==> a@ < b@,
        r == Some(Ordering::Equal) <==> a@ == b@,
        r == Some(Ordering::Greater) <==> a@ > b@,
        r == Some(Ordering::Less) <==> a.seconds() < b.seconds() || (a.seconds() == b.seconds()
            && a.subsec_nanos() < b.subsec_nanos()),
        r == Some(Ordering::Equal) <==> a == b,
{
    a.lemma_parts();
    b.lemma_parts();
}

/// The operators compare by time too: less is earlier, and greater is later.
pub proof fn law_operators_are_by_time(
    a: Timestamp,
    b: Timestamp,
    less: bool,
    at_most: bool,
    greater: bool,
    at_least: bool,
)
    requires
        call_ensures(Timestamp::lt, (&a, &b), less),
        call_ensures(Timestamp::le, (&a, &b), at_most),
        call_ensures(Timestamp::gt, (&a, &b), greater),
        call_ensures(Timestamp::ge, (&a, &b), at_least),
    ensures
        less <==> a@ < b@,
        at_most <==> a@ <= b@,
        greater <==> a@ > b@,
        at_least <==> a@ >= b@,
{
}

/// `saturating_from_unix` carries whole seconds of nanoseconds over. A time before year 1 is its
/// first second, and one after year 9999 is the last second.
pub proof fn law_saturating_from_unix(seconds: i64, nanos: u32, t: Timestamp)
    requires
        call_ensures(Timestamp::saturating_from_unix, (seconds, nanos), t),
    ensures
        ({
            let whole = seconds + nanos / 1_000_000_000;
            if whole < -62_135_596_800 {
                t.seconds() == -62_135_596_800 && t.subsec_nanos() == 0
            } else if whole > 253_402_300_799 {
                t.seconds() == 253_402_300_799 && t.subsec_nanos() == 0
            } else {
                t.seconds() == whole && t.subsec_nanos() == nanos % 1_000_000_000
            }
        }),
{
    broadcast use Timestamp::lemma_of;

    lemma_carried(seconds as int, nanos as int);
}

proof fn lemma_carried(seconds: int, nanos: int)
    requires
        0 <= nanos,
    ensures
        (seconds * 1_000_000_000 + nanos) / 1_000_000_000 == seconds + nanos / 1_000_000_000,
        (seconds * 1_000_000_000 + nanos) % 1_000_000_000 == nanos % 1_000_000_000,
{
}

/// `from_epoch_distance` gives the time that lies that far from the epoch, on the side that it
/// was asked for. A time before year 1 is its first second, and one after year 9999 is the
/// last second.
pub proof fn law_from_epoch_distance(before: bool, secs: u64, nanos: u32, t: Timestamp)
    requires
        nanos < 1_000_000_000,
        call_ensures(Timestamp::from_epoch_distance, (before, secs, nanos), t),
    ensures
        ({
            let length = secs * 1_000_000_000 + nanos;
            let time = if before {
                -length
            } else {
                length
            };
            if time < -62_135_596_800_000_000_000 {
                t.seconds() == -62_135_596_800 && t.subsec_nanos() == 0
            } else if time >= 253_402_300_800_000_000_000 {
                t.seconds() == 253_402_300_799 && t.subsec_nanos() == 0
            } else {
                t.seconds() * 1_000_000_000 + t.subsec_nanos() == time && t.subsec_nanos()
                    < 1_000_000_000
            }
        }),
{
    broadcast use Timestamp::lemma_of;

}

/// `epoch_distance` tells on which side of the epoch a timestamp lies, and how far from it, with
/// less than a second of nanoseconds.
pub proof fn law_epoch_distance(t: Timestamp, r: (bool, u64, u32))
    requires
        -62_135_596_800 <= t.seconds() <= 253_402_300_799,
        t.subsec_nanos() < 1_000_000_000,
        call_ensures(Timestamp::epoch_distance, (&t,), r),
    ensures
        r.0 <==> t.seconds() < 0,
        r.2 < 1_000_000_000,
        r.1 * 1_000_000_000 + r.2 == (if r.0 {
            -(t.seconds() * 1_000_000_000 + t.subsec_nanos())
        } else {
            t.seconds() * 1_000_000_000 + t.subsec_nanos()
        }),
{
}

/// A `SystemTime` becomes the timestamp at its distance from the epoch. A time before year 1 is
/// its first second, and one after year 9999 is the last second.
pub proof fn law_from_system_time(st: SystemTime, t: Timestamp)
    requires
        call_ensures(<Timestamp as From<SystemTime>>::from, (st,), t) || call_ensures(
            <Timestamp as From<&SystemTime>>::from,
            (&st,),
            t,
        ),
    ensures
        ({
            let time = system_time::nanos_since_epoch(st);
            if time < -62_135_596_800_000_000_000 {
                t.seconds() == -62_135_596_800 && t.subsec_nanos() == 0
            } else if time >= 253_402_300_800_000_000_000 {
                t.seconds() == 253_402_300_799 && t.subsec_nanos() == 0
            } else {
                t.seconds() * 1_000_000_000 + t.subsec_nanos() == time && t.subsec_nanos()
                    < 1_000_000_000
            }
        }),
{
    broadcast use Timestamp::lemma_of;

}

/// `now` is the conversion of a time that the clock gave.
pub proof fn law_now_reads_the_clock(t: Timestamp)
    requires
        call_ensures(Timestamp::now, (), t),
    ensures
        exists|st: SystemTime|
            {
                let time = #[trigger] system_time::nanos_since_epoch(st);
                &&& call_ensures(SystemTime::now, (), st)
                &&& if time < -62_135_596_800_000_000_000 {
                    t.seconds() == -62_135_596_800 && t.subsec_nanos() == 0
                } else if time >= 253_402_300_800_000_000_000 {
                    t.seconds() == 253_402_300_799 && t.subsec_nanos() == 0
                } else {
                    t.seconds() * 1_000_000_000 + t.subsec_nanos() == time
                }
            },
{
    broadcast use Timestamp::lemma_of;

}

/// Whatever `to_system_time` gives, a time or none, is what the platform gives for the epoch and
/// a duration of exactly the timestamp's distance from it: it adds the duration from the epoch
/// on, and takes it away before.
pub proof fn law_to_system_time_asks_the_platform(t: Timestamp, r: Option<SystemTime>)
    requires
        call_ensures(Timestamp::to_system_time, (&t,), r),
    ensures
        ({
            let time = t.seconds() * 1_000_000_000 + t.subsec_nanos();
            exists|epoch: SystemTime, d: Duration|
                {
                    &&& #[trigger] system_time::nanos_since_epoch(epoch) == 0
                    &&& time >= 0 ==> #[trigger] system_time::duration_nanos(d) == time
                        && call_ensures(SystemTime::checked_add, (&epoch, d), r)
                    &&& time < 0 ==> system_time::duration_nanos(d) == -time && call_ensures(
                        SystemTime::checked_sub,
                        (&epoch, d),
                        r,
                    )
                }
        }),
{
}

/// A date and time of `chrono` becomes the timestamp at its Unix second and nanoseconds, where a
/// leap second's whole second is carried over. A Unix second before year 1 is its first
/// second, and a time after year 9999 is the last second.
pub proof fn law_from_chrono(dt: NaiveDateTime, t: Timestamp)
    requires
        call_ensures(<Timestamp as From<NaiveDateTime>>::from, (dt,), t),
    ensures
        ({
            let second = chrono_time::utc_seconds(dt);
            let nanos = chrono_time::utc_subsec_nanos(dt);
            let whole = second + nanos / 1_000_000_000;
            if second < -62_135_596_800 {
                t.seconds() == -62_135_596_800 && t.subsec_nanos() == 0
            } else if whole > 253_402_300_799 {
                t.seconds() == 253_402_300_799 && t.subsec_nanos() == 0
            } else {
                t.seconds() == whole && t.subsec_nanos() == nanos % 1_000_000_000
            }
        }),
{
    broadcast use Timestamp::lemma_of;

    lemma_carried(
        chrono_time::utc_seconds(dt) as int,
        chrono_time::utc_subsec_nanos(dt) as int,
    );
}

/// A timestamp becomes the date and time of `chrono` with its seconds and nanoseconds.
pub proof fn law_to_chrono(t: Timestamp, dt: NaiveDateTime)
    requires
        call_ensures(<NaiveDateTime as From<Timestamp>>::from, (t,), dt),
    ensures
        chrono_time::utc_seconds(dt) == t.seconds(),
        chrono_time::utc_subsec_nanos(dt) == t.subsec_nanos(),
{
}

/// Each error has its message.
pub proof fn law_error_messages(e: TimestampError, r: String)
    requires
        call_ensures(TimestampError::to_string, (&e,), r),
    ensures
        e == TimestampError::InvalidFormat ==> r@ == "invalid timestamp format"@,
        e == TimestampError::OutOfRange ==> r@ == "timestamp value out of range"@,
{
}

}
