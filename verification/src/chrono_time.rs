//! Conversions from and to the date and time of `chrono`.
//!
//! A `chrono::DateTime` of any time zone holds its point in time as a
//! `chrono::NaiveDateTime` in UTC, which its method `naive_utc` gives and
//! `NaiveDateTime::and_utc` turns back. The conversions are between that and a
//! [`Timestamp`].
use crate::calendar::SECONDS_MIN;
use crate::timestamp;
use crate::timestamp::Timestamp;
use chrono::{DateTime, NaiveDateTime, Utc};
use vstd::prelude::*;

verus! {

/// `chrono::NaiveDateTime`, a date and a time of day without a time zone.
#[verifier::external_type_specification]
#[verifier::external_body]
pub struct ExNaiveDateTime(NaiveDateTime);

/// The Unix second of a date and time in UTC.
pub uninterp spec fn utc_seconds(t: NaiveDateTime) -> i64;

/// The nanoseconds after the Unix second of a date and time in UTC.
pub uninterp spec fn utc_subsec_nanos(t: NaiveDateTime) -> u32;

/// `DateTime::timestamp`, of the date and time in UTC.
#[verifier::external_body]
fn utc_timestamp(t: &NaiveDateTime) -> (r: i64)
    ensures
        r == utc_seconds(*t),
{
    t.and_utc().timestamp()
}

/// `DateTime::timestamp_subsec_nanos`, of the date and time in UTC. It can exceed
/// 999_999_999, but not 1_999_999_999, in a leap second.
#[verifier::external_body]
fn utc_timestamp_subsec_nanos(t: &NaiveDateTime) -> (r: u32)
    ensures
        r == utc_subsec_nanos(*t),
        r < 2_000_000_000,
{
    t.and_utc().timestamp_subsec_nanos()
}

/// `DateTime::from_timestamp`, with the result in UTC: it succeeds for every second of
/// the years 1 to 9999 with fewer than 1_000_000_000 nanoseconds, and where it
/// succeeds, `timestamp` and `timestamp_subsec_nanos` give its arguments back.
#[verifier::external_body]
fn utc_from_timestamp(secs: i64, nsecs: u32) -> (r: Option<NaiveDateTime>)
    ensures
        timestamp::in_range(secs as int, nsecs as int) ==> r is Some,
        r matches Some(t) ==> utc_seconds(t) == secs && utc_subsec_nanos(t) == nsecs,
{
    match DateTime::<Utc>::from_timestamp(secs, nsecs) {
        Some(t) => Some(t.naive_utc()),
        None => None,
    }
}

/// What lies outside the years 1 to 9999 saturates: a Unix second before them is their first
/// second, one after them their last, whatever the nanoseconds. Within those years a
/// leap second runs into the second after it; the one that ends them is their last second.
impl From<NaiveDateTime> for Timestamp {
    fn from(value: NaiveDateTime) -> (r: Timestamp) {
        let seconds: i64 = utc_timestamp(&value);
        let nanos: u32 = utc_timestamp_subsec_nanos(&value);
        if seconds < SECONDS_MIN {
            Timestamp::saturating_from_unix(SECONDS_MIN, 0)
        } else {
            Timestamp::saturating_from_unix(seconds, nanos)
        }
    }
}

impl vstd::std_specs::convert::FromSpecImpl<NaiveDateTime> for Timestamp {
    open spec fn obeys_from_spec() -> bool {
        true
    }

    open spec fn from_spec(value: NaiveDateTime) -> Timestamp {
        if utc_seconds(value) < SECONDS_MIN {
            Timestamp::of(SECONDS_MIN as int, 0)
        } else {
            Timestamp::saturated(utc_seconds(value) * 1_000_000_000 + utc_subsec_nanos(value))
        }
    }
}

impl From<Timestamp> for NaiveDateTime {
    fn from(value: Timestamp) -> (r: NaiveDateTime)
        ensures
            utc_seconds(r) == value.seconds(),
            utc_subsec_nanos(r) == value.subsec_nanos(),
    {
        utc_from_timestamp(value.seconds(), value.subsec_nanos()).unwrap()
    }
}

impl vstd::std_specs::convert::FromSpecImpl<Timestamp> for NaiveDateTime {
    open spec fn obeys_from_spec() -> bool {
        false
    }

    open spec fn from_spec(value: Timestamp) -> NaiveDateTime {
        arbitrary()
    }
}

}
