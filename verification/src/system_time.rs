//! Conversions from and to the clock of the system.
use crate::timestamp::Timestamp;
use std::time::{Duration, SystemTime, UNIX_EPOCH};
use vstd::prelude::*;

verus! {

/// `std::time::SystemTime`, a point in time of the system's clock.
#[verifier::external_type_specification]
#[verifier::external_body]
pub struct ExSystemTime(SystemTime);

/// How far a `SystemTime` lies after `UNIX_EPOCH`, in nanoseconds; negative before it.
pub uninterp spec fn nanos_since_epoch(t: SystemTime) -> int;

/// `SystemTime::now` reads the clock: nothing is promised of what it shows.
pub assume_specification[ SystemTime::now ]() -> SystemTime;

/// `SystemTime::duration_since`, asked for the time since `UNIX_EPOCH`: it succeeds
/// from the epoch on, with the distance, and fails before it, with the distance
/// in the error. Either way the distance is handed on as whole seconds and fewer
/// than 1_000_000_000 nanoseconds.
#[verifier::external_body]
fn duration_since_epoch(t: SystemTime) -> (r: Result<(u64, u32), (u64, u32)>)
    ensures
        r matches Ok((secs, nanos)) ==> nanos < 1_000_000_000 && nanos_since_epoch(t) == secs
            * 1_000_000_000 + nanos,
        r matches Err((secs, nanos)) ==> nanos < 1_000_000_000 && nanos_since_epoch(t) == -(secs
            * 1_000_000_000 + nanos) && nanos_since_epoch(t) < 0,
{
    match t.duration_since(UNIX_EPOCH) {
        Ok(d) => Ok((d.as_secs(), d.subsec_nanos())),
        Err(e) => Err((e.duration().as_secs(), e.duration().subsec_nanos())),
    }
}

/// The length of a `Duration` in nanoseconds.
pub uninterp spec fn duration_nanos(d: Duration) -> int;

/// `Duration::new`: that many seconds and nanoseconds. It panics where more than `u64::MAX`
/// seconds come of them.
pub assume_specification[ Duration::new ](secs: u64, nanos: u32) -> (r: Duration)
    requires
        secs + nanos / 1_000_000_000 <= u64::MAX,
    ensures
        duration_nanos(r) == secs * 1_000_000_000 + nanos,
;

/// `UNIX_EPOCH`, which every distance is counted from.
#[verifier::external_body]
fn unix_epoch() -> (r: SystemTime)
    ensures
        nanos_since_epoch(r) == 0,
{
    UNIX_EPOCH
}

/// `SystemTime::checked_add`: the time that much later, or nothing where the platform's
/// `SystemTime` does not reach it. The precision of a `SystemTime` depends on the
/// platform; its documentation names one nanosecond on Linux and 100 on Windows. What
/// is claimed is the time to within 100 nanoseconds, and the exact one for a duration
/// that is a multiple of 100.
pub assume_specification[ SystemTime::checked_add ](t: &SystemTime, duration: Duration) -> (r:
    Option<SystemTime>)
    ensures
        r matches Some(later) ==> {
            let exact = nanos_since_epoch(*t) + duration_nanos(duration);
            &&& -100 < nanos_since_epoch(later) - exact < 100
            &&& duration_nanos(duration) % 100 == 0 ==> nanos_since_epoch(later) == exact
        },
;

/// `SystemTime::checked_sub`: the time that much earlier, or nothing where the platform's
/// `SystemTime` does not reach it, to the precision of `SystemTime::checked_add`.
pub assume_specification[ SystemTime::checked_sub ](t: &SystemTime, duration: Duration) -> (r:
    Option<SystemTime>)
    ensures
        r matches Some(earlier) ==> {
            let exact = nanos_since_epoch(*t) - duration_nanos(duration);
            &&& -100 < nanos_since_epoch(earlier) - exact < 100
            &&& duration_nanos(duration) % 100 == 0 ==> nanos_since_epoch(earlier) == exact
        },
;

/// `r` is what the platform finds at exactly `nanos` nanoseconds after the epoch, or before
/// it where they are negative.
pub open spec fn found_from_epoch(nanos: int, r: Option<SystemTime>) -> bool {
    exists|epoch: SystemTime, d: Duration|
        {
            &&& #[trigger] nanos_since_epoch(epoch) == 0
            &&& #[trigger] duration_nanos(d) == (if nanos < 0 { -nanos } else { nanos })
            &&& if nanos < 0 {
                call_ensures(SystemTime::checked_sub, (&epoch, d), r)
            } else {
                call_ensures(SystemTime::checked_add, (&epoch, d), r)
            }
        }
}

/// What lies outside the years 1 to 9999 saturates.
impl From<SystemTime> for Timestamp {
    fn from(value: SystemTime) -> (r: Timestamp) {
        match duration_since_epoch(value) {
            Ok((secs, nanos)) => Timestamp::from_epoch_distance(false, secs, nanos),
            Err((secs, nanos)) => Timestamp::from_epoch_distance(true, secs, nanos),
        }
    }
}

impl vstd::std_specs::convert::FromSpecImpl<SystemTime> for Timestamp {
    open spec fn obeys_from_spec() -> bool {
        true
    }

    open spec fn from_spec(value: SystemTime) -> Timestamp {
        Timestamp::saturated(nanos_since_epoch(value))
    }
}

impl<'a> From<&'a SystemTime> for Timestamp {
    fn from(value: &'a SystemTime) -> (r: Timestamp) {
        Timestamp::from(*value)
    }
}

impl<'a> vstd::std_specs::convert::FromSpecImpl<&'a SystemTime> for Timestamp {
    open spec fn obeys_from_spec() -> bool {
        true
    }

    open spec fn from_spec(value: &'a SystemTime) -> Timestamp {
        Timestamp::saturated(nanos_since_epoch(*value))
    }
}

impl Timestamp {
    /// The time that the timestamp stands for, as precisely as the platform can tell it, or
    /// `None` where the platform's `SystemTime` does not reach it.
    #[must_use]
    pub fn to_system_time(&self) -> (r: Option<SystemTime>)
        ensures
            found_from_epoch(self@, r),
            r matches Some(t) ==> {
                &&& -100 < nanos_since_epoch(t) - self@ < 100
                &&& self@ % 100 == 0 ==> nanos_since_epoch(t) == self@
            },
    {
        let (before, secs, nanos) = self.epoch_distance();
        let epoch: SystemTime = unix_epoch();
        let distance: Duration = Duration::new(secs, nanos);
        if before {
            epoch.checked_sub(distance)
        } else {
            epoch.checked_add(distance)
        }
    }

    /// The current time: what the clock gives, converted.
    #[must_use]
    pub fn now() -> (r: Timestamp)
        ensures
            exists|t: SystemTime|
                call_ensures(SystemTime::now, (), t) && r == Timestamp::saturated(
                    #[trigger] nanos_since_epoch(t),
                ),
    {
        Timestamp::from(SystemTime::now())
    }
}

}
