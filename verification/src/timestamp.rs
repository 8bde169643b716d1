//! Points in time between the years 1 and 9999.
use crate::ascii::{LETTER_Z, MINUS, PLUS};
use crate::calendar::{SECONDS_MAX, SECONDS_MIN};
use crate::error::TimestampError;
use crate::parse;
use crate::parse::{decode_nanos, decode_offset, decode_seconds};
use core::cmp::Ordering;
use core::str::FromStr;
use vstd::prelude::*;

verus! {

/// A point in time: signed seconds since `1970-01-01T00:00:00Z`, and nanoseconds
/// that are added to them. `(-5, 200_000_000)` is 4.8 seconds before the epoch.
///
/// Every `Timestamp` lies between `0001-01-01T00:00:00Z` and
/// `9999-12-31T23:59:59.999999999Z`, and has fewer than 1_000_000_000
/// nanoseconds.
#[derive(Copy, Clone, PartialEq, Eq, Ord, Hash, Debug, Structural)]
pub struct Timestamp {
    seconds: i64,
    nanos: u32,
}

/// Seconds and nanoseconds are those of a timestamp.
pub open spec fn in_range(seconds: int, nanos: int) -> bool {
    SECONDS_MIN <= seconds <= SECONDS_MAX && 0 <= nanos < 1_000_000_000
}

impl View for Timestamp {
    type V = int;

    /// Nanoseconds since the Unix epoch.
    open spec fn view(&self) -> int {
        self.seconds() * 1_000_000_000 + self.subsec_nanos()
    }
}

impl Timestamp {
    pub closed spec fn spec_seconds(&self) -> i64 {
        self.seconds
    }

    pub closed spec fn spec_subsec_nanos(&self) -> u32 {
        self.nanos
    }

    #[verifier::type_invariant]
    pub open spec fn wf(&self) -> bool {
        in_range(self.spec_seconds() as int, self.spec_subsec_nanos() as int)
    }

    /// The timestamp with the given parts.
    pub closed spec fn of(seconds: int, nanos: int) -> Timestamp {
        Timestamp { seconds: seconds as i64, nanos: nanos as u32 }
    }

    /// The timestamp at a number of nanoseconds since the Unix epoch. Before the first
    /// second of year 1 it is that second, after the last second of year 9999 it is
    /// that one, without a fraction.
    pub open spec fn saturated(nanos: int) -> Timestamp {
        let seconds = nanos / 1_000_000_000;
        if seconds < SECONDS_MIN {
            Timestamp::of(SECONDS_MIN as int, 0)
        } else if seconds > SECONDS_MAX {
            Timestamp::of(SECONDS_MAX as int, 0)
        } else {
            Timestamp::of(seconds, nanos % 1_000_000_000)
        }
    }

    /// The parts of a timestamp are those that it was made of.
    pub broadcast proof fn lemma_of(seconds: int, nanos: int)
        requires
            in_range(seconds, nanos),
        ensures
            (#[trigger] Timestamp::of(seconds, nanos)).seconds() == seconds,
            Timestamp::of(seconds, nanos).subsec_nanos() == nanos,
    {
    }

    /// A timestamp is made of its parts.
    pub proof fn lemma_parts(self)
        ensures
            self == Timestamp::of(self.seconds() as int, self.subsec_nanos() as int),
    {
    }

    fn new_unchecked(seconds: i64, nanos: u32) -> (r: Timestamp)
        requires
            in_range(seconds as int, nanos as int),
        ensures
            r.seconds() == seconds,
            r.subsec_nanos() == nanos,
            r == Timestamp::of(seconds as int, nanos as int),
    {
        Timestamp { seconds, nanos }
    }

    /// Makes a timestamp of Unix seconds and nanoseconds, or returns
    /// [`TimestampError::OutOfRange`] where they are none of a timestamp.
    pub fn from_unix(seconds: i64, nanos: u32) -> (r: Result<Timestamp, TimestampError>)
        ensures
            r is Ok <==> in_range(seconds as int, nanos as int),
            r matches Ok(t) ==> t.seconds() == seconds && t.subsec_nanos() == nanos,
            r matches Err(e) ==> e == TimestampError::OutOfRange,
    {
        if seconds < SECONDS_MIN || seconds > SECONDS_MAX || nanos >= 1_000_000_000 {
            return Err(TimestampError::OutOfRange);
        }
        Ok(Timestamp::new_unchecked(seconds, nanos))
    }

    /// The timestamp at Unix seconds and nanoseconds, of which there may be more than
    /// a second. What lies outside the years 1 to 9999 saturates.
    pub fn saturating_from_unix(seconds: i64, nanos: u32) -> (r: Timestamp)
        ensures
            r == Timestamp::saturated(seconds * 1_000_000_000 + nanos),
    {
        if seconds > SECONDS_MAX {
            return Timestamp::new_unchecked(SECONDS_MAX, 0);
        }
        if seconds < SECONDS_MIN - 4 {
            return Timestamp::new_unchecked(SECONDS_MIN, 0);
        }
        let whole: i64 = seconds + (nanos / 1_000_000_000) as i64;
        if whole > SECONDS_MAX {
            Timestamp::new_unchecked(SECONDS_MAX, 0)
        } else if whole < SECONDS_MIN {
            Timestamp::new_unchecked(SECONDS_MIN, 0)
        } else {
            Timestamp::new_unchecked(whole, nanos % 1_000_000_000)
        }
    }

    /// The timestamp that lies a number of seconds and nanoseconds before or after the
    /// Unix epoch. What lies outside the years 1 to 9999 saturates.
    pub fn from_epoch_distance(before: bool, secs: u64, nanos: u32) -> (r: Timestamp)
        requires
            nanos < 1_000_000_000,
        ensures
            r == Timestamp::saturated(
                if before {
                    -(secs * 1_000_000_000 + nanos)
                } else {
                    secs * 1_000_000_000 + nanos
                },
            ),
    {
        if !before {
            if secs > SECONDS_MAX as u64 {
                Timestamp::new_unchecked(SECONDS_MAX, 0)
            } else {
                Timestamp::saturating_from_unix(secs as i64, nanos)
            }
        } else if secs > 62_135_596_800 {
            Timestamp::new_unchecked(SECONDS_MIN, 0)
        } else if nanos > 0 {
            Timestamp::saturating_from_unix(-(secs as i64) - 1, 1_000_000_000 - nanos)
        } else {
            Timestamp::saturating_from_unix(-(secs as i64), 0)
        }
    }

    /// How far a timestamp lies from the Unix epoch, in seconds and nanoseconds, and
    /// whether it lies before it.
    pub fn epoch_distance(&self) -> (r: (bool, u64, u32))
        ensures
            r.0 <==> self@ < 0,
            r.2 < 1_000_000_000,
            self@ == (if r.0 {
                -(r.1 * 1_000_000_000 + r.2)
            } else {
                r.1 * 1_000_000_000 + r.2
            }),
    {
        proof {
            use_type_invariant(self);
        }
        if self.seconds >= 0 {
            (false, self.seconds as u64, self.nanos)
        } else if self.nanos == 0 {
            (true, (-self.seconds) as u64, 0)
        } else {
            // The nanoseconds lead towards the epoch.
            (true, (-self.seconds - 1) as u64, 1_000_000_000 - self.nanos)
        }
    }

    /// The signed seconds since the Unix epoch.
    #[verifier::when_used_as_spec(spec_seconds)]
    #[must_use]
    pub fn seconds(&self) -> (r: i64)
        ensures
            r == self.seconds(),
            SECONDS_MIN <= r <= SECONDS_MAX,
    {
        proof {
            use_type_invariant(self);
        }
        self.seconds
    }

    /// The nanoseconds after the whole second.
    #[verifier::when_used_as_spec(spec_subsec_nanos)]
    #[must_use]
    pub fn subsec_nanos(&self) -> (r: u32)
        ensures
            r == self.subsec_nanos(),
            r < 1_000_000_000,
    {
        proof {
            use_type_invariant(self);
        }
        self.nanos
    }

    /// Reads a timestamp in ASCII: `YYYY-MM-DDTHH:mm:ss`, a fraction of 3, 6 or 9
    /// digits after a dot or none, and `Z` or an offset `+HH:MM` or `-HH:MM`.
    pub fn from_bytes(ascii: &[u8]) -> (r: Result<Timestamp, TimestampError>)
        ensures
            match r {
                Ok(t) => parse::parsed(ascii@) == Ok::<(int, int), TimestampError>(
                    (t.seconds() as int, t.subsec_nanos() as int),
                ),
                Err(e) => parse::parsed(ascii@) == Err::<(int, int), TimestampError>(e),
            },
    {
        let mut rest: &[u8] = ascii;
        let seconds: i64 = match decode_seconds(&mut rest) {
            Ok(v) => v,
            Err(e) => {
                return Err(e);
            },
        };
        if rest.len() == 0 {
            assert(rest@.skip(0) =~= rest@);
            assert(rest@.len() != seq![LETTER_Z].len());
            return Err(TimestampError::InvalidFormat);
        }
        let nanos: i32 = match decode_nanos(&mut rest) {
            Ok(v) => v,
            Err(e) => {
                return Err(e);
            },
        };
        if rest.len() == 0 {
            return Err(TimestampError::InvalidFormat);
        }
        let offset: i64 = if rest[0] == LETTER_Z {
            if rest.len() != 1 {
                return Err(TimestampError::InvalidFormat);
            }
            assert(rest@ =~= seq![LETTER_Z]);
            0
        } else if rest[0] == PLUS || rest[0] == MINUS {
            match decode_offset(rest, rest[0]) {
                Ok(v) => v,
                Err(e) => {
                    return Err(e);
                },
            }
        } else {
            return Err(TimestampError::InvalidFormat);
        };
        Timestamp::from_unix(seconds + offset, nanos as u32)
    }
}

impl FromStr for Timestamp {
    type Err = TimestampError;

    /// Reads a timestamp, as [`Timestamp::from_bytes`] does.
    fn from_str(s: &str) -> (r: Result<Timestamp, TimestampError>)
        ensures
            match r {
                Ok(t) => parse::parsed(vstd::utf8::encode_utf8(s@)) == Ok::<
                    (int, int),
                    TimestampError,
                >((t.seconds() as int, t.subsec_nanos() as int)),
                Err(e) => parse::parsed(vstd::utf8::encode_utf8(s@)) == Err::<
                    (int, int),
                    TimestampError,
                >(e),
            },
            exists|text: &[u8]|
                #[trigger] text@ == vstd::utf8::encode_utf8(s@) && call_ensures(
                    Timestamp::from_bytes,
                    (text,),
                    r,
                ),
    {
        Timestamp::from_bytes(s.as_bytes())
    }
}

/// `From::from` of a type to itself returns its argument.
pub assume_specification<A>[ <A as std::convert::From<A>>::from ](value: A) -> (r: A)
    ensures
        r == value,
;

impl TryFrom<(i64, u32)> for Timestamp {
    type Error = TimestampError;

    fn try_from(value: (i64, u32)) -> (r: Result<Timestamp, TimestampError>)
        ensures
            r is Ok <==> in_range(value.0 as int, value.1 as int),
            r matches Ok(t) ==> t.seconds() == value.0 && t.subsec_nanos() == value.1,
            r matches Err(e) ==> e == TimestampError::OutOfRange,
    {
        Timestamp::from_unix(value.0, value.1)
    }
}

impl vstd::std_specs::convert::TryFromSpecImpl<(i64, u32)> for Timestamp {
    open spec fn obeys_try_from_spec() -> bool {
        true
    }

    open spec fn try_from_spec(value: (i64, u32)) -> Result<Timestamp, TimestampError> {
        if in_range(value.0 as int, value.1 as int) {
            Ok(Timestamp::of(value.0 as int, value.1 as int))
        } else {
            Err(TimestampError::OutOfRange)
        }
    }
}

impl<'a> From<&'a Timestamp> for Timestamp {
    fn from(value: &'a Timestamp) -> (r: Timestamp) {
        *value
    }
}

impl<'a> vstd::std_specs::convert::FromSpecImpl<&'a Timestamp> for Timestamp {
    open spec fn obeys_from_spec() -> bool {
        true
    }

    open spec fn from_spec(value: &'a Timestamp) -> Timestamp {
        *value
    }
}

/// Timestamps are ordered by time.
impl PartialOrd for Timestamp {
    fn partial_cmp(&self, other: &Timestamp) -> (r: Option<Ordering>) {
        proof {
            use_type_invariant(self);
            use_type_invariant(other);
        }
        if self.seconds < other.seconds {
            Some(Ordering::Less)
        } else if self.seconds > other.seconds {
            Some(Ordering::Greater)
        } else if self.nanos < other.nanos {
            Some(Ordering::Less)
        } else if self.nanos > other.nanos {
            Some(Ordering::Greater)
        } else {
            Some(Ordering::Equal)
        }
    }
}

impl vstd::std_specs::cmp::PartialOrdSpecImpl for Timestamp {
    open spec fn obeys_partial_cmp_spec() -> bool {
        true
    }

    open spec fn partial_cmp_spec(&self, other: &Timestamp) -> Option<Ordering> {
        if self@ < other@ {
            Some(Ordering::Less)
        } else if self@ > other@ {
            Some(Ordering::Greater)
        } else {
            Some(Ordering::Equal)
        }
    }
}

}
