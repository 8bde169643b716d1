//! The errors of parsing and of range checks.
use vstd::prelude::*;

verus! {

/// Why a timestamp could not be made.
#[derive(Debug, Clone, Copy, PartialEq, Eq, Structural)]
#[non_exhaustive]
pub enum TimestampError {
    /// The input string had an invalid format.
    InvalidFormat,
    /// The timestamp value is out of the supported range (year 1 through
    /// year 9999, with fewer than 1_000_000_000 nanoseconds).
    OutOfRange,
}

impl TimestampError {
    /// The message of the error.
    pub fn to_string(&self) -> (r: String)
        ensures
            r@ == (match *self {
                TimestampError::InvalidFormat => "invalid timestamp format"@,
                TimestampError::OutOfRange => "timestamp value out of range"@,
            }),
    {
        match self {
            TimestampError::InvalidFormat => "invalid timestamp format".to_owned(),
            TimestampError::OutOfRange => "timestamp value out of range".to_owned(),
        }
    }
}

}
