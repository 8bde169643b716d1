//! Timestamps in the format of RFC 3339, parsed and formatted with verified code.
//!
//! A [`Timestamp`] is a point in time between the years 1 and 9999, to the nanosecond.
//! It is read from a text such as `2026-02-25T14:30:00.250+01:00`:
//!
//! - `YYYY-MM-DDTHH:mm:ss`, with the year 0001 to 9999, the month 01 to 12, the day 01 to 31,
//!   the hour 00 to 23, the minute and the second 00 to 59,
//! - no fraction of a second, or a dot and exactly 3, 6 or 9 digits,
//! - `Z`, or an offset from UTC of the form `+HH:MM` or `-HH:MM`,
//!
//! and nothing after that. Any other text is [`TimestampError::InvalidFormat`]; a text whose
//! offset leads out of the years 1 to 9999 is [`TimestampError::OutOfRange`].
//!
//! A [`Buffer`] writes the text of a timestamp, always in UTC, without an allocation.
//!
//! The module [`laws`] holds what is proved of the functions together: above all that every
//! timestamp is read back from its text.

pub mod ascii;
pub mod buffer;
pub mod calendar;
pub mod chrono_time;
pub mod digits;
pub mod error;
pub mod laws;
pub mod parse;
pub mod system_time;
pub mod text;
pub mod timestamp;
pub mod timestamptz;

pub use buffer::Buffer;
pub use error::TimestampError;
pub use timestamp::Timestamp;
