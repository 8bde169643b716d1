//! The text of a timestamp.
use crate::ascii::{COLON, DOT, LETTER_T, LETTER_Z, MINUS};
use crate::calendar;
use crate::calendar::Date;
use crate::digits;
use vstd::prelude::*;

verus! {

/// `YYYY-MM-DD`
pub open spec fn date_text(date: Date) -> Seq<u8> {
    digits::decimal(date.year, 4) + seq![MINUS] + digits::decimal(date.month, 2) + seq![MINUS]
        + digits::decimal(date.day, 2)
}

/// `HH:mm:ss`, for a second of the day.
pub open spec fn time_text(second_of_day: int) -> Seq<u8> {
    digits::decimal(second_of_day / 3600, 2) + seq![COLON] + digits::decimal(
        second_of_day / 60 % 60,
        2,
    ) + seq![COLON] + digits::decimal(second_of_day % 60, 2)
}

/// The fraction of a second: nothing where it is zero, otherwise a dot and as few
/// of 3, 6 or 9 digits as hold it.
pub open spec fn fraction_text(nanos: int) -> Seq<u8> {
    if nanos == 0 {
        Seq::empty()
    } else if nanos % 1_000_000 == 0 {
        seq![DOT] + digits::decimal(nanos / 1_000_000, 3)
    } else if nanos % 1_000 == 0 {
        seq![DOT] + digits::decimal(nanos / 1_000, 6)
    } else {
        seq![DOT] + digits::decimal(nanos, 9)
    }
}

/// The text of a point in time, given in seconds since the Unix epoch and
/// nanoseconds: `YYYY-MM-DDTHH:mm:ss[.nnn]Z`.
pub open spec fn timestamp_text(seconds: int, nanos: int) -> Seq<u8> {
    date_text(calendar::date_of(seconds / 86_400)) + seq![LETTER_T] + time_text(seconds % 86_400)
        + fraction_text(nanos) + seq![LETTER_Z]
}

}
