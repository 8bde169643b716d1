//! What the day counts of the calendar are.
use crate::calendar;
use crate::calendar::{date_from_day_count, jsondec_epochdays, jsondec_unixtime};
use vstd::prelude::*;

verus! {

/// Days are counted from 1970-01-01. The day after one in its month counts one more, each month
/// begins its length after the one before it, and each year 31 days after its December. A
/// fourth year has a 29th of February, unless it is a hundredth and no four hundredth one.
pub proof fn law_days_are_counted(y: int, m: int, d: int)
    requires
        1 <= m <= 12,
    ensures
        calendar::epoch_days(1970, 1, 1) == 0,
        calendar::epoch_days(y, m, d + 1) == calendar::epoch_days(y, m, d) + 1,
        m < 12 ==> calendar::epoch_days(y, m + 1, 1) == calendar::epoch_days(y, m, 1) + (if m
            == 2 {
            if y % 4 == 0 && (y % 100 != 0 || y % 400 == 0) {
                29int
            } else {
                28
            }
        } else if m == 4 || m == 6 || m == 9 || m == 11 {
            30
        } else {
            31
        }),
        calendar::epoch_days(y + 1, 1, 1) == calendar::epoch_days(y, 12, 1) + 31,
{
    calendar::law_year_length(y);
}

/// `jsondec_epochdays` counts the days to a date.
pub proof fn law_epochdays_counts_days(y: i32, m: i32, d: i32, r: i32)
    requires
        0 <= y,
        1 <= m <= 12,
        1 <= d <= 31,
        calendar::epoch_days(y as int, m as int, d as int) + 2_472_632 <= i32::MAX,
        call_ensures(jsondec_epochdays, (y, m, d), r),
    ensures
        r == calendar::epoch_days(y as int, m as int, d as int),
{
}

/// `jsondec_unixtime` counts 86_400 seconds to a day, 3_600 to an hour and 60 to a minute.
pub proof fn law_unixtime_counts_seconds(
    y: i32,
    m: i32,
    d: i32,
    h: i32,
    min: i32,
    s: i32,
    r: i64,
)
    requires
        0 <= y,
        1 <= m <= 12,
        1 <= d <= 31,
        calendar::epoch_days(y as int, m as int, d as int) + 2_472_632 <= i32::MAX,
        call_ensures(jsondec_unixtime, (y, m, d, h, min, s), r),
    ensures
        r == calendar::epoch_days(y as int, m as int, d as int) * 86_400 + h * 3_600 + min * 60 + s,
{
}

/// `date_from_day_count` gives a date that occurs in the calendar, in the years 1 to 9999, and
/// that lies as many days after 0001-01-01 as it was asked for.
pub proof fn law_day_count_gives_its_date(days: i32, r: (u32, u32, u32))
    requires
        0 <= days <= 3_652_058,
        call_ensures(date_from_day_count, (days,), r),
    ensures
        1 <= r.0 <= 9999,
        1 <= r.1 <= 12,
        1 <= r.2 <= (if r.1 == 2 {
            if r.0 % 4 == 0 && (r.0 % 100 != 0 || r.0 % 400 == 0) {
                29int
            } else {
                28
            }
        } else if r.1 == 4 || r.1 == 6 || r.1 == 9 || r.1 == 11 {
            30
        } else {
            31
        }),
        calendar::epoch_days(r.0 as int, r.1 as int, r.2 as int) - calendar::epoch_days(1, 1, 1)
            == days,
{
    calendar::law_every_day_has_a_date(days - 719_162);
}

}
