//! The proleptic Gregorian calendar: dates, day counts and Unix seconds.
use vstd::prelude::*;

verus! {

/// Days from 0001-01-01 to 1970-01-01.
pub const CE_EPOCH_TO_UNIX_EPOCH_DAYS: i32 = 719_162;

/// The Unix second of `0001-01-01T00:00:00Z`.
pub const SECONDS_MIN: i64 = -62_135_596_800;

/// The Unix second of `9999-12-31T23:59:59Z`.
pub const SECONDS_MAX: i64 = 253_402_300_799;

/// A calendar date.
pub struct Date {
    pub year: int,
    pub month: int,
    pub day: int,
}

pub open spec fn is_leap_year(year: int) -> bool {
    year % 4 == 0 && (year % 100 != 0 || year % 400 == 0)
}

pub open spec fn days_in_year(year: int) -> int {
    if is_leap_year(year) { 366 } else { 365 }
}

pub open spec fn days_in_month(year: int, month: int) -> int {
    if month == 2 {
        if is_leap_year(year) { 29 } else { 28 }
    } else if month == 4 || month == 6 || month == 9 || month == 11 {
        30
    } else {
        31
    }
}

/// Days from the first of January of year 1 to the first of January of `year`.
pub open spec fn days_before_year(year: int) -> int {
    365 * (year - 1) + (year - 1) / 4 - (year - 1) / 100 + (year - 1) / 400
}

/// Days from the first of January to the first of `month`, in `year`.
pub open spec fn days_before_month(year: int, month: int) -> int
    decreases month,
{
    if month <= 1 {
        0
    } else {
        days_before_month(year, month - 1) + days_in_month(year, month - 1)
    }
}

/// Days from 1970-01-01 to a date. The day of the month counts on past the
/// end of the month: the 31st of February is the 3rd (or 2nd) of March.
pub open spec fn epoch_days(year: int, month: int, day: int) -> int {
    days_before_year(year) + days_before_month(year, month) + (day - 1) - 719_162
}

impl Date {
    /// The date occurs in the calendar.
    pub open spec fn exists_in_calendar(self) -> bool {
        &&& 1 <= self.month <= 12
        &&& 1 <= self.day <= days_in_month(self.year, self.month)
    }

    pub open spec fn epoch_days(self) -> int {
        epoch_days(self.year, self.month, self.day)
    }
}

/// The date that lies `days` days after 1970-01-01.
pub open spec fn date_of(days: int) -> Date {
    choose|date: Date| date.exists_in_calendar() && #[trigger] date.epoch_days() == days
}

proof fn lemma_days_before_month(year: int, month: int)
    requires
        1 <= month <= 12,
    ensures
        days_before_month(year, month) == (if month == 1 {
            0
        } else if month == 2 {
            31
        } else {
            days_in_year(year) - 306 + (if month == 3 {
                0int
            } else if month == 4 {
                31
            } else if month == 5 {
                61
            } else if month == 6 {
                92
            } else if month == 7 {
                122
            } else if month == 8 {
                153
            } else if month == 9 {
                184
            } else if month == 10 {
                214
            } else if month == 11 {
                245
            } else {
                275
            })
        }),
{
    reveal_with_fuel(days_before_month, 12);
}

proof fn lemma_step_by_4(n: int)
    ensures
        n / 4 == (n - 1) / 4 + (if n % 4 == 0 { 1int } else { 0 }),
{
}

proof fn lemma_step_by_100(n: int)
    ensures
        n / 100 == (n - 1) / 100 + (if n % 100 == 0 { 1int } else { 0 }),
        n % 100 == 0 ==> n % 4 == 0,
{
}

proof fn lemma_step_by_400(n: int)
    ensures
        n / 400 == (n - 1) / 400 + (if n % 400 == 0 { 1int } else { 0 }),
        n % 400 == 0 ==> n % 100 == 0,
{
}

/// Each year is as long as its months are together, and the next one begins
/// where it ends.
pub proof fn law_year_length(year: int)
    ensures
        days_before_year(year + 1) == days_before_year(year) + days_in_year(year),
        days_before_month(year, 12) + days_in_month(year, 12) == days_in_year(year),
{
    lemma_step_by_4(year);
    lemma_step_by_100(year);
    lemma_step_by_400(year);
    lemma_days_before_month(year, 12);
}

proof fn lemma_day_of_year(date: Date)
    requires
        date.exists_in_calendar(),
    ensures
        days_before_year(date.year) <= date.epoch_days() + 719_162 < days_before_year(date.year + 1),
{
    lemma_days_before_month(date.year, date.month);
    law_year_length(date.year);
}

proof fn lemma_years_ordered(a: int, b: int)
    requires
        a <= b,
    ensures
        days_before_year(a) <= days_before_year(b),
    decreases b - a,
{
    if a < b {
        lemma_years_ordered(a, b - 1);
        law_year_length(b - 1);
    }
}

/// A day count belongs to one date alone.
pub proof fn law_date_unique(a: Date, b: Date)
    requires
        a.exists_in_calendar(),
        b.exists_in_calendar(),
        a.epoch_days() == b.epoch_days(),
    ensures
        a == b,
{
    lemma_day_of_year(a);
    lemma_day_of_year(b);
    if a.year < b.year {
        lemma_years_ordered(a.year + 1, b.year);
    } else if b.year < a.year {
        lemma_years_ordered(b.year + 1, a.year);
    }
    lemma_days_before_month(a.year, a.month);
    lemma_days_before_month(b.year, b.month);
}

/// `date_of` undoes `epoch_days`.
pub proof fn law_date_of_epoch_days(date: Date)
    requires
        date.exists_in_calendar(),
    ensures
        date_of(date.epoch_days()) == date,
{
    let chosen = date_of(date.epoch_days());
    assert(chosen.exists_in_calendar() && chosen.epoch_days() == date.epoch_days());
    law_date_unique(chosen, date);
}

/// Days of the years 1 to 9999 are counted between their ends, also where the
/// day of the month runs over the end of a month.
pub proof fn lemma_epoch_days_range(year: int, month: int, day: int)
    requires
        1 <= year <= 9999,
        1 <= month <= 12,
        1 <= day <= 31,
    ensures
        -719_162 <= epoch_days(year, month, day) <= 2_932_896,
{
    lemma_days_before_month(year, month);
    lemma_years_ordered(1, year);
    lemma_years_ordered(year + 1, 10_000);
    law_year_length(year);
}

/// The number of the March-based year that holds a day, by centuries.
proof fn lemma_century(l: int, n: int, rest: int)
    requires
        0 <= l,
        n == 4 * l / 146_097,
        rest == l - (146_097 * n + 3) / 4,
    ensures
        n >= 0,
        (146_097 * n + 3) / 4 == 36_524 * n + (n + 3) / 4,
        0 <= rest <= 36_524,
        n % 4 != 0 ==> rest <= 36_523,
{
}

proof fn lemma_year_of_century(rest: int, i: int, r: int)
    requires
        0 <= rest <= 36_524,
        i == 4_000 * (rest + 1) / 1_461_001,
        r == rest - 1_461 * i / 4,
    ensures
        0 <= i <= 99,
        1_461 * i / 4 == 365 * i + i / 4,
        0 <= r <= 365,
        r == 365 ==> i % 4 == 3,
        r == 365 && i == 99 ==> rest == 36_524,
{
}

proof fn lemma_month_of_year(r: int, j: int, day: int)
    requires
        0 <= r <= 365,
        j == 80 * (r + 31) / 2_447,
        day == (r + 31) - 2_447 * j / 80,
    ensures
        1 <= j <= 12,
        1 <= day <= 31,
        j == 2 || j == 4 || j == 7 || j == 9 ==> day <= 30,
        j == 12 ==> day <= 29,
        j == 12 && r < 365 ==> day <= 28,
        r == day - 1 + (if j == 1 {
            0int
        } else if j == 2 {
            31
        } else if j == 3 {
            61
        } else if j == 4 {
            92
        } else if j == 5 {
            122
        } else if j == 6 {
            153
        } else if j == 7 {
            184
        } else if j == 8 {
            214
        } else if j == 9 {
            245
        } else if j == 10 {
            275
        } else if j == 11 {
            306
        } else {
            337
        }),
{
}

proof fn lemma_century_divisions(century: int, i: int)
    requires
        0 <= i <= 99,
    ensures
        (100 * century + i) / 4 == 25 * century + i / 4,
        (100 * century + i) / 100 == century,
        (100 * century + i) / 400 == century / 4,
{
}

proof fn lemma_hundredth_year(century: int)
    ensures
        (100 * century) % 4 == 0,
        (100 * century) % 100 == 0,
        (100 * century) % 400 == 100 * (century % 4),
{
    let q = century / 4;
    let r = century % 4;
    assert(100 * century == 400 * q + 100 * r);
}

proof fn lemma_other_year(century: int, i: int)
    requires
        0 < i < 100,
    ensures
        (100 * century + i) % 100 == i,
        (100 * century + i) % 4 == 0 <==> (i - 1) % 4 == 3,
{
}

proof fn lemma_century_leap_year(century: int, i: int)
    requires
        0 <= i <= 99,
    ensures
        is_leap_year(100 * century + i + 1) <==> (if i == 99 {
            (century + 1) % 4 == 0
        } else {
            i % 4 == 3
        }),
{
    if i == 99 {
        lemma_hundredth_year(century + 1);
    } else {
        lemma_other_year(century, i + 1);
    }
}

proof fn lemma_march_year(n: int, i: int)
    requires
        0 <= i <= 99,
    ensures
        days_before_year(100 * (n - 49) + i + 1) == 36_524 * n + (n + 3) / 4 + 365 * i + i / 4
            - 1_789_689,
        is_leap_year(100 * (n - 49) + i + 1) <==> (if i == 99 {
            n % 4 == 0
        } else {
            i % 4 == 3
        }),
{
    lemma_century_divisions(n - 49, i);
    lemma_century_leap_year(n - 49, i);
    assert((n - 49) / 4 == (n + 3) / 4 - 13);
    assert((n - 49 + 1) % 4 == n % 4);
}

/// What the day-count algorithm computes is a date of the calendar, and it
/// lies at the day count that it was computed from.
proof fn lemma_date_from_day_count(days: int, n: int, rest: int, i: int, r: int, j: int, date: Date)
    requires
        0 <= days,
        n == 4 * (days + 1_789_995) / 146_097,
        rest == days + 1_789_995 - (146_097 * n + 3) / 4,
        i == 4_000 * (rest + 1) / 1_461_001,
        r == rest - 1_461 * i / 4,
        j == 80 * (r + 31) / 2_447,
        date.day == (r + 31) - 2_447 * j / 80,
        date.month == j + 2 - 12 * (j / 11),
        date.year == 100 * (n - 49) + i + j / 11,
    ensures
        date.exists_in_calendar(),
        date.epoch_days() == days - 719_162,
{
    lemma_century(days + 1_789_995, n, rest);
    lemma_year_of_century(rest, i, r);
    lemma_month_of_year(r, j, date.day);
    lemma_march_year(n, i);
    let march_year = 100 * (n - 49) + i;
    law_year_length(march_year);
    lemma_days_before_month(date.year, date.month);
}

/// Every day from 0001-01-01 to 9999-12-31 has its date, and that date lies in the
/// years 1 to 9999.
pub proof fn law_every_day_has_a_date(days: int)
    requires
        -719_162 <= days <= 2_932_896,
    ensures
        date_of(days).exists_in_calendar(),
        date_of(days).epoch_days() == days,
        1 <= date_of(days).year <= 9999,
{
    let l = days + 719_162 + 1_789_995;
    let n = 4 * l / 146_097;
    let rest = l - (146_097 * n + 3) / 4;
    let i = 4_000 * (rest + 1) / 1_461_001;
    let r = rest - 1_461 * i / 4;
    let j = 80 * (r + 31) / 2_447;
    let date = Date {
        year: 100 * (n - 49) + i + j / 11,
        month: j + 2 - 12 * (j / 11),
        day: (r + 31) - 2_447 * j / 80,
    };
    lemma_date_from_day_count(days + 719_162, n, rest, i, r, j, date);
    law_date_of_epoch_days(date);
    lemma_day_of_year(date);
    if date.year > 9999 {
        lemma_years_ordered(10_000, date.year);
    }
    if date.year < 1 {
        lemma_years_ordered(date.year + 1, 1);
    }
}

/// The date that lies `days` days after 0001-01-01, as year, month and day,
/// up to 9999-12-31. This is the algorithm of Fliegel and Van Flandern
/// (Communications of the ACM 11, 1968, p. 657): the shifted day count is cut
/// into centuries, years and months that begin in March, so that the leap day
/// is the last day of its year.
pub fn date_from_day_count(days: i32) -> (r: (u32, u32, u32))
    requires
        0 <= days <= 3_652_058,
    ensures
        (Date { year: r.0 as int, month: r.1 as int, day: r.2 as int }) == date_of(days - 719_162),
        1 <= r.0 <= 9999,
        1 <= r.1 <= 12,
        1 <= r.2 <= 31,
{
    // 2_440_588 is the Julian day of 1970-01-01, 68_569 the algorithm's own shift.
    let l: i32 = days - CE_EPOCH_TO_UNIX_EPOCH_DAYS + 2_440_588 + 68_569;
    let n: i32 = 4 * l / 146_097;
    proof {
        lemma_century(l as int, n as int, l - (146_097 * n + 3) / 4);
    }
    let rest: i32 = l - (146_097 * n + 3) / 4;
    let i: i32 = 4000 * (rest + 1) / 1_461_001;
    proof {
        lemma_year_of_century(rest as int, i as int, rest - 1461 * i / 4);
    }
    let l: i32 = rest - 1461 * i / 4 + 31;
    let j: i32 = 80 * l / 2447;
    let day: i32 = l - 2447 * j / 80;
    let carry: i32 = j / 11;
    let month: i32 = j + 2 - 12 * carry;
    let year: i32 = 100 * (n - 49) + i + carry;
    proof {
        let date = Date { year: year as int, month: month as int, day: day as int };
        lemma_date_from_day_count(
            days as int,
            n as int,
            rest as int,
            i as int,
            l - 31,
            j as int,
            date,
        );
        law_date_of_epoch_days(date);
        law_every_day_has_a_date(days - 719_162);
    }
    (year as u32, month as u32, day as u32)
}

proof fn lemma_shifted_years(y_adj: int)
    requires
        4_799 <= y_adj,
    ensures
        0 <= y_adj / 4 - y_adj / 100 <= y_adj / 4 - y_adj / 100 + y_adj / 400,
        365 * y_adj + y_adj / 4 - y_adj / 100 + y_adj / 400 == days_before_year(y_adj - 4_799)
            + 1_753_164,
{
    let y = y_adj - 4_800;
    assert(y_adj / 4 == y / 4 + 1_200);
    assert(y_adj / 100 == y / 100 + 48);
    assert(y_adj / 400 == y / 400 + 12);
}

proof fn lemma_shifted_months(y: int, m: int, carry: int, m_adj: int)
    requires
        1 <= m <= 12,
        carry == (if m < 3 { 1int } else { 0 }),
        m_adj == (if m < 3 { m + 9 } else { m - 3 }),
    ensures
        0 <= m_adj <= 11,
        days_before_year(y - carry + 1) - 306 + (m_adj * 62_719 + 769) / 2_048 == days_before_year(y)
            + days_before_month(y, m),
{
    lemma_days_before_month(y, m);
    law_year_length(y);
}

/// The number of days from 1970-01-01 to a date; negative before it.
///
/// The year begins in March here, so that the leap day is its last day, and
/// years are counted from 4800 years before year 0, so that no division has a
/// negative operand. `(62719 * m + 769) / 2048` is the number of days before the
/// `m`-th month that follows March.
pub fn jsondec_epochdays(y: i32, m: i32, d: i32) -> (r: i32)
    requires
        0 <= y,
        1 <= m <= 12,
        1 <= d <= 31,
        epoch_days(y as int, m as int, d as int) + 2_472_632 <= i32::MAX,
    ensures
        r == epoch_days(y as int, m as int, d as int),
{
    let carry: u32 = if m < 3 { 1 } else { 0 };
    let m_adj: u32 = if m < 3 { (m + 9) as u32 } else { (m - 3) as u32 };
    let y_adj: u32 = y as u32 + 4800 - carry;
    proof {
        lemma_shifted_months(y as int, m as int, carry as int, m_adj as int);
        lemma_shifted_years(y_adj as int);
    }
    let month_days: u32 = (m_adj * 62719 + 769) / 2048;
    let leap_days: u32 = y_adj / 4 - y_adj / 100 + y_adj / 400;
    y_adj as i32 * 365 + leap_days as i32 + month_days as i32 + (d - 1) - 2_472_632
}

/// The Unix second of a date and a time of day; leap seconds are not counted.
pub open spec fn unix_seconds(y: int, m: int, d: int, h: int, min: int, s: int) -> int {
    epoch_days(y, m, d) * 86_400 + h * 3_600 + min * 60 + s
}

/// The number of seconds from `1970-01-01T00:00:00Z` to a date and time of day.
pub fn jsondec_unixtime(y: i32, m: i32, d: i32, h: i32, min: i32, s: i32) -> (r: i64)
    requires
        0 <= y,
        1 <= m <= 12,
        1 <= d <= 31,
        epoch_days(y as int, m as int, d as int) + 2_472_632 <= i32::MAX,
    ensures
        r == unix_seconds(y as int, m as int, d as int, h as int, min as int, s as int),
{
    jsondec_epochdays(y, m, d) as i64 * 86400 + h as i64 * 3600 + min as i64 * 60 + s as i64
}

}
