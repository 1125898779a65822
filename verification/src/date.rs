//! Conversion from a Unix day count to the calendar month it falls in, used
//! to seed the parser's current-month context with the processing instant.

use vstd::prelude::*;
use crate::model::Timestamp;

verus! {

/// The Gregorian leap-year rule.
pub open spec fn is_leap(y: int) -> bool {
    (y % 4 == 0 && y % 100 != 0) || y % 400 == 0
}

fn is_leap_exec(y: i32) -> (r: bool)
    requires
        y >= 0,
    ensures
        r == is_leap(y as int),
{
    (y % 4 == 0 && y % 100 != 0) || y % 400 == 0
}

/// Days in year `y`.
pub open spec fn year_days(y: int) -> int {
    if is_leap(y) {
        366
    } else {
        365
    }
}

/// Days in month `m` of year `y`.
pub open spec fn month_days(y: int, m: int) -> int {
    if m == 2 {
        if is_leap(y) {
            29
        } else {
            28
        }
    } else if m == 4 || m == 6 || m == 9 || m == 11 {
        30
    } else {
        31
    }
}

/// Days from the Unix epoch to the start of year `y`.
pub open spec fn days_to_year(y: int) -> int
    decreases y - 1970,
{
    if y <= 1970 {
        0
    } else {
        days_to_year(y - 1) + year_days(y - 1)
    }
}

/// Days from the start of a year to the start of its month `m`.
pub open spec fn days_to_month(y: int, m: int) -> int
    decreases m,
{
    if m <= 1 {
        0
    } else {
        days_to_month(y, m - 1) + month_days(y, m - 1)
    }
}

fn month_days_exec(y: i32, m: u8) -> (r: u64)
    requires
        y >= 0,
    ensures
        r as int == month_days(y as int, m as int),
        28 <= r <= 31,
{
    if m == 2 {
        if is_leap_exec(y) {
            29
        } else {
            28
        }
    } else if m == 4 || m == 6 || m == 9 || m == 11 {
        30
    } else {
        31
    }
}

/// A year holds its months: the days before month 13 are the year's days.
proof fn lemma_months_fill_year(y: int)
    ensures
        days_to_month(y, 13) == year_days(y),
{
    reveal_with_fuel(days_to_month, 14);
    assert(days_to_month(y, 13) == year_days(y));
}

/// The month that day `days` of the Unix epoch falls in: the day count
/// reaches that month's start but not the next one's. The bound keeps the
/// year within the range a timestamp can carry.
pub fn month_of_unix_days(days: u64) -> (r: Timestamp)
    requires
        days < 36_525_000,
    ensures
        r.wf(),
        r.year >= 1970,
        days_to_year(r.year as int) + days_to_month(r.year as int, r.month as int) <= days as int,
        (days as int) < days_to_year(r.year as int) + days_to_month(r.year as int, r.month as int)
            + month_days(r.year as int, r.month as int),
{
    let mut year: i32 = 1970;
    let mut rem: u64 = days;
    loop
        invariant
            rem <= days,
            days < 36_525_000,
            year >= 1970,
            365 * (year as int - 1970) <= days as int - rem as int,
            rem as int == days as int - days_to_year(year as int),
        ensures
            year >= 1970,
            rem <= days,
            rem as int == days as int - days_to_year(year as int),
            (rem as int) < year_days(year as int),
        decreases rem,
    {
        let yl: u64 = if is_leap_exec(year) {
            366
        } else {
            365
        };
        if rem < yl {
            break;
        }
        rem -= yl;
        year += 1;
    }
    let ghost y = year as int;
    let ghost rem_year = rem as int;
    let mut month: u8 = 1;
    while month < 12
        invariant
            1 <= month <= 12,
            rem as int == rem_year - days_to_month(y, month as int),
            rem_year < year_days(y),
            rem_year == days as int - days_to_year(y),
            rem_year >= 0,
            y == year as int,
            year >= 1970,
        ensures
            1 <= month <= 12,
            rem as int == rem_year - days_to_month(y, month as int),
            rem_year < year_days(y),
            rem_year == days as int - days_to_year(y),
            y == year as int,
            month == 12 || (rem as int) < month_days(y, month as int),
        decreases 12 - month,
    {
        let ml = month_days_exec(year, month);
        if rem < ml {
            break;
        }
        rem -= ml;
        month += 1;
    }
    proof {
        if month == 12 {
            lemma_months_fill_year(y);
            assert(days_to_month(y, 13) == days_to_month(y, 12) + month_days(y, 12));
            assert((rem as int) < month_days(y, 12));
        }
    }
    Timestamp { year, month }
}

} // verus!
