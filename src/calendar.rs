//! The proleptic Gregorian calendar, as far as deciding whether a
//! (year, month, day) triple names a real day.

use vstd::prelude::*;

verus! {

/// Smallest year that `chrono::NaiveDate` represents.
pub const CHRONO_MIN_YEAR: i32 = -262143;

/// Largest year that `chrono::NaiveDate` represents.
pub const CHRONO_MAX_YEAR: i32 = 262142;

/// Gregorian leap years: every fourth year, except centuries not divisible by 400.
pub open spec fn is_leap_year(year: int) -> bool {
    (year % 4 == 0 && year % 100 != 0) || year % 400 == 0
}

/// Number of days of `month` (1 to 12) in `year`.
pub open spec fn days_in_month(year: int, month: int) -> int {
    if month == 2 {
        if is_leap_year(year) {
            29
        } else {
            28
        }
    } else if month == 4 || month == 6 || month == 9 || month == 11 {
        30
    } else {
        31
    }
}

/// Whether `year`-`month`-`day` is a day of the proleptic Gregorian calendar.
pub open spec fn is_calendar_date(year: int, month: int, day: int) -> bool {
    1 <= month <= 12 && 1 <= day <= days_in_month(year, month)
}

/// Relies on `chrono::NaiveDate::from_ymd_opt`: within the years that
/// `NaiveDate` represents (`MIN_YEAR..=MAX_YEAR` in chrono's source), it
/// returns `Some` exactly for the month/day pairs that exist in that year of
/// the proleptic Gregorian calendar (its `YEAR_TO_FLAGS` and `MDL_TO_OL`
/// tables), and `None` otherwise.
#[verifier::external_body]
pub(crate) fn calendar_date_exists(year: i32, month: u32, day: u32) -> (r: bool)
    requires
        CHRONO_MIN_YEAR <= year <= CHRONO_MAX_YEAR,
    ensures
        r == is_calendar_date(year as int, month as int, day as int),
{
    chrono::NaiveDate::from_ymd_opt(year, month, day).is_some()
}

} // verus!
