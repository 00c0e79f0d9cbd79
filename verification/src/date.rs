//! Calendar dates written by a pattern; the `chrono` crate does the work.

use vstd::prelude::*;

verus! {

/// The first year that `chrono` has dates for.
pub const MIN_YEAR: i32 = -262143;

/// The last year that `chrono` has dates for.
pub const MAX_YEAR: i32 = 262142;

/// `year` has a 29th of February: it is a multiple of 4, and not of 100
/// unless of 400. Years before the year 1 count on backwards, the year
/// before it being the year 0.
pub open spec fn is_leap_year(year: int) -> bool {
    year % 4 == 0 && (year % 100 != 0 || year % 400 == 0)
}

/// The number of days of the month `month` of `year`.
pub open spec fn days_in_month(year: int, month: int) -> int {
    if month == 2 {
        if is_leap_year(year) {
            29
        } else {
            28
        }
    } else if month == 4 || month == 6 || month == 9 || month == 11 {
        30
    } else {
        31
    }
}

/// `year`-`month`-`day` is a day of the calendar within the years that
/// `chrono` has dates for.
pub open spec fn is_calendar_date(year: int, month: int, day: int) -> bool {
    &&& MIN_YEAR <= year <= MAX_YEAR
    &&& 1 <= month <= 12
    &&& 1 <= day <= days_in_month(year, month)
}

/// What `chrono` writes for the calendar date `year`-`month`-`day` under
/// `pattern`, and `None` where it cannot write a date by the pattern.
/// Of numbers that are no calendar date the name says nothing.
pub uninterp spec fn date_text(year: int, month: int, day: int, pattern: Seq<char>) -> Option<
    Seq<char>,
>;

/// Makes the date by `NaiveDate::from_ymd_opt` and writes it by
/// `NaiveDate::format`, collecting the output with `write_to`.
///
/// Trusted: the body is not verified. `from_ymd_opt` gives no date
/// where the day does not exist in the proleptic Gregorian calendar or
/// the year lies outside `MIN_YEAR` to `MAX_YEAR`, which the contract
/// states. A plain date is formatted without regard to time zone or
/// environment, so what is written depends on the four arguments
/// alone; the contract gives it its name and claims no more of it.
/// Writing with `write_to` turns a pattern that `chrono` refuses into
/// `None` where `to_string` would stop the program.
#[verifier::external_body]
pub(crate) fn render_date(year: i32, month: u32, day: u32, pattern: &str) -> (text: Option<String>)
    ensures
        match text {
            Some(t) => is_calendar_date(year as int, month as int, day as int) && date_text(
                year as int,
                month as int,
                day as int,
                pattern@,
            ) == Some(t@),
            None => !is_calendar_date(year as int, month as int, day as int) || date_text(
                year as int,
                month as int,
                day as int,
                pattern@,
            ) is None,
        },
{
    let date = chrono::NaiveDate::from_ymd_opt(year, month, day)?;
    let mut text = String::new();
    match date.format(pattern).write_to(&mut text) {
        Ok(()) => Some(text),
        Err(_) => None,
    }
}

} // verus!
