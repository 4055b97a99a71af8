//! Calendar dates, as far as the tracker needs them.
//!
//! A date is held as its day number in the proleptic Gregorian calendar, with
//! 1 January of year 1 as day 1. Consecutive calendar days have consecutive day
//! numbers, so the number of days from one date to another is the difference
//! of their day numbers.

use vstd::prelude::*;

verus! {

/// What reading `text` as a date of the form `%Y-%m-%d` gives: the day number
/// of the date, or `None` where the text is no such date.
pub uninterp spec fn parsed_day_number(text: Seq<char>) -> Option<i32>;

/// Reads a date of the form `%Y-%m-%d`.
///
/// Calls `chrono::NaiveDate::parse_from_str` with that format and turns the
/// date into its day number with `chrono::Datelike::num_days_from_ce`. Not
/// proved: that the outcome depends on the text alone, which is what naming it
/// [`parsed_day_number`] claims. Nothing is claimed about which texts are dates.
#[verifier::external_body]
pub(crate) fn parse_day_number(text: &str) -> (r: Option<i32>)
    ensures
        r == parsed_day_number(text@),
{
    match chrono::NaiveDate::parse_from_str(text, "%Y-%m-%d") {
        Ok(date) => Some(chrono::Datelike::num_days_from_ce(&date)),
        Err(_) => None,
    }
}

} // verus!
