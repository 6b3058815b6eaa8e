//! The wall clock. Every function here reads the machine's clock and time
//! zone, so none of them promises which date or time comes out, only the
//! shape that the format gives it.

use crate::site::{is_date_text, span_fits};
use chrono::{Duration, Local};
use vstd::prelude::*;

verus! {

/// `chrono::Local::now`, `DateTime::format` and `to_string`: the local date
/// of this moment as year, month and day. Which date comes out depends on
/// the clock; the format `%Y-%m-%d` writes it as a year padded to at least
/// four places, a month of two digits and a day of two digits, with dashes
/// between them.
#[verifier::external_body]
pub(crate) fn local_date_now() -> (date: String)
    ensures
        is_date_text(date@),
{
    Local::now().format("%Y-%m-%d").to_string()
}

/// `chrono::Local::now`, `Duration::seconds`, `DateTime::checked_sub_signed`,
/// `DateTime::format` and `to_string`: the local date `seconds` seconds
/// before this moment as year, month and day, or nothing where that date
/// cannot be represented. `Duration::seconds` panics on a number beyond
/// `MAX_SPAN_SECONDS` in size, which the precondition rules out. Which date
/// comes out, and whether one does, depends on the clock; the format
/// `%Y-%m-%d` writes it as a year padded to at least four places, a month of
/// two digits and a day of two digits, with dashes between them.
#[verifier::external_body]
pub(crate) fn local_date_before_now(seconds: i64) -> (date: Option<String>)
    requires
        span_fits(seconds as int),
    ensures
        date matches Some(text) ==> is_date_text(text@),
{
    match Local::now().checked_sub_signed(Duration::seconds(seconds)) {
        Some(then) => Some(then.format("%Y-%m-%d").to_string()),
        None => None,
    }
}

/// `chrono::Local::now`, `DateTime::format` and `to_string`: this moment in
/// local time as day, month, year, hours, minutes and seconds.
#[verifier::external_body]
pub(crate) fn local_time_now() -> String {
    Local::now().format("%d-%m-%Y %H:%M:%S").to_string()
}

} // verus!
