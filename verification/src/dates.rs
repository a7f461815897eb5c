//! The two places calendar arithmetic leaves this library: parsing a
//! `YYYY-MM-DD` filter token, and reading the machine clock.

use chrono::Datelike;
use vstd::prelude::*;

use crate::models::Date;

verus! {

/// The date a `YYYY-MM-DD` token denotes, as (year, month, day), or nothing
/// when the token does not parse.  The outcome depends on the characters
/// alone.
pub uninterp spec fn date_of(s: Seq<char>) -> Option<(int, int, int)>;

/// Relies on `chrono::NaiveDate::parse_from_str` with the `%Y-%m-%d`
/// format: the result depends on the input characters alone, and a parsed
/// date is a valid calendar date, so its month and day are in range.
#[verifier::external_body]
pub fn parse_date(s: &str) -> (r: Option<Date>)
    ensures
        r is Some <==> date_of(s@) is Some,
        r matches Some(d) ==> date_of(s@) == Some((d.year as int, d.month as int, d.day as int)),
        r matches Some(d) ==> 1 <= d.month <= 12 && 1 <= d.day <= 31,
{
    match chrono::NaiveDate::parse_from_str(s, "%Y-%m-%d") {
        Ok(d) => Some(Date { year: d.year(), month: d.month() as u8, day: d.day() as u8 }),
        Err(_) => None,
    }
}

/// Relies on `std::time::SystemTime` for the clock and
/// `chrono::DateTime::from_timestamp` for the calendar conversion: the
/// current date at UTC.  Which day comes back depends on the clock; a
/// clock before the Unix epoch reads as the epoch itself rather than
/// aborting.  Every outcome is a valid calendar date.
#[verifier::external_body]
pub fn current_date() -> (r: Date)
    ensures
        1 <= r.month <= 12,
        1 <= r.day <= 31,
{
    let secs = match std::time::SystemTime::now().duration_since(std::time::UNIX_EPOCH) {
        Ok(d) => d.as_secs() as i64,
        Err(_) => 0,
    };
    let day = match chrono::DateTime::from_timestamp(secs, 0) {
        Some(t) => t.date_naive(),
        None => chrono::NaiveDate::MIN,
    };
    Date { year: day.year(), month: day.month() as u8, day: day.day() as u8 }
}

/// Relies on `std::time::SystemTime`: seconds since the Unix epoch.  What
/// comes back depends on the clock; a clock before the epoch reads as the
/// epoch itself rather than aborting, and nothing more is assumed of it.
#[verifier::external_body]
pub fn current_timestamp() -> (r: i64) {
    match std::time::SystemTime::now().duration_since(std::time::UNIX_EPOCH) {
        Ok(d) => d.as_secs() as i64,
        Err(_) => 0,
    }
}

} // verus!
