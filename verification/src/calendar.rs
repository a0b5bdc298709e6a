//! Reading calendar dates and writing moments, as the `chrono` crate does.

use chrono::Datelike;
use vstd::prelude::*;

verus! {

/// The year, month and day that `chrono` reads from a text in the format
/// `%Y-%m-%d`, if the text is such a date.
pub uninterp spec fn ymd_parsed(s: Seq<char>) -> Option<(i32, u32, u32)>;

/// Calls `chrono::NaiveDate::parse_from_str` with the format `%Y-%m-%d` and
/// reads the year, month and day of the date it gives (`Datelike`). The
/// contract ties the result to the text through [`ymd_parsed`] and states the
/// documented ranges of `Datelike::month` (1 to 12) and `Datelike::day`
/// (1 to 31); which texts are dates is left unsaid.
#[verifier::external_body]
pub(crate) fn parse_ymd(s: &str) -> (r: Option<(i32, u32, u32)>)
    ensures
        r == ymd_parsed(s@),
        r matches Some((y, m, d)) ==> 1 <= m <= 12 && 1 <= d <= 31,
{
    match chrono::NaiveDate::parse_from_str(s, "%Y-%m-%d") {
        Ok(d) => Some((d.year(), d.month(), d.day())),
        Err(_) => None,
    }
}

/// How `chrono` writes the date and time of a UTC timestamp (whole seconds
/// and nanoseconds), as `NaiveDateTime`'s `Display` does, if the timestamp is
/// in its range.
pub uninterp spec fn moment_text(secs: i64, nanos: u32) -> Option<Seq<char>>;

/// How `chrono` writes the day of a UTC timestamp in the format `%d/%m/%y`,
/// if the timestamp is in its range.
pub uninterp spec fn moment_day_text(secs: i64, nanos: u32) -> Option<Seq<char>>;

/// Calls `chrono::DateTime::from_timestamp` and writes the naive date and
/// time it gives with `to_string`. The contract ties the text, and whether
/// there is one, to the timestamp through [`moment_text`]; the text itself is
/// left unsaid.
#[verifier::external_body]
pub(crate) fn format_moment(secs: i64, nanos: u32) -> (r: Option<String>)
    ensures
        match r {
            Some(s) => moment_text(secs, nanos) == Some(s@),
            None => moment_text(secs, nanos) is None,
        },
{
    match chrono::DateTime::from_timestamp(secs, nanos) {
        Some(d) => Some(d.naive_utc().to_string()),
        None => None,
    }
}

/// Calls `chrono::DateTime::from_timestamp` and writes the day of the naive
/// date it gives with `format("%d/%m/%y")`. The contract ties the text, and
/// whether there is one, to the timestamp through [`moment_day_text`]; the
/// text itself is left unsaid.
#[verifier::external_body]
pub(crate) fn format_moment_day(secs: i64, nanos: u32) -> (r: Option<String>)
    ensures
        match r {
            Some(s) => moment_day_text(secs, nanos) == Some(s@),
            None => moment_day_text(secs, nanos) is None,
        },
{
    match chrono::DateTime::from_timestamp(secs, nanos) {
        Some(d) => Some(d.naive_utc().format("%d/%m/%y").to_string()),
        None => None,
    }
}

} // verus!
