//! Calendar days as the bounds of a window.

use vstd::prelude::*;
use crate::error::BybitError;

verus! {

/// The milliseconds from the epoch to midnight, UTC, of the day that chrono
/// reads from `date` under the format `%Y/%m/%d`; none where chrono reads no
/// day from it.
pub uninterp spec fn midnight_millis(date: Seq<char>) -> Option<i64>;

/// Reads a day written as year/month/day and gives the milliseconds from the
/// epoch to its midnight, UTC.
///
/// Calls `chrono::NaiveDate::parse_from_str` with the format `%Y/%m/%d`, and
/// on the day that it returns `and_hms_opt(0, 0, 0)`, `and_utc` and
/// `timestamp_millis`. The result depends on the text alone; what chrono
/// accepts as a day, and which number it gives, is not stated here.
#[verifier::external_body]
fn read_midnight(date_str: &str) -> (millis: Option<i64>)
    ensures
        millis == midnight_millis(date_str@),
{
    let day = chrono::NaiveDate::parse_from_str(date_str, "%Y/%m/%d").ok()?;
    let midnight = day.and_hms_opt(0, 0, 0)?;
    Some(midnight.and_utc().timestamp_millis())
}

/// The bound of a window that a day stands for, given what was read from its
/// text: the milliseconds to its midnight as an unsigned number, where a day
/// before the epoch wraps around; an error that holds the text where no day
/// was read.
pub fn window_bound(date_str: &str, millis: Option<i64>) -> (bound: Result<u64, BybitError>)
    ensures
        match bound {
            Ok(ms) => millis matches Some(m) && ms == m as u64,
            Err(e) => {
                &&& millis is None
                &&& e matches BybitError::DateParseError(text)
                &&& text@ == date_str@
            },
        },
{
    match millis {
        Some(m) => Ok(#[verifier::truncate] (m as u64)),
        None => Err(BybitError::DateParseError(date_str.to_owned())),
    }
}

/// Reads a day written as year/month/day as the bound of a window: the
/// milliseconds from the epoch to its midnight, UTC.
pub fn parse_date(date_str: &str) -> (bound: Result<u64, BybitError>)
    ensures
        match bound {
            Ok(ms) => midnight_millis(date_str@) matches Some(m) && ms == m as u64,
            Err(e) => {
                &&& midnight_millis(date_str@) is None
                &&& e matches BybitError::DateParseError(text)
                &&& text@ == date_str@
            },
        },
{
    window_bound(date_str, read_midnight(date_str))
}

} // verus!
