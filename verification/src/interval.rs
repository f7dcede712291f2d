//! The bar intervals that the provider offers, and their lengths.

use vstd::prelude::*;
use crate::error::BybitError;
use crate::text::str_eq;

verus! {

/// The length in milliseconds of the bar interval that `code` names, if it names one.
///
/// A month counts as thirty days, whatever the calendar says.
pub open spec fn interval_millis(code: Seq<char>) -> Option<u64> {
    if code == "1"@ {
        Some(60_000u64)
    } else if code == "3"@ {
        Some(180_000u64)
    } else if code == "5"@ {
        Some(300_000u64)
    } else if code == "15"@ {
        Some(900_000u64)
    } else if code == "30"@ {
        Some(1_800_000u64)
    } else if code == "60"@ {
        Some(3_600_000u64)
    } else if code == "120"@ {
        Some(7_200_000u64)
    } else if code == "240"@ {
        Some(14_400_000u64)
    } else if code == "360"@ {
        Some(21_600_000u64)
    } else if code == "720"@ {
        Some(43_200_000u64)
    } else if code == "D"@ {
        Some(86_400_000u64)
    } else if code == "W"@ {
        Some(604_800_000u64)
    } else if code == "M"@ {
        Some(2_592_000_000u64)
    } else {
        None
    }
}

/// The longest interval on offer, in milliseconds.
pub const MAX_INTERVAL_MS: u64 = 2_592_000_000;

/// Every interval on offer lasts at least a minute and at most thirty days.
pub proof fn lemma_interval_bounds(code: Seq<char>)
    ensures
        interval_millis(code) matches Some(ms) ==> 60_000 <= ms <= MAX_INTERVAL_MS,
{
}

/// Resolves an interval code to its length in milliseconds.
pub fn parse_interval_to_ms(interval: &str) -> (resolved: Result<u64, BybitError>)
    ensures
        match resolved {
            Ok(ms) => interval_millis(interval@) == Some(ms),
            Err(e) => {
                &&& interval_millis(interval@) is None
                &&& e matches BybitError::UnsupportedInterval(code)
                &&& code@ == interval@
            },
        },
{
    if str_eq(interval, "1") {
        Ok(60_000)
    } else if str_eq(interval, "3") {
        Ok(180_000)
    } else if str_eq(interval, "5") {
        Ok(300_000)
    } else if str_eq(interval, "15") {
        Ok(900_000)
    } else if str_eq(interval, "30") {
        Ok(1_800_000)
    } else if str_eq(interval, "60") {
        Ok(3_600_000)
    } else if str_eq(interval, "120") {
        Ok(7_200_000)
    } else if str_eq(interval, "240") {
        Ok(14_400_000)
    } else if str_eq(interval, "360") {
        Ok(21_600_000)
    } else if str_eq(interval, "720") {
        Ok(43_200_000)
    } else if str_eq(interval, "D") {
        Ok(86_400_000)
    } else if str_eq(interval, "W") {
        Ok(604_800_000)
    } else if str_eq(interval, "M") {
        Ok(2_592_000_000)
    } else {
        Err(BybitError::UnsupportedInterval(interval.to_owned()))
    }
}

} // verus!
