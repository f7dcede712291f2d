//! The typed failures of a retrieval run.

use vstd::prelude::*;

verus! {

/// The part of a raw row that a malformed row fails on.
#[derive(Debug, Clone, Copy, PartialEq, Eq, Structural)]
pub enum RowField {
    /// The row has fewer than seven fields.
    Arity,
    StartTime,
    OpenPrice,
    HighPrice,
    LowPrice,
    ClosePrice,
    Volume,
    Turnover,
}

/// Why a retrieval run was refused or aborted.
#[derive(Debug, Clone, PartialEq, Eq)]
pub enum BybitError {
    /// The window is empty or reversed: `start >= end`.
    InvalidWindow { start: u64, end: u64 },
    /// The interval code is not one the provider knows; holds the code.
    UnsupportedInterval(String),
    /// The call to the provider could not complete; holds the transport's message.
    TransportFailure(String),
    /// The provider answered with an explicit failure; holds its message verbatim.
    DomainRejection { msg: String },
    /// A row of a page has too few fields or a field that is no number.
    MalformedRecord { field: RowField },
    /// A calendar date could not be read; holds the offending text.
    DateParseError(String),
}

} // verus!
