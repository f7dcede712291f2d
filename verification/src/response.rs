//! The provider's answer to one page request, and what it holds.

use vstd::prelude::*;
use crate::error::BybitError;
use crate::kline::{is_first_malformed, normalize_page, page_klines, row_defect, Kline};

verus! {

/// The payload of a successful answer: the rows of the page, and the symbol
/// and category that the provider echoes.
#[derive(Debug, Clone, PartialEq, Eq)]
pub struct KlineResult {
    pub symbol: String,
    pub category: String,
    pub list: Vec<Vec<String>>,
}

/// The envelope of an answer.
#[derive(Debug, Clone, PartialEq, Eq)]
pub struct BybitResponse {
    /// Zero for success; any other code is the provider's refusal.
    pub ret_code: i32,
    /// The provider's message, for people to read.
    pub ret_msg: String,
    pub result: Option<KlineResult>,
    /// When the provider answered, in milliseconds since the epoch.
    pub time: u64,
}

/// The rows of an answer, if it is a success with a payload.
pub open spec fn response_rows(response: BybitResponse) -> Option<Seq<Vec<String>>> {
    if response.ret_code == 0 && response.result is Some {
        Some(response.result->0.list@)
    } else {
        None
    }
}

/// The message with which an answer that is no success with a payload is
/// rejected: the provider's own where it refused, else a fixed one.
pub open spec fn rejection_message(response: BybitResponse) -> Seq<char> {
    if response.ret_code != 0 {
        response.ret_msg@
    } else {
        "No result data"@
    }
}

impl BybitResponse {
    /// The raw rows of the page that the answer holds.
    ///
    /// Fails with the provider's message where the provider refused, and
    /// with a message of its own where a success holds no payload.
    pub fn into_rows(self) -> (rows: Result<Vec<Vec<String>>, BybitError>)
        ensures
            match rows {
                Ok(list) => response_rows(self) == Some(list@),
                Err(e) => {
                    &&& response_rows(self) is None
                    &&& e matches BybitError::DomainRejection { msg }
                    &&& msg@ == rejection_message(self)
                },
            },
    {
        if self.ret_code != 0 {
            return Err(BybitError::DomainRejection { msg: self.ret_msg });
        }
        match self.result {
            Some(result) => Ok(result.list),
            None => Err(BybitError::DomainRejection { msg: "No result data".to_owned() }),
        }
    }

    /// The bars of the page that the answer holds, in the page's order.
    ///
    /// Fails as [`BybitResponse::into_rows`] does, and on the first row with
    /// a defect.
    pub fn into_klines(self) -> (klines: Result<Vec<Kline>, BybitError>)
        ensures
            match klines {
                Ok(page) => {
                    &&& response_rows(self) matches Some(rows)
                    &&& forall|i: int| 0 <= i < rows.len() ==> row_defect(#[trigger] rows[i]@) is None
                    &&& page@ == page_klines(rows)
                },
                Err(e) => match response_rows(self) {
                    None => {
                        &&& e matches BybitError::DomainRejection { msg }
                        &&& msg@ == rejection_message(self)
                    },
                    Some(rows) => exists|i: int|
                        {
                            &&& #[trigger] is_first_malformed(rows, i)
                            &&& e == BybitError::MalformedRecord {
                                field: row_defect(rows[i]@).unwrap(),
                            }
                        },
                },
            },
    {
        match self.into_rows() {
            Ok(rows) => normalize_page(&rows),
            Err(e) => Err(e),
        }
    }
}

} // verus!
