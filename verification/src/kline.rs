//! Bars, and how the raw rows of a page become bars.

use vstd::prelude::*;
use crate::error::{BybitError, RowField};
use crate::text::{is_decimal_number, is_decimal_text, parse_u64, parse_u64_spec};

verus! {

/// One candlestick bar: the prices and volumes observed over one interval.
///
/// The start of the interval is an integer, in milliseconds since the epoch.
/// Each of the other six values is held as the decimal text that the provider
/// sent: a bar made by [`Kline::from_vec`] holds decimal numbers only.
#[derive(Debug, Clone, PartialEq, Eq)]
pub struct Kline {
    pub start_time: u64,
    pub open_price: String,
    pub high_price: String,
    pub low_price: String,
    pub close_price: String,
    pub volume: String,
    pub turnover: String,
}

/// What is wrong with a raw row, if anything: it is too short, or else the
/// first of its seven leading fields that is no number.
pub open spec fn row_defect(row: Seq<String>) -> Option<RowField> {
    if row.len() < 7 {
        Some(RowField::Arity)
    } else if parse_u64_spec(row[0]@) is None {
        Some(RowField::StartTime)
    } else if !is_decimal_number(row[1]@) {
        Some(RowField::OpenPrice)
    } else if !is_decimal_number(row[2]@) {
        Some(RowField::HighPrice)
    } else if !is_decimal_number(row[3]@) {
        Some(RowField::LowPrice)
    } else if !is_decimal_number(row[4]@) {
        Some(RowField::ClosePrice)
    } else if !is_decimal_number(row[5]@) {
        Some(RowField::Volume)
    } else if !is_decimal_number(row[6]@) {
        Some(RowField::Turnover)
    } else {
        None
    }
}

/// The bar that a raw row without defect stands for. Fields after the seventh
/// are not looked at.
pub open spec fn row_kline(row: Seq<String>) -> Kline {
    Kline {
        start_time: parse_u64_spec(row[0]@).unwrap(),
        open_price: row[1],
        high_price: row[2],
        low_price: row[3],
        close_price: row[4],
        volume: row[5],
        turnover: row[6],
    }
}

/// The bars of a page whose rows are all without defect, in the page's order.
pub open spec fn page_klines(rows: Seq<Vec<String>>) -> Seq<Kline> {
    Seq::new(rows.len(), |i: int| row_kline(rows[i]@))
}

/// Row `i` is the first row of the page with a defect.
pub open spec fn is_first_malformed(rows: Seq<Vec<String>>, i: int) -> bool {
    &&& 0 <= i < rows.len()
    &&& row_defect(rows[i]@) is Some
    &&& forall|j: int| 0 <= j < i ==> row_defect(#[trigger] rows[j]@) is None
}

impl Kline {
    /// Each of the six prices and volumes is a decimal number.
    pub open spec fn well_formed(&self) -> bool {
        &&& is_decimal_number(self.open_price@)
        &&& is_decimal_number(self.high_price@)
        &&& is_decimal_number(self.low_price@)
        &&& is_decimal_number(self.close_price@)
        &&& is_decimal_number(self.volume@)
        &&& is_decimal_number(self.turnover@)
    }

    /// Reads one raw row, in the order start time, open, high, low, close,
    /// volume, turnover.
    ///
    /// Fails on a row with a defect, naming the defect.
    pub fn from_vec(data: Vec<String>) -> (parsed: Result<Kline, BybitError>)
        ensures
            match parsed {
                Ok(kline) => {
                    &&& row_defect(data@) is None
                    &&& kline == row_kline(data@)
                    &&& kline.well_formed()
                },
                Err(e) => {
                    &&& row_defect(data@) matches Some(field)
                    &&& e == BybitError::MalformedRecord { field }
                },
            },
    {
        Kline::from_row(&data)
    }

    /// Reads one raw row that stays with the caller: see [`Kline::from_vec`].
    pub fn from_row(data: &Vec<String>) -> (parsed: Result<Kline, BybitError>)
        ensures
            match parsed {
                Ok(kline) => {
                    &&& row_defect(data@) is None
                    &&& kline == row_kline(data@)
                    &&& kline.well_formed()
                },
                Err(e) => {
                    &&& row_defect(data@) matches Some(field)
                    &&& e == BybitError::MalformedRecord { field }
                },
            },
    {
        if data.len() < 7 {
            return Err(BybitError::MalformedRecord { field: RowField::Arity });
        }
        let start_time: u64 = match parse_u64(data[0].as_str()) {
            Some(t) => t,
            None => {
                return Err(BybitError::MalformedRecord { field: RowField::StartTime });
            },
        };
        if !is_decimal_text(data[1].as_str()) {
            return Err(BybitError::MalformedRecord { field: RowField::OpenPrice });
        }
        if !is_decimal_text(data[2].as_str()) {
            return Err(BybitError::MalformedRecord { field: RowField::HighPrice });
        }
        if !is_decimal_text(data[3].as_str()) {
            return Err(BybitError::MalformedRecord { field: RowField::LowPrice });
        }
        if !is_decimal_text(data[4].as_str()) {
            return Err(BybitError::MalformedRecord { field: RowField::ClosePrice });
        }
        if !is_decimal_text(data[5].as_str()) {
            return Err(BybitError::MalformedRecord { field: RowField::Volume });
        }
        if !is_decimal_text(data[6].as_str()) {
            return Err(BybitError::MalformedRecord { field: RowField::Turnover });
        }
        Ok(
            Kline {
                start_time,
                open_price: data[1].clone(),
                high_price: data[2].clone(),
                low_price: data[3].clone(),
                close_price: data[4].clone(),
                volume: data[5].clone(),
                turnover: data[6].clone(),
            },
        )
    }
}

/// Reads every row of a page, in the page's order.
///
/// Fails on the first row with a defect, naming the defect; no bar of the page
/// is handed out then.
pub fn normalize_page(rows: &Vec<Vec<String>>) -> (parsed: Result<Vec<Kline>, BybitError>)
    ensures
        match parsed {
            Ok(klines) => {
                &&& forall|i: int| 0 <= i < rows@.len() ==> row_defect(#[trigger] rows@[i]@) is None
                &&& klines@ == page_klines(rows@)
            },
            Err(e) => exists|i: int|
                {
                    &&& #[trigger] is_first_malformed(rows@, i)
                    &&& e == BybitError::MalformedRecord { field: row_defect(rows@[i]@).unwrap() }
                },
        },
{
    let mut klines: Vec<Kline> = Vec::new();
    let mut i: usize = 0;
    while i < rows.len()
        invariant
            i <= rows@.len(),
            klines@.len() == i,
            forall|j: int| 0 <= j < i ==> row_defect(#[trigger] rows@[j]@) is None,
            forall|j: int| 0 <= j < i ==> klines@[j] == row_kline(rows@[j]@),
        decreases rows@.len() - i,
    {
        match Kline::from_row(&rows[i]) {
            Ok(kline) => {
                klines.push(kline);
            },
            Err(e) => {
                assert(is_first_malformed(rows@, i as int));
                return Err(e);
            },
        }
        i += 1;
    }
    assert(klines@ =~= page_klines(rows@));
    Ok(klines)
}

} // verus!
