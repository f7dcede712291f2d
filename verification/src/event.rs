//! Bars as market events for a consumer downstream.

use vstd::prelude::*;
use crate::kline::Kline;
use crate::text::str_eq;

verus! {

/// The venue that the bars of a category are reported under.
#[derive(Debug, Clone, Copy, PartialEq, Eq, Structural)]
pub enum Venue {
    BybitSpot,
    BybitPerpetualsUsd,
}

/// The venue of a category: linear and inverse contracts are perpetuals,
/// spot and every category that is not known are spot.
pub open spec fn venue_of(category: Seq<char>) -> Venue {
    if category == "linear"@ || category == "inverse"@ {
        Venue::BybitPerpetualsUsd
    } else {
        Venue::BybitSpot
    }
}

impl Venue {
    /// The name that the consumer knows the venue by.
    pub open spec fn label(self) -> Seq<char> {
        match self {
            Venue::BybitSpot => "bybit_spot"@,
            Venue::BybitPerpetualsUsd => "bybit_perpetuals_usd"@,
        }
    }

    /// The venue of a category.
    pub fn for_category(category: &str) -> (venue: Venue)
        ensures
            venue == venue_of(category@),
    {
        if str_eq(category, "linear") || str_eq(category, "inverse") {
            Venue::BybitPerpetualsUsd
        } else {
            Venue::BybitSpot
        }
    }

    /// The name that the consumer knows the venue by.
    pub fn name(&self) -> (label: &'static str)
        ensures
            label@ == self.label(),
    {
        match self {
            Venue::BybitSpot => "bybit_spot",
            Venue::BybitPerpetualsUsd => "bybit_perpetuals_usd",
        }
    }
}

/// A bar as the consumer takes it: it is told when the bar closed, not when
/// it opened, and it gets no turnover.
#[derive(Debug, Clone, PartialEq, Eq)]
pub struct BarterCandle {
    /// In milliseconds since the epoch.
    pub close_time: u64,
    pub open: String,
    pub high: String,
    pub low: String,
    pub close: String,
    pub volume: String,
    /// The provider counts no trades: always zero.
    pub trade_count: u64,
}

/// A market event that carries one bar.
#[derive(Debug, Clone, PartialEq, Eq)]
pub struct BarterMarketEvent {
    /// When the bar opened, in milliseconds since the epoch.
    pub time_exchange: u64,
    /// When the event was made, in milliseconds since the epoch.
    pub time_received: i64,
    pub exchange: Venue,
    /// The consumer's index of the instrument.
    pub instrument: usize,
    pub candle: BarterCandle,
}

/// The event that carries `kline`, made at `received`.
pub open spec fn projected(
    kline: Kline,
    instrument_index: usize,
    interval_ms: u64,
    category: Seq<char>,
    received: i64,
) -> BarterMarketEvent {
    BarterMarketEvent {
        time_exchange: kline.start_time,
        time_received: received,
        exchange: venue_of(category),
        instrument: instrument_index,
        candle: BarterCandle {
            close_time: (kline.start_time + interval_ms) as u64,
            open: kline.open_price,
            high: kline.high_price,
            low: kline.low_price,
            close: kline.close_price,
            volume: kline.volume,
            trade_count: 0,
        },
    }
}

/// The time on the system's clock, in milliseconds since the epoch.
///
/// Calls `chrono::Utc::now` and takes the result's `timestamp_millis`.
/// Nothing is claimed of the number: two calls may give any two numbers.
/// chrono stops the program where the clock stands before the epoch.
#[verifier::external_body]
fn wall_clock_millis() -> (now: i64) {
    chrono::Utc::now().timestamp_millis()
}

impl Kline {
    /// The event that carries this bar, as if made at `received`.
    ///
    /// The bar closes one interval after it opens.
    pub fn to_barter_event_at(
        &self,
        instrument_index: usize,
        interval_ms: u64,
        category: &str,
        received: i64,
    ) -> (event: BarterMarketEvent)
        requires
            self.start_time + interval_ms <= u64::MAX,
        ensures
            event == projected(*self, instrument_index, interval_ms, category@, received),
    {
        BarterMarketEvent {
            time_exchange: self.start_time,
            time_received: received,
            exchange: Venue::for_category(category),
            instrument: instrument_index,
            candle: BarterCandle {
                close_time: self.start_time + interval_ms,
                open: self.open_price.clone(),
                high: self.high_price.clone(),
                low: self.low_price.clone(),
                close: self.close_price.clone(),
                volume: self.volume.clone(),
                trade_count: 0,
            },
        }
    }

    /// The event that carries this bar, made now: it is stamped with the time
    /// on the system's clock, whatever that is, and is in all else the event
    /// of [`Kline::to_barter_event_at`].
    pub fn to_barter_event(&self, instrument_index: usize, interval_ms: u64, category: &str) -> (event:
        BarterMarketEvent)
        requires
            self.start_time + interval_ms <= u64::MAX,
        ensures
            event == projected(
                *self,
                instrument_index,
                interval_ms,
                category@,
                event.time_received,
            ),
    {
        let received: i64 = wall_clock_millis();
        self.to_barter_event_at(instrument_index, interval_ms, category, received)
    }
}

} // verus!
