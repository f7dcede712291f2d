//! Paginated retrieval of candlestick bars from a page-capped market-data
//! provider, as a verified core without I/O.
//!
//! The crate holds the decisions of the retrieval: how a requested time window
//! and record budget turn into a sequence of bounded page requests, how the
//! rows of a page become typed bars, and how the bars of all pages become one
//! strictly time-ordered series. Sending a request and waiting for its answer
//! is left to the caller, who hands each answer to the engine.

pub mod text;
pub mod error;
pub mod interval;
pub mod kline;
pub mod series;
pub mod engine;
pub mod response;
pub mod event;
pub mod date;
pub mod client;
