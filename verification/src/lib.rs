//! A verified synchronization engine for OHLCV market time series.
//!
//! The engine decides, for a requested set of (ticker, exchange, series name,
//! source) series and a date range, what is already stored, what must be
//! fetched, how fetched rows are normalized and loaded, and how the per-series
//! metadata ledger is kept consistent under partial failure.  The document
//! store is modeled as an in-memory collection structure; fetching rows from a
//! vendor and persisting collections to an external database are I/O concerns
//! that live outside this library and communicate with it through plain
//! values.

pub mod calendar;
pub mod engine;
pub mod laws;
pub mod models;
pub mod normalize;
pub mod resolver;
pub mod store;
