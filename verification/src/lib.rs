//! Verified core of a read-only gateway that turns versioned exchange
//! snapshot files into time-bucketed ticker statistics.
//!
//! The crate holds the logic of the gateway: the retry/backoff policy of the
//! upstream content adapter, the calendar and path conventions of the snapshot
//! store, the decoding of snapshot payloads, and the aggregation engine that
//! folds per-exchange snapshots into statistics and OHLCV candles.  Network
//! and cache I/O stay outside; every function here is a pure step of the
//! gateway's pipeline with a proved contract.

pub mod codec;
pub mod config;
pub mod content;
pub mod dates;
pub mod errors;
pub mod health;
pub mod numbers;
pub mod ohlcv;
pub mod retry;
pub mod service;
pub mod snapshot;
pub mod stats;
pub mod text;
