//! A footprint-bar aggregation engine for a single-instrument market event
//! stream: events are assigned to fixed-duration time buckets, folded into a
//! per-bucket accumulator (OHLC, total volume, per-price-level buy/sell
//! volume), and a finished bar is emitted each time the bucket key advances.
//!
//! Prices and sizes are fixed-point decimals with eight fractional digits;
//! price-level keys are prices rounded to four fractional digits.

pub mod accum;
pub mod bucket;
pub mod decimal;
pub mod detector;
pub mod event;
