//! Core logic of an HTTP load-generation tool: the tick-based ramp scheduler,
//! the metrics aggregator with its sliding time windows, the level-triggered
//! cancellation signal, percentile computation and the chart series derived
//! from a run's history.
//!
//! Time is represented throughout as integer microseconds measured from an
//! arbitrary monotonic origin; latencies are integer microseconds as well.
//! The surrounding binary owns every clock, socket and terminal and hands
//! this crate plain values.

pub mod args;
pub mod cancel;
pub mod metrics;
pub mod parse;
pub mod scheduler;
pub mod series;
pub mod stats;
pub mod ui;
pub mod window;
