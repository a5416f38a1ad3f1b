//! Per-application aggregation of resource-usage log lines.
//!
//! Each input line is one JSON object naming an application together with
//! optional CPU and I/O-wait measurements.  The library parses such lines,
//! folds them into running per-application totals, and hands the final
//! unordered collection of statistics back to the caller.

pub mod json;
pub mod log_parser;
pub mod record;
pub mod totals;
