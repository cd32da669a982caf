//! Population-level percentile rankings of per-ship combat performance.
//!
//! The crate has two halves. The streaming estimator (`histogram`,
//! `statistics`, `wows_data`) ingests an unbounded stream of scalar samples
//! per (ship, metric) key and answers approximate order-statistic queries in
//! fixed memory. The crawl logic (`scraper`, `pipeline`) holds the decision
//! rules of the rate-limited crawler: response classification, search-prefix
//! refinement and player normalization. All scalar samples are carried as
//! fixed-point integers scaled by [`VALUE_SCALE`]; percentiles are carried in
//! thousandths of a percentile point, scaled by [`PCT_SCALE`].

use vstd::prelude::*;

pub mod cheatsheet;
pub mod config;
pub mod error;
pub mod histogram;
pub mod progress_logger;
pub mod pipeline;
pub mod scraper;
pub mod statistics;
pub mod wows_data;

verus! {

/// Fixed-point scale for metric sample values: one unit of a metric is this
/// many ticks. A sample of 1.5 units is carried as 1_500_000.
pub const VALUE_SCALE: u64 = 1_000_000;

/// Fixed-point scale for percentile ranks: one percentile point is this many
/// ticks, so the full 0..=100 range is 0..=100_000.
pub const PCT_SCALE: u64 = 1_000;

/// The whole percentile range (100 points) in `PCT_SCALE` ticks.
pub const PCT_FULL: u64 = 100_000;

} // verus!
