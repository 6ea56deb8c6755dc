//! Streaming (online) univariate statistics.
//!
//! Each estimator consumes scalar observations one at a time, keeps a
//! bounded internal state, and reports a running estimate of a statistic
//! (range, mean, variance, skewness, kurtosis, quantiles, interquartile
//! range) without storing the full history.
//!
//! Observations and estimates are fixed-point numbers: an `i64` counts
//! raw units of `1 / SCALE`, so the raw value `1_500_000` stands for
//! `1.5`. Smoothing constants and quantile ranks use the same scale.

use vstd::prelude::*;

pub mod fixed;
pub mod order;
pub mod peak_to_peak;
pub mod ew_mean;
pub mod ew_variance;
pub mod moments;
pub mod skewness;
pub mod kurtosis;
pub mod rolling_quantile;
pub mod quantile;
pub mod iqr;

verus! {

/// Why a constructor rejected its parameters. Construction is the only
/// fallible operation: `update` and `get` are total on the value domain.
#[derive(Clone, Copy, Debug, PartialEq, Eq, Structural)]
pub enum InvalidParameter {
    /// A smoothing constant outside `(0, 1]` (raw: outside `(0, SCALE]`).
    Alpha,
    /// A quantile rank outside `(0, 1)` (raw: outside `(0, SCALE)`).
    Rank,
    /// A window size of zero.
    Window,
    /// A lower quantile rank that is not below the upper one.
    RankOrder,
}

} // verus!
