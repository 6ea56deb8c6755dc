//! Construction-time validation: every invalid parameter is rejected
//! with `InvalidParameter`, never by a crash.

use stream_stats::ew_mean::EwMean;
use stream_stats::ew_variance::EwVariance;
use stream_stats::iqr::Iqr;
use stream_stats::quantile::Quantile;
use stream_stats::rolling_quantile::RollingQuantile;
use stream_stats::InvalidParameter;

const SCALE: i64 = 1_000_000;

#[test]
fn ew_mean_rejects_zero_alpha() {
    assert!(matches!(EwMean::new(0), Err(InvalidParameter::Alpha)));
}

#[test]
fn ew_mean_rejects_alpha_above_one() {
    assert!(matches!(EwMean::new(SCALE + 1), Err(InvalidParameter::Alpha)));
    assert!(matches!(EwMean::new(-1), Err(InvalidParameter::Alpha)));
}

#[test]
fn ew_mean_accepts_full_alpha() {
    assert!(EwMean::new(SCALE).is_ok());
    assert!(EwMean::new(1).is_ok());
}

#[test]
fn ew_variance_rejects_zero_alpha() {
    assert!(matches!(EwVariance::new(0), Err(InvalidParameter::Alpha)));
    assert!(EwVariance::new(SCALE).is_ok());
}

#[test]
fn quantile_rejects_rank_above_one() {
    // a rank of one and a half
    assert!(matches!(Quantile::new(1_500_000), Err(InvalidParameter::Rank)));
    assert!(matches!(Quantile::new(0), Err(InvalidParameter::Rank)));
    assert!(matches!(Quantile::new(SCALE), Err(InvalidParameter::Rank)));
    assert!(Quantile::new(500_000).is_ok());
}

#[test]
fn rolling_quantile_rejects_zero_window() {
    assert!(matches!(
        RollingQuantile::new(500_000, 0),
        Err(InvalidParameter::Window)
    ));
    assert!(matches!(
        RollingQuantile::new(SCALE, 3),
        Err(InvalidParameter::Rank)
    ));
    assert!(RollingQuantile::new(500_000, 1).is_ok());
}

#[test]
fn iqr_rejects_misordered_ranks() {
    assert!(matches!(
        Iqr::new(750_000, 250_000),
        Err(InvalidParameter::RankOrder)
    ));
    assert!(matches!(
        Iqr::new(250_000, 250_000),
        Err(InvalidParameter::RankOrder)
    ));
    assert!(matches!(Iqr::new(0, 750_000), Err(InvalidParameter::Rank)));
    assert!(matches!(
        Iqr::new(250_000, SCALE),
        Err(InvalidParameter::Rank)
    ));
    assert!(Iqr::new(250_000, 750_000).is_ok());
}
