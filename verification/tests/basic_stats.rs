//! Running range, exponentially weighted mean and variance, on
//! concrete streams with exact expected fixed-point values.

use stream_stats::ew_mean::EwMean;
use stream_stats::ew_variance::EwVariance;
use stream_stats::peak_to_peak::PeakToPeak;

const SCALE: i64 = 1_000_000;

#[test]
fn peak_to_peak_empty_is_zero() {
    let p = PeakToPeak::new();
    assert_eq!(p.get(), 0);
}

#[test]
fn peak_to_peak_single_is_zero() {
    let mut p = PeakToPeak::new();
    p.update(7 * SCALE);
    assert_eq!(p.get(), 0);
}

#[test]
fn peak_to_peak_is_max_minus_min() {
    let mut p = PeakToPeak::new();
    for x in [3 * SCALE, -SCALE, 2 * SCALE, 0] {
        p.update(x);
    }
    assert_eq!(p.get(), 4 * SCALE);
}

#[test]
fn ew_mean_full_alpha_returns_last() {
    // with alpha of one the mean keeps no memory of prior state
    let mut m = EwMean::new(SCALE).unwrap();
    for x in [5 * SCALE, -2 * SCALE, 9 * SCALE, 123_456] {
        m.update(x);
        assert_eq!(m.get(), x);
    }
}

#[test]
fn ew_mean_half_alpha_blends() {
    let mut m = EwMean::new(500_000).unwrap();
    assert_eq!(m.get(), 0);
    m.update(4 * SCALE);
    assert_eq!(m.get(), 4 * SCALE);
    m.update(8 * SCALE);
    assert_eq!(m.get(), 6 * SCALE);
}

#[test]
fn ew_variance_full_alpha_is_zero() {
    // with alpha of one each observation fully replaces the state
    let mut v = EwVariance::new(SCALE).unwrap();
    for x in [5 * SCALE, -2 * SCALE, 9 * SCALE] {
        v.update(x);
        assert_eq!(v.get(), 0);
    }
}

#[test]
fn ew_variance_half_alpha_tracks_spread() {
    let mut v = EwVariance::new(500_000).unwrap();
    assert_eq!(v.get(), 0);
    v.update(4 * SCALE);
    assert_eq!(v.get(), 0);
    v.update(8 * SCALE);
    assert_eq!(v.get(), 4_000_000 as i128);
    v.update(8 * SCALE);
    assert_eq!(v.get(), 3_000_000 as i128);
}
