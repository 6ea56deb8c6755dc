//! Skewness and kurtosis on concrete samples, against values computed
//! independently from the closed-form population formulas under the
//! same fixed-point rounding.

use stream_stats::kurtosis::Kurtosis;
use stream_stats::skewness::Skewness;

const SCALE: i64 = 1_000_000;

#[test]
fn skewness_of_symmetric_sample_is_zero() {
    // a perfectly symmetric sample has no skew, biased or not
    for biased in [true, false] {
        let mut s = Skewness::new(biased);
        for x in [-2 * SCALE, -SCALE, 0, SCALE, 2 * SCALE] {
            s.update(x);
        }
        assert_eq!(s.get(), 0);
    }
}

#[test]
fn skewness_below_threshold_is_zero() {
    let mut s = Skewness::new(true);
    s.update(3 * SCALE);
    assert_eq!(s.get(), 0);
    let mut u = Skewness::new(false);
    u.update(SCALE);
    u.update(2 * SCALE);
    assert_eq!(u.get(), 0);
}

#[test]
fn skewness_of_right_tailed_sample() {
    // population skewness of [0, 0, 3]: m2 = 2, m3 = 2, so 2 / 2^1.5
    let mut s = Skewness::new(true);
    for x in [0, 0, 3 * SCALE] {
        s.update(x);
    }
    assert_eq!(s.get(), 707_107);
    // the sample correction multiplies by sqrt(3 * 2) / 1
    let mut u = Skewness::new(false);
    for x in [0, 0, 3 * SCALE] {
        u.update(x);
    }
    assert_eq!(u.get(), 1_732_050);
}

#[test]
fn skewness_of_constant_sample_is_zero() {
    let mut s = Skewness::new(true);
    for _ in 0..5 {
        s.update(4 * SCALE);
    }
    assert_eq!(s.get(), 0);
}

#[test]
fn kurtosis_of_symmetric_sample_matches_population_formula() {
    // excess kurtosis of [-2, -1, 0, 1, 2]: m4 / m2^2 - 3 = 6.8 / 4 - 3
    let mut k = Kurtosis::new(true);
    for x in [-2 * SCALE, -SCALE, 0, SCALE, 2 * SCALE] {
        k.update(x);
    }
    assert_eq!(k.get(), -1_300_000);
}

#[test]
fn kurtosis_sample_correction() {
    // the standard correction for n = 5 turns -1.3 into -1.2
    let mut k = Kurtosis::new(false);
    for x in [-2 * SCALE, -SCALE, 0, SCALE, 2 * SCALE] {
        k.update(x);
    }
    assert_eq!(k.get(), -1_200_000);
}

#[test]
fn kurtosis_below_threshold_is_zero() {
    let mut k = Kurtosis::new(true);
    k.update(SCALE);
    assert_eq!(k.get(), 0);
    let mut u = Kurtosis::new(false);
    for x in [SCALE, 2 * SCALE, 3 * SCALE] {
        u.update(x);
    }
    assert_eq!(u.get(), 0);
}
