//! Quantile estimators: exact behaviour of the rolling window, the
//! buffered phase of the streaming quantile, convergence of the
//! streaming quantile on pseudo-uniform data, and the interquartile
//! range staying non-negative once settled.

use stream_stats::iqr::Iqr;
use stream_stats::quantile::Quantile;
use stream_stats::rolling_quantile::RollingQuantile;

const SCALE: i64 = 1_000_000;

/// Deterministic pseudo-uniform values in `[0, SCALE]`.
fn next_value(state: &mut u64) -> i64 {
    *state = state
        .wrapping_mul(6364136223846793005)
        .wrapping_add(1442695040888963407);
    ((*state >> 11) % (SCALE as u64 + 1)) as i64
}

#[test]
fn rolling_median_over_window_of_three() {
    let mut r = RollingQuantile::new(500_000, 3).unwrap();
    assert_eq!(r.get(), 0);
    let expected = [1, 1, 2, 3, 4];
    for (i, x) in [1, 2, 3, 4, 5].into_iter().enumerate() {
        r.update(x);
        assert_eq!(r.get(), expected[i]);
    }
}

#[test]
fn rolling_quantile_evicts_oldest() {
    let mut r = RollingQuantile::new(500_000, 2).unwrap();
    r.update(9);
    r.update(1);
    r.update(1);
    // the window now holds [1, 1]; the nine is gone
    assert_eq!(r.get(), 1);
}

#[test]
fn streaming_quantile_is_exact_while_buffered() {
    let mut q = Quantile::new(500_000).unwrap();
    assert_eq!(q.get(), 0);
    q.update(5 * SCALE);
    assert_eq!(q.get(), 5 * SCALE);
    q.update(SCALE);
    assert_eq!(q.get(), SCALE);
    q.update(3 * SCALE);
    assert_eq!(q.get(), 3 * SCALE);
}

#[test]
fn streaming_median_converges_on_uniform_data() {
    let mut q = Quantile::new(500_000).unwrap();
    let mut state: u64 = 88172645463325252;
    let mut coarse: i64 = 0;
    for i in 0..100_000 {
        q.update(next_value(&mut state));
        if i == 999 {
            coarse = (q.get() - 500_000).abs();
        }
    }
    let fine = (q.get() - 500_000).abs();
    // within half a percent of the true median after many samples,
    // and no worse than the early estimate by more than noise
    assert!(fine <= 5_000, "final error {fine}");
    assert!(fine <= coarse + 5_000, "error grew: {coarse} -> {fine}");
}

#[test]
fn streaming_quartiles_converge_on_uniform_data() {
    let mut lo = Quantile::new(250_000).unwrap();
    let mut hi = Quantile::new(750_000).unwrap();
    let mut state: u64 = 1234567;
    for _ in 0..50_000 {
        let x = next_value(&mut state);
        lo.update(x);
        hi.update(x);
    }
    assert!((lo.get() - 250_000).abs() <= 10_000);
    assert!((hi.get() - 750_000).abs() <= 10_000);
}

#[test]
fn iqr_exact_while_buffered() {
    let mut i = Iqr::new(250_000, 750_000).unwrap();
    assert_eq!(i.get(), 0);
    for x in [4 * SCALE, SCALE, 3 * SCALE, 2 * SCALE] {
        i.update(x);
    }
    // ranks 0.25 and 0.75 of [1, 2, 3, 4] pick 1 and 3
    assert_eq!(i.get(), 2 * SCALE);
}

#[test]
fn iqr_stays_nonnegative_once_settled() {
    let mut i = Iqr::new(250_000, 750_000).unwrap();
    let mut state: u64 = 424242;
    for _ in 0..200 {
        i.update(next_value(&mut state));
    }
    for step in 0..2_000 {
        i.update(next_value(&mut state));
        if step % 50 == 0 {
            assert!(i.get() >= 0);
        }
    }
    assert!(i.get() >= 0);
}
