//! Incremental skewness from running power sums.

use vstd::prelude::*;

verus! {

use crate::fixed::div_trunc;
use crate::fixed::is_isqrt;
use crate::fixed::isqrt;
use crate::fixed::lemma_tdiv_bound;
use crate::fixed::lemma_tdiv_sign_mag;
use crate::fixed::lemma_tdiv_zero;
use crate::fixed::fx_mul;
use crate::fixed::sqrt_floor;
use crate::fixed::tdiv;
use crate::fixed::COUNT_MAX;
use crate::fixed::SCALE;
use crate::fixed::VAL_MAX;
use crate::moments::clamp_i128;
use crate::moments::clamp_mag;
use crate::moments::fx2;
use crate::moments::fx3;
use crate::moments::lemma_power_bounds;
use crate::moments::lemma_sums_push;
use crate::moments::pow2_exec;
use crate::moments::sum1;
use crate::moments::sum_fx2;
use crate::moments::sum_fx3;
use crate::moments::POW2_TERM_MAX;
use crate::moments::POW3_TERM_MAX;
use crate::moments::STAT_MAX;

/// The skewness reported for a history: the third central moment over
/// the second to the three-halves, from the running power sums, with
/// the population value saturated to `STAT_MAX`; zero while too few
/// observations make the ratio undefined, and zero where the second
/// moment vanishes. With `biased` false the standard sample correction
/// `sqrt(n (n - 1)) / (n - 2)` is applied.
pub open spec fn skew_of(obs: Seq<i64>, biased: bool) -> int {
    let n = obs.len() as int;
    let s = SCALE as int;
    if (biased && n < 2) || (!biased && n < 3) {
        0
    } else {
        let mean = tdiv(sum1(obs), n);
        let e2 = tdiv(sum_fx2(obs), n);
        let m2 = e2 - fx_mul(mean, mean);
        if m2 <= 0 {
            0
        } else {
            let m3 = tdiv(sum_fx3(obs), n) - 3 * fx_mul(mean, e2) + 2 * fx_mul(
                fx_mul(mean, mean),
                mean,
            );
            let denom = fx_mul(m2, sqrt_floor(m2 * s));
            if denom <= 0 {
                0
            } else {
                let g1 = clamp_mag(tdiv(m3 * s, denom), STAT_MAX as int);
                if biased {
                    g1
                } else {
                    let f = tdiv(sqrt_floor(n * (n - 1) * s * s), n - 2);
                    clamp_mag(fx_mul(g1, f), STAT_MAX as int)
                }
            }
        }
    }
}

/// A sample symmetric about zero — its values and their cubed
/// fixed-point powers both sum to zero — has skewness exactly zero.
pub proof fn lemma_symmetric_sample_skew_zero(obs: Seq<i64>, biased: bool)
    requires
        sum1(obs) == 0,
        sum_fx3(obs) == 0,
    ensures
        skew_of(obs, biased) == 0,
{
    let n = obs.len() as int;
    let s = SCALE as int;
    if !((biased && n < 2) || (!biased && n < 3)) {
        lemma_tdiv_zero(n);
        let mean = tdiv(sum1(obs), n);
        assert(mean == 0);
        assert(0 * 0 == 0);
        lemma_tdiv_zero(s);
        assert(fx_mul(0, 0) == 0);
        let e2 = tdiv(sum_fx2(obs), n);
        let m2 = e2 - fx_mul(mean, mean);
        if m2 > 0 {
            assert(0 * e2 == 0);
            assert(fx_mul(0, e2) == 0);
            let m3 = tdiv(sum_fx3(obs), n) - 3 * fx_mul(mean, e2) + 2 * fx_mul(
                fx_mul(mean, mean),
                mean,
            );
            assert(m3 == 0);
            let denom = fx_mul(m2, sqrt_floor(m2 * s));
            if denom > 0 {
                assert(0 * s == 0);
                lemma_tdiv_zero(denom);
                assert(tdiv(m3 * s, denom) == 0);
                if !biased {
                    let f = tdiv(sqrt_floor(n * (n - 1) * s * s), n - 2);
                    assert(0 * f == 0);
                    assert(fx_mul(0, f) == 0);
                }
            }
        }
    }
}

/// Incremental skewness: constant-space running power sums, reported
/// as the (optionally bias-corrected) standardized third moment.
pub struct Skewness {
    biased: bool,
    n: u64,
    s1: i128,
    s2: i128,
    s3: i128,
    hist: Ghost<Seq<i64>>,
}

impl Skewness {
    /// The observations seen so far, oldest first.
    pub closed spec fn obs(&self) -> Seq<i64> {
        self.hist@
    }

    /// Whether the population (biased) form is reported.
    pub closed spec fn biased_spec(&self) -> bool {
        self.biased
    }

    /// How many observations have been seen.
    pub closed spec fn count(&self) -> int {
        self.n as int
    }

    /// The fields carry the exact power sums of the history, each sum
    /// within its count-scaled bound.
    pub closed spec fn wf(&self) -> bool {
        &&& self.count() == self.obs().len()
        &&& self.n <= COUNT_MAX
        &&& self.s1 as int == sum1(self.obs())
        &&& self.s2 as int == sum_fx2(self.obs())
        &&& self.s3 as int == sum_fx3(self.obs())
        &&& -(self.count() * (VAL_MAX as int)) <= self.s1 as int <= self.count() * (VAL_MAX as int)
        &&& 0 <= self.s2 as int <= self.count() * (POW2_TERM_MAX as int)
        &&& -(self.count() * (POW3_TERM_MAX as int)) <= self.s3 as int <= self.count() * (
        POW3_TERM_MAX as int)
    }

    /// A skewness estimator; `biased` picks the population form,
    /// otherwise the sample bias correction is applied. No parameter
    /// can be invalid, so construction cannot fail.
    pub fn new(biased: bool) -> (r: Skewness)
        ensures
            r.wf(),
            r.obs() == Seq::<i64>::empty(),
            r.biased_spec() == biased,
    {
        Skewness { biased, n: 0, s1: 0, s2: 0, s3: 0, hist: Ghost(Seq::empty()) }
    }

    /// Fold one observation into the power sums.
    pub fn update(&mut self, x: i64)
        requires
            old(self).wf(),
            -VAL_MAX <= x <= VAL_MAX,
            old(self).count() < COUNT_MAX,
        ensures
            final(self).wf(),
            final(self).obs() == old(self).obs().push(x),
            final(self).biased_spec() == old(self).biased_spec(),
            final(self).count() == old(self).count() + 1,
    {
        proof {
            lemma_sums_push(self.hist@, x);
            lemma_power_bounds(x as int);
        }
        let q2: i128 = pow2_exec(x);
        proof {
            assert(0 <= q2 as int * (x as int) <= (POW3_TERM_MAX as int) * 1_000_000 || 0 >= q2
                as int * (x as int) >= -((POW3_TERM_MAX as int) * 1_000_000)) by (nonlinear_arith)
                requires
                    0 <= q2 as int <= POW2_TERM_MAX as int,
                    -1_000_000_000_000 <= x as int <= 1_000_000_000_000,
                    POW2_TERM_MAX as int == 1_000_000_000_000_000_000,
                    POW3_TERM_MAX as int == 1_000_000_000_000_000_000_000_000,
            ;
            lemma_tdiv_bound(q2 as int * (x as int), SCALE as int, POW3_TERM_MAX as int);
        }
        let q3: i128 = div_trunc(q2 * (x as i128), SCALE as i128);
        proof {
            assert(fx3(x as int) == tdiv(fx2(x as int) * (x as int), SCALE as int));
        }
        self.n = self.n + 1;
        self.s1 = self.s1 + (x as i128);
        self.s2 = self.s2 + q2;
        self.s3 = self.s3 + q3;
        self.hist = Ghost(self.hist@.push(x));
    }

    /// The current skewness estimate, exactly as `skew_of` lays it
    /// down; zero until enough observations make it defined.
    pub fn get(&self) -> (r: i64)
        requires
            self.wf(),
        ensures
            r as int == skew_of(self.obs(), self.biased_spec()),
    {
        let s: i128 = SCALE as i128;
        if (self.biased && self.n < 2) || (!self.biased && self.n < 3) {
            return 0;
        }
        let n: i128 = self.n as i128;
        proof {
            lemma_tdiv_bound(self.s1 as int, n as int, VAL_MAX as int);
            lemma_tdiv_bound(self.s2 as int, n as int, POW2_TERM_MAX as int);
            lemma_tdiv_sign_mag(self.s2 as int, n as int);
        }
        let mean: i128 = div_trunc(self.s1, n);
        let e2: i128 = div_trunc(self.s2, n);
        proof {
            assert(0 <= mean as int * (mean as int) <= 1_000_000_000_000_000_000 * 1_000_000)
                by (nonlinear_arith)
                requires
                    -1_000_000_000_000 <= mean as int <= 1_000_000_000_000,
            ;
            lemma_tdiv_bound(mean as int * (mean as int), SCALE as int, POW2_TERM_MAX as int);
            lemma_tdiv_sign_mag(mean as int * (mean as int), SCALE as int);
        }
        let mm: i128 = div_trunc(mean * mean, s);
        let m2: i128 = e2 - mm;
        if m2 <= 0 {
            return 0;
        }
        let root: i128 = isqrt(m2 * s);
        proof {
            assert(root as int <= 1_000_000_000_000) by (nonlinear_arith)
                requires
                    is_isqrt((m2 * s) as int, root as int),
                    0 < (m2 * s) as int <= 1_000_000_000_000_000_000 * 1_000_000,
            ;
            assert(0 <= m2 as int * (root as int) <= (POW3_TERM_MAX as int) * 1_000_000)
                by (nonlinear_arith)
                requires
                    0 < m2 as int <= POW2_TERM_MAX as int,
                    0 <= root as int <= 1_000_000_000_000,
                    POW2_TERM_MAX as int == 1_000_000_000_000_000_000,
                    POW3_TERM_MAX as int == 1_000_000_000_000_000_000_000_000,
            ;
            lemma_tdiv_bound(m2 as int * (root as int), SCALE as int, POW3_TERM_MAX as int);
            lemma_tdiv_sign_mag(m2 as int * (root as int), SCALE as int);
        }
        let denom: i128 = div_trunc(m2 * root, s);
        if denom <= 0 {
            return 0;
        }
        proof {
            lemma_tdiv_bound(self.s3 as int, n as int, POW3_TERM_MAX as int);
            assert({
                &&& -(POW3_TERM_MAX as int) * 1_000_000 <= mean as int * (e2 as int) <= (
                POW3_TERM_MAX as int) * 1_000_000
                &&& -(POW3_TERM_MAX as int) * 1_000_000 <= mm as int * (mean as int) <= (
                POW3_TERM_MAX as int) * 1_000_000
            }) by (nonlinear_arith)
                requires
                    -1_000_000_000_000 <= mean as int <= 1_000_000_000_000,
                    0 <= e2 as int <= POW2_TERM_MAX as int,
                    0 <= mm as int <= POW2_TERM_MAX as int,
                    POW2_TERM_MAX as int == 1_000_000_000_000_000_000,
                    POW3_TERM_MAX as int == 1_000_000_000_000_000_000_000_000,
            ;
            lemma_tdiv_bound(mean as int * (e2 as int), SCALE as int, POW3_TERM_MAX as int);
            lemma_tdiv_bound(mm as int * (mean as int), SCALE as int, POW3_TERM_MAX as int);
        }
        let e3: i128 = div_trunc(self.s3, n);
        let t3: i128 = div_trunc(mean * e2, s);
        let u3: i128 = div_trunc(mm * mean, s);
        let m3: i128 = e3 - 3 * t3 + 2 * u3;
        proof {
            lemma_tdiv_sign_mag(m3 as int * (SCALE as int), denom as int);
        }
        let g1raw: i128 = div_trunc(m3 * s, denom);
        let g1: i128 = clamp_i128(g1raw, STAT_MAX as i128);
        if self.biased {
            return g1 as i64;
        }
        proof {
            assert(0 <= (n as int) * (n as int - 1) <= 100_000_000_000_000) by (nonlinear_arith)
                requires
                    3 <= n as int <= 10_000_000,
            ;
        }
        let nn: i128 = n * (n - 1) * s * s;
        let froot: i128 = isqrt(nn);
        proof {
            assert(froot as int <= 20_000_000_000_000) by (nonlinear_arith)
                requires
                    is_isqrt(nn as int, froot as int),
                    0 <= nn as int <= 100_000_000_000_000 * 1_000_000_000_000,
            ;
            lemma_tdiv_sign_mag(froot as int, n as int - 2);
        }
        let f: i128 = div_trunc(froot, n - 2);
        proof {
            assert(-(20_000_000_000_000 * 1_000_000_000_000_000) <= g1 as int * (f as int)
                <= 20_000_000_000_000 * 1_000_000_000_000_000) by (nonlinear_arith)
                requires
                    -1_000_000_000_000_000 <= g1 as int <= 1_000_000_000_000_000,
                    0 <= f as int <= 20_000_000_000_000,
            ;
            lemma_tdiv_bound(
                g1 as int * (f as int),
                SCALE as int,
                20_000_000_000_000int * 1_000_000_000int,
            );
        }
        let gf: i128 = div_trunc(g1 * f, s);
        let r: i128 = clamp_i128(gf, STAT_MAX as i128);
        r as i64
    }
}

} // verus!
