//! Incremental excess kurtosis from running power sums.

use vstd::prelude::*;

verus! {

use crate::fixed::div_trunc;
use crate::fixed::fx_mul;
use crate::fixed::lemma_tdiv_bound;
use crate::fixed::lemma_tdiv_sign_mag;
use crate::fixed::tdiv;
use crate::fixed::COUNT_MAX;
use crate::fixed::SCALE;
use crate::fixed::VAL_MAX;
use crate::moments::clamp_i128;
use crate::moments::clamp_mag;
use crate::moments::lemma_power_bounds;
use crate::moments::lemma_sums_push;
use crate::moments::pow2_exec;
use crate::moments::sum1;
use crate::moments::sum_fx2;
use crate::moments::sum_fx3;
use crate::moments::sum_fx4;
use crate::moments::POW2_TERM_MAX;
use crate::moments::POW3_TERM_MAX;
use crate::moments::POW4_TERM_MAX;
use crate::moments::STAT_MAX;

/// The excess kurtosis reported for a history: the fourth central
/// moment over the squared second, minus three, from the running power
/// sums, with the population value saturated to `STAT_MAX`; zero while
/// too few observations make the ratio defined, and zero where the
/// second moment vanishes. With `biased` false the standard sample
/// correction `((n + 1) g2 + 6) (n - 1) / ((n - 2)(n - 3))` is
/// applied, defined from four observations on.
pub open spec fn kurt_of(obs: Seq<i64>, biased: bool) -> int {
    let n = obs.len() as int;
    let s = SCALE as int;
    if (biased && n < 2) || (!biased && n < 4) {
        0
    } else {
        let mean = tdiv(sum1(obs), n);
        let e2 = tdiv(sum_fx2(obs), n);
        let mm = fx_mul(mean, mean);
        let m2 = e2 - mm;
        if m2 <= 0 {
            0
        } else {
            let e3 = tdiv(sum_fx3(obs), n);
            let e4 = tdiv(sum_fx4(obs), n);
            let m4 = e4 - 4 * fx_mul(mean, e3) + 6 * fx_mul(mm, e2) - 3 * fx_mul(mm, mm);
            let denom = fx_mul(m2, m2);
            if denom <= 0 {
                0
            } else {
                let g2 = clamp_mag(tdiv(m4 * s, denom) - 3 * s, STAT_MAX as int);
                if biased {
                    g2
                } else {
                    clamp_mag(
                        tdiv(((n + 1) * g2 + 6 * s) * (n - 1), (n - 2) * (n - 3)),
                        STAT_MAX as int,
                    )
                }
            }
        }
    }
}

/// Incremental excess kurtosis: constant-space running power sums,
/// reported as the (optionally bias-corrected) standardized fourth
/// moment minus three.
pub struct Kurtosis {
    biased: bool,
    n: u64,
    s1: i128,
    s2: i128,
    s3: i128,
    s4: i128,
    hist: Ghost<Seq<i64>>,
}

impl Kurtosis {
    /// The observations seen so far, oldest first.
    pub closed spec fn obs(&self) -> Seq<i64> {
        self.hist@
    }

    /// Whether the population (biased) form is reported.
    pub closed spec fn biased_spec(&self) -> bool {
        self.biased
    }

    /// How many observations have been seen.
    pub closed spec fn count(&self) -> int {
        self.n as int
    }

    /// The fields carry the exact power sums of the history, each sum
    /// within its count-scaled bound.
    pub closed spec fn wf(&self) -> bool {
        &&& self.count() == self.obs().len()
        &&& self.n <= COUNT_MAX
        &&& self.s1 as int == sum1(self.obs())
        &&& self.s2 as int == sum_fx2(self.obs())
        &&& self.s3 as int == sum_fx3(self.obs())
        &&& self.s4 as int == sum_fx4(self.obs())
        &&& -(self.count() * (VAL_MAX as int)) <= self.s1 as int <= self.count() * (VAL_MAX as int)
        &&& 0 <= self.s2 as int <= self.count() * (POW2_TERM_MAX as int)
        &&& -(self.count() * (POW3_TERM_MAX as int)) <= self.s3 as int <= self.count() * (
        POW3_TERM_MAX as int)
        &&& 0 <= self.s4 as int <= self.count() * (POW4_TERM_MAX as int)
    }

    /// A kurtosis estimator; `biased` picks the population form,
    /// otherwise the sample bias correction is applied. No parameter
    /// can be invalid, so construction cannot fail.
    pub fn new(biased: bool) -> (r: Kurtosis)
        ensures
            r.wf(),
            r.obs() == Seq::<i64>::empty(),
            r.biased_spec() == biased,
    {
        Kurtosis { biased, n: 0, s1: 0, s2: 0, s3: 0, s4: 0, hist: Ghost(Seq::empty()) }
    }

    /// Fold one observation into the power sums.
    pub fn update(&mut self, x: i64)
        requires
            old(self).wf(),
            -VAL_MAX <= x <= VAL_MAX,
            old(self).count() < COUNT_MAX,
        ensures
            final(self).wf(),
            final(self).obs() == old(self).obs().push(x),
            final(self).biased_spec() == old(self).biased_spec(),
            final(self).count() == old(self).count() + 1,
    {
        proof {
            lemma_sums_push(self.hist@, x);
            lemma_power_bounds(x as int);
        }
        let q2: i128 = pow2_exec(x);
        proof {
            assert(-((POW3_TERM_MAX as int) * 1_000_000) <= q2 as int * (x as int) <= (
            POW3_TERM_MAX as int) * 1_000_000) by (nonlinear_arith)
                requires
                    0 <= q2 as int <= POW2_TERM_MAX as int,
                    -1_000_000_000_000 <= x as int <= 1_000_000_000_000,
                    POW2_TERM_MAX as int == 1_000_000_000_000_000_000,
                    POW3_TERM_MAX as int == 1_000_000_000_000_000_000_000_000,
            ;
            lemma_tdiv_bound(q2 as int * (x as int), SCALE as int, POW3_TERM_MAX as int);
            assert(0 <= q2 as int * (q2 as int) <= (POW4_TERM_MAX as int) * 1_000_000)
                by (nonlinear_arith)
                requires
                    0 <= q2 as int <= POW2_TERM_MAX as int,
                    POW2_TERM_MAX as int == 1_000_000_000_000_000_000,
                    POW4_TERM_MAX as int == 1_000_000_000_000_000_000_000_000_000_000,
            ;
            lemma_tdiv_bound(q2 as int * (q2 as int), SCALE as int, POW4_TERM_MAX as int);
            lemma_tdiv_sign_mag(q2 as int * (q2 as int), SCALE as int);
        }
        let q3: i128 = div_trunc(q2 * (x as i128), SCALE as i128);
        let q4: i128 = div_trunc(q2 * q2, SCALE as i128);
        self.n = self.n + 1;
        self.s1 = self.s1 + (x as i128);
        self.s2 = self.s2 + q2;
        self.s3 = self.s3 + q3;
        self.s4 = self.s4 + q4;
        self.hist = Ghost(self.hist@.push(x));
    }

    /// The current excess kurtosis estimate, exactly as `kurt_of` lays
    /// it down; zero until enough observations make it defined.
    pub fn get(&self) -> (r: i64)
        requires
            self.wf(),
        ensures
            r as int == kurt_of(self.obs(), self.biased_spec()),
    {
        let s: i128 = SCALE as i128;
        if (self.biased && self.n < 2) || (!self.biased && self.n < 4) {
            return 0;
        }
        let n: i128 = self.n as i128;
        proof {
            lemma_tdiv_bound(self.s1 as int, n as int, VAL_MAX as int);
            lemma_tdiv_bound(self.s2 as int, n as int, POW2_TERM_MAX as int);
            lemma_tdiv_sign_mag(self.s2 as int, n as int);
        }
        let mean: i128 = div_trunc(self.s1, n);
        let e2: i128 = div_trunc(self.s2, n);
        proof {
            assert(0 <= mean as int * (mean as int) <= 1_000_000_000_000_000_000 * 1_000_000)
                by (nonlinear_arith)
                requires
                    -1_000_000_000_000 <= mean as int <= 1_000_000_000_000,
            ;
            lemma_tdiv_bound(mean as int * (mean as int), SCALE as int, POW2_TERM_MAX as int);
            lemma_tdiv_sign_mag(mean as int * (mean as int), SCALE as int);
        }
        let mm: i128 = div_trunc(mean * mean, s);
        let m2: i128 = e2 - mm;
        if m2 <= 0 {
            return 0;
        }
        proof {
            lemma_tdiv_bound(self.s3 as int, n as int, POW3_TERM_MAX as int);
            lemma_tdiv_bound(self.s4 as int, n as int, POW4_TERM_MAX as int);
            lemma_tdiv_sign_mag(self.s4 as int, n as int);
        }
        let e3: i128 = div_trunc(self.s3, n);
        let e4: i128 = div_trunc(self.s4, n);
        proof {
            assert({
                &&& -((POW4_TERM_MAX as int) * 1_000_000) <= mean as int * (e3 as int) <= (
                POW4_TERM_MAX as int) * 1_000_000
                &&& 0 <= mm as int * (e2 as int) <= (POW4_TERM_MAX as int) * 1_000_000
                &&& 0 <= mm as int * (mm as int) <= (POW4_TERM_MAX as int) * 1_000_000
                &&& 0 <= m2 as int * (m2 as int) <= (POW4_TERM_MAX as int) * 1_000_000
            }) by (nonlinear_arith)
                requires
                    -1_000_000_000_000 <= mean as int <= 1_000_000_000_000,
                    -(POW3_TERM_MAX as int) <= e3 as int <= POW3_TERM_MAX as int,
                    0 <= e2 as int <= POW2_TERM_MAX as int,
                    0 <= mm as int <= POW2_TERM_MAX as int,
                    0 < m2 as int <= POW2_TERM_MAX as int,
                    POW2_TERM_MAX as int == 1_000_000_000_000_000_000,
                    POW3_TERM_MAX as int == 1_000_000_000_000_000_000_000_000,
                    POW4_TERM_MAX as int == 1_000_000_000_000_000_000_000_000_000_000,
            ;
            lemma_tdiv_bound(mean as int * (e3 as int), SCALE as int, POW4_TERM_MAX as int);
            lemma_tdiv_bound(mm as int * (e2 as int), SCALE as int, POW4_TERM_MAX as int);
            lemma_tdiv_bound(mm as int * (mm as int), SCALE as int, POW4_TERM_MAX as int);
            lemma_tdiv_bound(m2 as int * (m2 as int), SCALE as int, POW4_TERM_MAX as int);
            lemma_tdiv_sign_mag(mm as int * (e2 as int), SCALE as int);
            lemma_tdiv_sign_mag(mm as int * (mm as int), SCALE as int);
            lemma_tdiv_sign_mag(m2 as int * (m2 as int), SCALE as int);
        }
        let t3: i128 = div_trunc(mean * e3, s);
        let t2: i128 = div_trunc(mm * e2, s);
        let t0: i128 = div_trunc(mm * mm, s);
        let m4: i128 = e4 - 4 * t3 + 6 * t2 - 3 * t0;
        let denom: i128 = div_trunc(m2 * m2, s);
        if denom <= 0 {
            return 0;
        }
        proof {
            lemma_tdiv_sign_mag(m4 as int * (SCALE as int), denom as int);
        }
        let g2raw: i128 = div_trunc(m4 * s, denom) - 3 * s;
        let g2: i128 = clamp_i128(g2raw, STAT_MAX as i128);
        if self.biased {
            return g2 as i64;
        }
        proof {
            assert({
                &&& -(20_000_000_000_000_000_000_000_000int) <= ((n as int) + 1) * (g2 as int)
                    <= 20_000_000_000_000_000_000_000_000int
                &&& 2 <= ((n as int) - 2) * ((n as int) - 3) <= 100_000_000_000_000
            }) by (nonlinear_arith)
                requires
                    4 <= n as int <= 10_000_000,
                    -1_000_000_000_000_000 <= g2 as int <= 1_000_000_000_000_000,
            ;
        }
        let num1: i128 = (n + 1) * g2 + 6 * s;
        proof {
            assert(-(300_000_000_000_000_000_000_000_000_000_000int) <= (num1 as int) * ((n as int)
                - 1) <= 300_000_000_000_000_000_000_000_000_000_000int) by (nonlinear_arith)
                requires
                    4 <= n as int <= 10_000_000,
                    -30_000_000_000_000_000_000_000_000int <= num1 as int
                        <= 30_000_000_000_000_000_000_000_000int,
            ;
        }
        let num: i128 = num1 * (n - 1);
        let den: i128 = (n - 2) * (n - 3);
        proof {
            lemma_tdiv_sign_mag(num as int, den as int);
        }
        let corrected: i128 = div_trunc(num, den);
        let r: i128 = clamp_i128(corrected, STAT_MAX as i128);
        r as i64
    }
}

} // verus!
