//! Exponentially weighted running variance, in the style of Welford's
//! online update: the mean moves first, and the variance folds in the
//! product of the deviation before and the increment, avoiding the
//! cancellation of large raw sums.

use vstd::prelude::*;

verus! {

use crate::fixed::div_trunc;
use crate::fixed::lemma_tdiv_bound;
use crate::fixed::lemma_tdiv_sign_mag;
use crate::fixed::lemma_tdiv_zero;
use crate::fixed::tdiv;
use crate::fixed::SCALE;
use crate::fixed::VAL_MAX;
use crate::InvalidParameter;

/// Largest raw magnitude the variance accumulator can reach; every
/// update provably keeps it under this.
pub const EW_VAR_MAX: i128 = 4_000_000_000_000_000_000_000_000;

/// Largest raw magnitude of one folded squared deviation.
pub const EW_DIFF_MAX: i128 = 4_000_000_000_000_000_000;

/// Where the mean stands after folding in `x`.
pub open spec fn ewv_mean_step(m: int, x: int, a: int) -> int {
    m + tdiv(a * (x - m), SCALE as int)
}

/// Where the variance stands after folding in `x` against the old mean.
pub open spec fn ewv_var_step(m: int, v: int, x: int, a: int) -> int {
    let d = x - m;
    let incr = tdiv(a * d, SCALE as int);
    tdiv(((SCALE as int) - a) * (v + tdiv(d * incr, SCALE as int)), SCALE as int)
}

/// The mean component of the estimator over a whole history.
pub open spec fn ewv_mean_of(obs: Seq<i64>, a: int) -> int
    decreases obs.len(),
{
    if obs.len() == 0 {
        0
    } else if obs.len() == 1 {
        obs[0] as int
    } else {
        ewv_mean_step(ewv_mean_of(obs.drop_last(), a), obs.last() as int, a)
    }
}

/// The variance component of the estimator over a whole history; zero
/// until a second observation arrives.
pub open spec fn ewv_var_of(obs: Seq<i64>, a: int) -> int
    decreases obs.len(),
{
    if obs.len() <= 1 {
        0
    } else {
        ewv_var_step(
            ewv_mean_of(obs.drop_last(), a),
            ewv_var_of(obs.drop_last(), a),
            obs.last() as int,
            a,
        )
    }
}

/// With full smoothing (`a == SCALE`) every observation replaces the
/// state outright, so the variance is zero after every update.
pub proof fn lemma_full_alpha_var_zero(obs: Seq<i64>, x: i64)
    ensures
        ewv_var_of(obs.push(x), SCALE as int) == 0,
{
    let s = SCALE as int;
    assert(obs.push(x).drop_last() =~= obs);
    assert(obs.push(x).last() == x);
    if obs.len() >= 1 {
        let m = ewv_mean_of(obs, s);
        let v = ewv_var_of(obs, s);
        let d = (x as int) - m;
        let incr = tdiv(s * d, s);
        assert((s - s) * (v + tdiv(d * incr, s)) == 0);
        lemma_tdiv_zero(s);
    }
}

/// Exponentially weighted running variance with smoothing constant
/// `alpha` in `(0, 1]` (raw: `(0, SCALE]`).
pub struct EwVariance {
    alpha: i64,
    mean: i64,
    var: i128,
    seen: bool,
    hist: Ghost<Seq<i64>>,
}

impl EwVariance {
    /// The observations seen so far, oldest first.
    pub closed spec fn obs(&self) -> Seq<i64> {
        self.hist@
    }

    /// The raw smoothing constant.
    pub closed spec fn alpha_spec(&self) -> int {
        self.alpha as int
    }

    /// The fields carry exactly the folded history, within their
    /// provable bounds.
    pub closed spec fn wf(&self) -> bool {
        &&& 0 < self.alpha <= SCALE
        &&& (self.seen <==> self.obs().len() > 0)
        &&& self.mean as int == ewv_mean_of(self.obs(), self.alpha_spec())
        &&& self.var as int == ewv_var_of(self.obs(), self.alpha_spec())
        &&& -VAL_MAX <= self.mean <= VAL_MAX
        &&& 0 <= self.var <= EW_VAR_MAX
    }

    /// An estimator with smoothing constant `alpha`; rejected unless
    /// `0 < alpha <= SCALE`.
    pub fn new(alpha: i64) -> (r: Result<EwVariance, InvalidParameter>)
        ensures
            r is Ok <==> 0 < alpha <= SCALE,
            r matches Ok(e) ==> e.wf() && e.obs() == Seq::<i64>::empty() && e.alpha_spec()
                == alpha as int,
            r matches Err(p) ==> p == InvalidParameter::Alpha,
    {
        if 0 < alpha && alpha <= SCALE {
            Ok(EwVariance { alpha, mean: 0, var: 0, seen: false, hist: Ghost(Seq::empty()) })
        } else {
            Err(InvalidParameter::Alpha)
        }
    }

    /// Fold one observation into the mean and the variance.
    pub fn update(&mut self, x: i64)
        requires
            old(self).wf(),
            -VAL_MAX <= x <= VAL_MAX,
        ensures
            final(self).wf(),
            final(self).obs() == old(self).obs().push(x),
            final(self).alpha_spec() == old(self).alpha_spec(),
    {
        let s = SCALE as i128;
        if !self.seen {
            self.mean = x;
            self.var = 0;
            self.seen = true;
        } else {
            let a: i128 = self.alpha as i128;
            let d: i128 = (x as i128) - (self.mean as i128);
            proof {
                let ai = a as int;
                let di = d as int;
                assert(-(2_000_000_000_000 * 1_000_000) <= ai * di <= 2_000_000_000_000
                    * 1_000_000) by (nonlinear_arith)
                    requires
                        0 < ai <= 1_000_000,
                        -2_000_000_000_000 <= di <= 2_000_000_000_000,
                ;
                lemma_tdiv_bound(ai * di, SCALE as int, 2_000_000_000_000);
                lemma_tdiv_sign_mag(ai * di, SCALE as int);
                // the increment never overshoots the deviation
                if di >= 0 {
                    assert(ai * di <= 1_000_000 * di) by (nonlinear_arith)
                        requires
                            0 < ai <= 1_000_000,
                            di >= 0,
                    ;
                    lemma_tdiv_bound(ai * di, SCALE as int, di);
                } else {
                    assert(1_000_000 * di <= ai * di <= 0) by (nonlinear_arith)
                        requires
                            0 < ai <= 1_000_000,
                            di < 0,
                    ;
                    lemma_tdiv_bound(ai * di, SCALE as int, -di);
                }
            }
            let incr: i128 = div_trunc(a * d, s);
            let m2: i128 = (self.mean as i128) + incr;
            proof {
                let di = d as int;
                let ii = incr as int;
                assert(0 <= di * ii <= 4_000_000_000_000 * 1_000_000_000_000) by (nonlinear_arith)
                    requires
                        -2_000_000_000_000 <= di <= 2_000_000_000_000,
                        -2_000_000_000_000 <= ii <= 2_000_000_000_000,
                        di >= 0 ==> 0 <= ii <= di,
                        di < 0 ==> di <= ii <= 0,
                ;
                lemma_tdiv_bound(di * ii, SCALE as int, EW_DIFF_MAX as int);
                lemma_tdiv_sign_mag(di * ii, SCALE as int);
            }
            let dd: i128 = div_trunc(d * incr, s);
            proof {
                let ai = a as int;
                let wi = (self.var + dd) as int;
                assert(0 <= (1_000_000 - ai) * wi <= 1_000_000 * EW_VAR_MAX as int)
                    by (nonlinear_arith)
                    requires
                        0 < ai <= 1_000_000,
                        0 <= wi <= EW_VAR_MAX as int + EW_DIFF_MAX as int,
                        EW_VAR_MAX as int == 4_000_000_000_000_000_000_000_000,
                        EW_DIFF_MAX as int == 4_000_000_000_000_000_000,
                ;
                lemma_tdiv_bound((1_000_000 - ai) * wi, SCALE as int, EW_VAR_MAX as int);
                lemma_tdiv_sign_mag((1_000_000 - ai) * wi, SCALE as int);
            }
            let v2: i128 = div_trunc((s - a) * (self.var + dd), s);
            self.mean = m2 as i64;
            self.var = v2;
        }
        proof {
            assert(self.hist@.push(x).drop_last() =~= self.hist@);
        }
        self.hist = Ghost(self.hist@.push(x));
    }

    /// The current exponentially weighted variance; zero before a
    /// second observation, and never negative. A variance of values up
    /// to a million units can square past `i64`, so the estimate comes
    /// back in the accumulator's own width.
    pub fn get(&self) -> (r: i128)
        requires
            self.wf(),
        ensures
            r as int == ewv_var_of(self.obs(), self.alpha_spec()),
            r >= 0,
            self.obs().len() <= 1 ==> r == 0,
    {
        self.var
    }
}

} // verus!
