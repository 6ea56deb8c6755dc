//! Exponentially weighted running mean.

use vstd::prelude::*;

verus! {

use crate::fixed::div_trunc;
use crate::fixed::lemma_tdiv_bound;
use crate::fixed::tdiv;
use crate::fixed::lemma_tdiv_exact;
use crate::fixed::SCALE;
use crate::fixed::VAL_MAX;
use crate::InvalidParameter;

/// One smoothing step: the new observation weighted by `a`, the old
/// mean by `SCALE - a` (raw weights of a constant in `(0, 1]`).
pub open spec fn ew_step(m: int, x: int, a: int) -> int {
    tdiv(a * x + ((SCALE as int) - a) * m, SCALE as int)
}

/// The exponentially weighted mean of a history: the first observation
/// as it stands, every later one folded in by `ew_step`; zero for an
/// empty history.
pub open spec fn ew_mean_of(obs: Seq<i64>, a: int) -> int
    decreases obs.len(),
{
    if obs.len() == 0 {
        0
    } else if obs.len() == 1 {
        obs[0] as int
    } else {
        ew_step(ew_mean_of(obs.drop_last(), a), obs.last() as int, a)
    }
}

/// With full smoothing (`a == SCALE`) the mean keeps no memory: it is
/// always exactly the last observation.
pub proof fn lemma_full_alpha_forgets(obs: Seq<i64>, x: i64)
    ensures
        ew_mean_of(obs.push(x), SCALE as int) == x as int,
{
    let s = SCALE as int;
    assert(obs.push(x).drop_last() =~= obs);
    assert(obs.push(x).last() == x);
    if obs.len() > 0 {
        let m = ew_mean_of(obs, s);
        assert(ew_step(m, x as int, s) == x as int) by {
            assert(s * (x as int) + (s - s) * m == s * (x as int)) by (nonlinear_arith);
            lemma_tdiv_exact(x as int, s);
        }
    }
}

/// Exponentially weighted running mean with smoothing constant
/// `alpha` in `(0, 1]` (raw: `(0, SCALE]`).
pub struct EwMean {
    alpha: i64,
    mean: i64,
    seen: bool,
    hist: Ghost<Seq<i64>>,
}

impl EwMean {
    /// The observations seen so far, oldest first.
    pub closed spec fn obs(&self) -> Seq<i64> {
        self.hist@
    }

    /// The raw smoothing constant.
    pub closed spec fn alpha_spec(&self) -> int {
        self.alpha as int
    }

    /// The mean field carries exactly the folded history.
    pub closed spec fn wf(&self) -> bool {
        &&& 0 < self.alpha <= SCALE
        &&& (self.seen <==> self.obs().len() > 0)
        &&& self.mean as int == ew_mean_of(self.obs(), self.alpha_spec())
        &&& -VAL_MAX <= self.mean <= VAL_MAX
    }

    /// An estimator with smoothing constant `alpha`; rejected unless
    /// `0 < alpha <= SCALE`.
    pub fn new(alpha: i64) -> (r: Result<EwMean, InvalidParameter>)
        ensures
            r is Ok <==> 0 < alpha <= SCALE,
            r matches Ok(e) ==> e.wf() && e.obs() == Seq::<i64>::empty() && e.alpha_spec()
                == alpha as int,
            r matches Err(p) ==> p == InvalidParameter::Alpha,
    {
        if 0 < alpha && alpha <= SCALE {
            Ok(EwMean { alpha, mean: 0, seen: false, hist: Ghost(Seq::empty()) })
        } else {
            Err(InvalidParameter::Alpha)
        }
    }

    /// Fold one observation into the mean.
    pub fn update(&mut self, x: i64)
        requires
            old(self).wf(),
            -VAL_MAX <= x <= VAL_MAX,
        ensures
            final(self).wf(),
            final(self).obs() == old(self).obs().push(x),
            final(self).alpha_spec() == old(self).alpha_spec(),
    {
        let s = SCALE as i128;
        if !self.seen {
            self.mean = x;
            self.seen = true;
        } else {
            let a: i128 = self.alpha as i128;
            proof {
                let ai = self.alpha as int;
                let xi = x as int;
                let mi = self.mean as int;
                assert({
                    &&& -1_000_000_000_000_000_000 <= ai * xi <= 1_000_000_000_000_000_000
                    &&& -1_000_000_000_000_000_000 <= (1_000_000 - ai) * mi
                        <= 1_000_000_000_000_000_000
                    &&& -(1_000_000_000_000 * 1_000_000) <= ai * xi + (1_000_000 - ai) * mi <= (
                    1_000_000_000_000 * 1_000_000)
                }) by (nonlinear_arith)
                    requires
                        0 < ai <= 1_000_000,
                        -1_000_000_000_000 <= xi <= 1_000_000_000_000,
                        -1_000_000_000_000 <= mi <= 1_000_000_000_000,
                ;
                lemma_tdiv_bound(
                    (self.alpha as int) * (x as int) + ((SCALE as int) - self.alpha as int) * (
                    self.mean as int),
                    SCALE as int,
                    VAL_MAX as int,
                );
            }
            let num: i128 = a * (x as i128) + (s - a) * (self.mean as i128);
            let m: i128 = div_trunc(num, s);
            self.mean = m as i64;
        }
        proof {
            assert(self.hist@.push(x).drop_last() =~= self.hist@);
        }
        self.hist = Ghost(self.hist@.push(x));
    }

    /// The current exponentially weighted mean; zero before the first
    /// observation.
    pub fn get(&self) -> (r: i64)
        requires
            self.wf(),
        ensures
            r as int == ew_mean_of(self.obs(), self.alpha_spec()),
            self.obs().len() == 0 ==> r == 0,
    {
        self.mean
    }
}

} // verus!
