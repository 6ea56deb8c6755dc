//! Interquartile range: the spread between two streaming quantile
//! estimates of the same stream.

use vstd::prelude::*;

verus! {

use crate::fixed::COUNT_MAX;
use crate::fixed::SCALE;
use crate::fixed::VAL_MAX;
use crate::order::kth_smallest_of;
use crate::order::lemma_kth_smallest_ordered;
use crate::order::lemma_kth_smallest_unique;
use crate::order::lemma_rank_index_monotone;
use crate::order::rank_index;
use crate::order::seq_max;
use crate::order::seq_min;
use crate::quantile::Quantile;
use crate::InvalidParameter;

/// Owns two quantile estimators at ranks `q_inf < q_sup` and reports
/// the difference of their estimates.
pub struct Iqr {
    lower: Quantile,
    upper: Quantile,
}

impl Iqr {
    /// The observations seen so far, oldest first.
    pub closed spec fn obs(&self) -> Seq<i64> {
        self.lower.obs()
    }

    /// The raw lower rank fraction.
    pub closed spec fn rank_inf(&self) -> int {
        self.lower.rank_spec()
    }

    /// The raw upper rank fraction.
    pub closed spec fn rank_sup(&self) -> int {
        self.upper.rank_spec()
    }

    /// Both estimators are sound and have seen the same stream.
    pub closed spec fn wf(&self) -> bool {
        &&& self.lower.wf()
        &&& self.upper.wf()
        &&& self.lower.obs() == self.upper.obs()
        &&& 0 < self.rank_inf() < self.rank_sup() < SCALE
    }

    /// An estimator of the spread between ranks `q_inf` and `q_sup`;
    /// rejected with `Rank` unless both lie in `(0, SCALE)`, then with
    /// `RankOrder` unless `q_inf < q_sup`.
    pub fn new(q_inf: i64, q_sup: i64) -> (r: Result<Iqr, InvalidParameter>)
        ensures
            r is Ok <==> (0 < q_inf && q_inf < q_sup && q_sup < SCALE),
            r matches Ok(e) ==> e.wf() && e.obs() == Seq::<i64>::empty() && e.rank_inf()
                == q_inf as int && e.rank_sup() == q_sup as int,
            r matches Err(p) ==> if !(0 < q_inf < SCALE) || !(0 < q_sup < SCALE) {
                p == InvalidParameter::Rank
            } else {
                p == InvalidParameter::RankOrder
            },
    {
        if !(0 < q_inf && q_inf < SCALE) || !(0 < q_sup && q_sup < SCALE) {
            return Err(InvalidParameter::Rank);
        }
        if q_inf >= q_sup {
            return Err(InvalidParameter::RankOrder);
        }
        let lower = match Quantile::new(q_inf) {
            Ok(v) => v,
            Err(_) => {
                proof {
                    assert(false);
                }
                return Err(InvalidParameter::Rank);
            },
        };
        let upper = match Quantile::new(q_sup) {
            Ok(v) => v,
            Err(_) => {
                proof {
                    assert(false);
                }
                return Err(InvalidParameter::Rank);
            },
        };
        Ok(Iqr { lower, upper })
    }

    /// Forward one observation to both quantile estimators.
    pub fn update(&mut self, x: i64)
        requires
            old(self).wf(),
            -VAL_MAX <= x <= VAL_MAX,
            old(self).obs().len() < COUNT_MAX,
        ensures
            final(self).wf(),
            final(self).obs() == old(self).obs().push(x),
            final(self).rank_inf() == old(self).rank_inf(),
            final(self).rank_sup() == old(self).rank_sup(),
    {
        self.lower.update(x);
        self.upper.update(x);
    }

    /// The spread between the two quantile estimates: zero before the
    /// first observation; while the first five observations are
    /// buffered, exactly the difference of the two nearest-rank order
    /// statistics, hence never negative; afterwards both estimates lie
    /// between the least and greatest observation, which bounds the
    /// spread either way (a transiently negative value is possible
    /// while the markers still drift).
    pub fn get(&self) -> (r: i64)
        requires
            self.wf(),
        ensures
            self.obs().len() == 0 ==> r == 0,
            0 < self.obs().len() < 5 ==> {
                let n = self.obs().len() as int;
                &&& r as int == kth_smallest_of(self.obs(), rank_index(self.rank_sup(), n)) as int
                    - kth_smallest_of(self.obs(), rank_index(self.rank_inf(), n)) as int
                &&& r >= 0
            },
            self.obs().len() >= 5 ==> -(seq_max(self.obs()) - seq_min(self.obs())) <= r as int
                <= seq_max(self.obs()) - seq_min(self.obs()),
    {
        let lo = self.lower.get();
        let hi = self.upper.get();
        proof {
            let n = self.obs().len() as int;
            if 0 < n < 5 {
                lemma_rank_index_monotone(self.rank_inf(), self.rank_sup(), n);
                lemma_kth_smallest_ordered(
                    self.obs(),
                    rank_index(self.rank_inf(), n),
                    rank_index(self.rank_sup(), n),
                    lo,
                    hi,
                );
                lemma_kth_smallest_unique(self.obs(), rank_index(self.rank_inf(), n), lo);
                lemma_kth_smallest_unique(self.obs(), rank_index(self.rank_sup(), n), hi);
            }
        }
        hi - lo
    }
}

} // verus!
