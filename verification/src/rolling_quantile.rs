//! Exact quantile over a sliding window: the last `w` observations are
//! kept in arrival order and, beside them, in sorted order, so `get`
//! reads the nearest-rank order statistic directly.

use vstd::prelude::*;

verus! {

use vstd::seq_lib::group_to_multiset_ensures;
use crate::fixed::SCALE;
use crate::order::insert_sorted;
use crate::order::is_kth_smallest;
use crate::order::rank_index;
use crate::order::rank_index_exec;
use crate::order::remove_sorted;
use crate::order::sorted;
use crate::InvalidParameter;

/// The at most `w` newest entries of a history, oldest first.
pub open spec fn last_of(obs: Seq<i64>, w: int) -> Seq<i64> {
    if obs.len() <= w {
        obs
    } else {
        obs.skip(obs.len() - w)
    }
}

/// Exact quantile at rank fraction `q` (raw, in `(0, SCALE)`) over the
/// last `w` observations, by the nearest-rank rule.
pub struct RollingQuantile {
    q: i64,
    w: usize,
    window: Vec<i64>,
    ranked: Vec<i64>,
    hist: Ghost<Seq<i64>>,
}

impl RollingQuantile {
    /// The observations seen so far, oldest first.
    pub closed spec fn obs(&self) -> Seq<i64> {
        self.hist@
    }

    /// The raw rank fraction.
    pub closed spec fn rank_spec(&self) -> int {
        self.q as int
    }

    /// The window size.
    pub closed spec fn window_size(&self) -> int {
        self.w as int
    }

    /// The window holds the newest observations, and the ranked vector
    /// holds the same values in sorted order.
    pub closed spec fn wf(&self) -> bool {
        &&& 0 < self.q < SCALE
        &&& 1 <= self.w
        &&& self.window@ == last_of(self.hist@, self.w as int)
        &&& self.window@.len() <= self.w
        &&& sorted(self.ranked@)
        &&& self.ranked@.to_multiset() == self.window@.to_multiset()
        &&& self.ranked@.len() == self.window@.len()
    }

    /// An estimator at rank fraction `q` over windows of `w` values;
    /// rejected unless `0 < q < SCALE` (`Rank`) and `w >= 1` (`Window`).
    pub fn new(q: i64, w: usize) -> (r: Result<RollingQuantile, InvalidParameter>)
        ensures
            r is Ok <==> (0 < q < SCALE && w >= 1),
            r matches Ok(e) ==> e.wf() && e.obs() == Seq::<i64>::empty() && e.rank_spec() == q as int
                && e.window_size() == w as int,
            r matches Err(p) ==> if !(0 < q < SCALE) {
                p == InvalidParameter::Rank
            } else {
                p == InvalidParameter::Window
            },
    {
        if !(0 < q && q < SCALE) {
            Err(InvalidParameter::Rank)
        } else if w < 1 {
            Err(InvalidParameter::Window)
        } else {
            Ok(
                RollingQuantile {
                    q,
                    w,
                    window: Vec::new(),
                    ranked: Vec::new(),
                    hist: Ghost(Seq::empty()),
                },
            )
        }
    }

    /// Take one observation: evict the oldest value when the window is
    /// full, then admit the new one to both orders.
    pub fn update(&mut self, x: i64)
        requires
            old(self).wf(),
        ensures
            final(self).wf(),
            final(self).obs() == old(self).obs().push(x),
            final(self).rank_spec() == old(self).rank_spec(),
            final(self).window_size() == old(self).window_size(),
    {
        broadcast use group_to_multiset_ensures;

        let ghost h = self.hist@;
        let ghost w0 = self.window@;
        if self.window.len() == self.w {
            let oldest = self.window[0];
            proof {
                assert(w0.contains(oldest));
                assert(self.ranked@.to_multiset().count(oldest) > 0);
                assert(self.ranked@.contains(oldest));
            }
            self.window.remove(0);
            remove_sorted(&mut self.ranked, oldest);
            proof {
                assert(self.window@.to_multiset() =~= self.ranked@.to_multiset());
            }
        }
        self.window.push(x);
        insert_sorted(&mut self.ranked, x);
        self.hist = Ghost(self.hist@.push(x));
        proof {
            assert(self.window@.to_multiset() =~= self.ranked@.to_multiset());
            assert(self.window@ =~= last_of(h.push(x), self.w as int));
        }
    }

    /// The nearest-rank order statistic among the last `w`
    /// observations; zero before the first.
    pub fn get(&self) -> (r: i64)
        requires
            self.wf(),
        ensures
            self.obs().len() == 0 ==> r == 0,
            self.obs().len() > 0 ==> is_kth_smallest(
                last_of(self.obs(), self.window_size()),
                rank_index(self.rank_spec(), last_of(self.obs(), self.window_size()).len() as int),
                r,
            ),
    {
        let n = self.window.len();
        if n == 0 {
            return 0;
        }
        let k = rank_index_exec(self.q, n);
        proof {
            crate::order::lemma_rank_index_range(self.q as int, n as int);
        }
        let r = self.ranked[k];
        proof {
            let win = last_of(self.obs(), self.window_size());
            let ki = rank_index(self.rank_spec(), n as int);
            assert(sorted(self.ranked@) && self.ranked@.to_multiset() == win.to_multiset() && 0
                <= ki < self.ranked@.len() && self.ranked@[ki] == r);
            assert(is_kth_smallest(win, ki, r));
        }
        r
    }
}

} // verus!
