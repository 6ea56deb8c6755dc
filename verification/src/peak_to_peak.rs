//! Running range (peak to peak): greatest minus least observation.

use vstd::prelude::*;

verus! {

use crate::fixed::VAL_MAX;
use crate::order::lemma_extremes_push;
use crate::order::seq_max;
use crate::order::seq_min;

/// Tracks the least and greatest observation of a stream in constant
/// space; `get` reports their difference.
pub struct PeakToPeak {
    lo: i64,
    hi: i64,
    seen: bool,
    hist: Ghost<Seq<i64>>,
}

impl PeakToPeak {
    /// The observations seen so far, oldest first.
    pub closed spec fn obs(&self) -> Seq<i64> {
        self.hist@
    }

    /// The fields track the extremes of the history.
    pub closed spec fn wf(&self) -> bool {
        &&& self.seen <==> self.obs().len() > 0
        &&& self.obs().len() > 0 ==> {
            &&& self.lo == seq_min(self.obs())
            &&& self.hi == seq_max(self.obs())
            &&& -VAL_MAX <= self.lo <= self.hi <= VAL_MAX
        }
    }

    /// A range estimator that has seen nothing. No parameter can be
    /// invalid, so construction cannot fail.
    pub fn new() -> (r: PeakToPeak)
        ensures
            r.wf(),
            r.obs() == Seq::<i64>::empty(),
    {
        PeakToPeak { lo: 0, hi: 0, seen: false, hist: Ghost(Seq::empty()) }
    }

    /// Take one observation into the running extremes.
    pub fn update(&mut self, x: i64)
        requires
            old(self).wf(),
            -VAL_MAX <= x <= VAL_MAX,
        ensures
            final(self).wf(),
            final(self).obs() == old(self).obs().push(x),
    {
        proof {
            lemma_extremes_push(self.hist@, x);
        }
        if !self.seen {
            self.lo = x;
            self.hi = x;
            self.seen = true;
        } else {
            if x < self.lo {
                self.lo = x;
            }
            if x > self.hi {
                self.hi = x;
            }
        }
        self.hist = Ghost(self.hist@.push(x));
    }

    /// The range of everything seen: `max - min` over the whole
    /// history, and zero before the first observation — so also zero
    /// after a single observation.
    pub fn get(&self) -> (r: i64)
        requires
            self.wf(),
        ensures
            self.obs().len() == 0 ==> r == 0,
            self.obs().len() > 0 ==> r as int == seq_max(self.obs()) - seq_min(self.obs()),
            self.obs().len() == 1 ==> r == 0,
            r >= 0,
    {
        if self.seen {
            self.hi - self.lo
        } else {
            0
        }
    }
}

} // verus!
