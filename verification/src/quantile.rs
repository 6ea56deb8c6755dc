//! Streaming approximate quantile in constant space, after the classic
//! five-marker scheme: the first five observations are buffered and
//! sorted into marker heights; afterwards each update shifts marker
//! positions and nudges interior heights by parabolic (or, where that
//! would break their order, linear) interpolation. The estimate is the
//! middle marker. It is approximate by design: the contract pins the
//! buffered phase exactly and afterwards keeps the estimate between
//! the least and greatest observation.

use vstd::prelude::*;

verus! {

use vstd::seq_lib::group_to_multiset_ensures;
use crate::fixed::div_trunc;
use crate::fixed::lemma_tdiv_sign_mag;
use crate::fixed::COUNT_MAX;
use crate::fixed::SCALE;
use crate::fixed::VAL_MAX;
use crate::order::is_kth_smallest;
use crate::order::lemma_extremes_push;
use crate::order::lemma_rank_index_range;
use crate::order::lemma_sorted_ends_are_extremes;
use crate::order::rank_index;
use crate::order::rank_index_exec;
use crate::order::seq_max;
use crate::order::seq_min;
use crate::order::sorted;
use crate::order::sorted_copy;
use crate::InvalidParameter;

/// Approximate quantile at rank fraction `q` (raw, in `(0, SCALE)`)
/// over the whole stream, in constant space.
pub struct Quantile {
    q: i64,
    seed: Vec<i64>,
    heights: Vec<i64>,
    pos: Vec<i64>,
    dinc: Vec<i64>,
    count: u64,
    hist: Ghost<Seq<i64>>,
}

impl Quantile {
    /// The observations seen so far, oldest first.
    pub closed spec fn obs(&self) -> Seq<i64> {
        self.hist@
    }

    /// The raw rank fraction.
    pub closed spec fn rank_spec(&self) -> int {
        self.q as int
    }

    /// Marker state once the buffered phase is over: five sorted
    /// heights whose ends are the running extremes, and five strictly
    /// increasing one-based positions ending at the count.
    pub closed spec fn markers_ok(&self) -> bool {
        &&& self.heights@.len() == 5
        &&& self.pos@.len() == 5
        &&& sorted(self.heights@)
        &&& self.heights@[0] == seq_min(self.hist@)
        &&& self.heights@[4] == seq_max(self.hist@)
        &&& forall|j: int|
            0 <= j < 5 ==> -VAL_MAX <= #[trigger] self.heights@[j] <= VAL_MAX
        &&& self.pos@[0] == 1
        &&& self.pos@[4] == self.count as int
        &&& forall|j: int| 0 <= j < 4 ==> #[trigger] self.pos@[j] < self.pos@[j + 1]
    }

    /// Until five observations arrive they sit in the seed buffer;
    /// afterwards the markers carry the stream.
    pub closed spec fn wf(&self) -> bool {
        &&& 0 < self.q < SCALE
        &&& self.count as int == self.hist@.len()
        &&& self.count <= COUNT_MAX
        &&& forall|j: int|
            0 <= j < self.hist@.len() ==> -VAL_MAX <= #[trigger] self.hist@[j] <= VAL_MAX
        &&& self.dinc@.len() == 5
        &&& forall|j: int| 0 <= j < 5 ==> 0 <= #[trigger] self.dinc@[j] <= SCALE
        &&& if self.count < 5 {
            self.seed@ == self.hist@
        } else {
            self.seed@.len() == 0 && self.markers_ok()
        }
    }

    /// An estimator at rank fraction `q`; rejected unless
    /// `0 < q < SCALE`.
    pub fn new(q: i64) -> (r: Result<Quantile, InvalidParameter>)
        ensures
            r is Ok <==> 0 < q < SCALE,
            r matches Ok(e) ==> e.wf() && e.obs() == Seq::<i64>::empty() && e.rank_spec()
                == q as int,
            r matches Err(p) ==> p == InvalidParameter::Rank,
    {
        if !(0 < q && q < SCALE) {
            return Err(InvalidParameter::Rank);
        }
        let half: i64 = ((q as u64) / 2) as i64;
        let uphalf: i64 = (((SCALE + q) as u64) / 2) as i64;
        let mut dinc: Vec<i64> = Vec::new();
        dinc.push(0);
        dinc.push(half);
        dinc.push(q);
        dinc.push(uphalf);
        dinc.push(SCALE);
        Ok(
            Quantile {
                q,
                seed: Vec::new(),
                heights: Vec::new(),
                pos: Vec::new(),
                dinc,
                count: 0,
                hist: Ghost(Seq::empty()),
            },
        )
    }

    /// Take one observation: buffer it while seeding; afterwards move
    /// the marker positions and nudge the interior heights.
    #[verifier::rlimit(100)]
    pub fn update(&mut self, x: i64)
        requires
            old(self).wf(),
            -VAL_MAX <= x <= VAL_MAX,
            old(self).obs().len() < COUNT_MAX,
        ensures
            final(self).wf(),
            final(self).obs() == old(self).obs().push(x),
            final(self).rank_spec() == old(self).rank_spec(),
    {
        broadcast use group_to_multiset_ensures;

        proof {
            lemma_extremes_push(self.hist@, x);
        }
        if self.count < 5 {
            self.seed.push(x);
            self.count = self.count + 1;
            self.hist = Ghost(self.hist@.push(x));
            if self.count == 5 {
                let hh = sorted_copy(&self.seed);
                proof {
                    lemma_sorted_ends_are_extremes(hh@, self.hist@);
                    assert forall|j: int| 0 <= j < 5 implies -VAL_MAX <= #[trigger] hh@[j]
                        <= VAL_MAX by {
                        assert(hh@.contains(hh@[j]));
                        assert(self.hist@.to_multiset().count(hh@[j]) > 0);
                        assert(self.hist@.contains(hh@[j]));
                        let w = choose|w: int|
                            0 <= w < self.hist@.len() && self.hist@[w] == hh@[j];
                        assert(-VAL_MAX <= self.hist@[w] <= VAL_MAX);
                    }
                }
                self.heights = hh;
                let mut p: Vec<i64> = Vec::new();
                p.push(1);
                p.push(2);
                p.push(3);
                p.push(4);
                p.push(5);
                self.pos = p;
                self.seed = Vec::new();
            }
            return ;
        }
        let ghost hold = self.hist@;
        self.count = self.count + 1;
        self.hist = Ghost(self.hist@.push(x));
        proof {
            assert forall|j: int|
                0 <= j < self.hist@.len() implies -VAL_MAX <= #[trigger] self.hist@[j]
                <= VAL_MAX by {
                if j < hold.len() {
                    assert(self.hist@[j] == hold[j]);
                } else {
                    assert(self.hist@[j] == x);
                }
            }
        }
        // clamp the extreme markers and pick the cell the value falls in
        let ghost hts0 = self.heights@;
        let mut k: usize = 0;
        if x < self.heights[0] {
            self.heights[0] = x;
            proof {
                assert forall|a: int, b: int| 0 <= a <= b < 5 implies self.heights@[a]
                    <= self.heights@[b] by {
                    if a == 0 && b > 0 {
                        assert(hts0[0] <= hts0[b]);
                    }
                }
                assert(hts0[0] <= hts0[4]);
                assert(self.heights@[0] == seq_min(self.hist@));
                assert(self.heights@[4] == seq_max(self.hist@));
            }
        } else if x >= self.heights[4] {
            self.heights[4] = x;
            k = 3;
            proof {
                assert forall|a: int, b: int| 0 <= a <= b < 5 implies self.heights@[a]
                    <= self.heights@[b] by {
                    if b == 4 && a < 4 {
                        assert(hts0[a] <= hts0[4]);
                    }
                }
                assert(hts0[0] <= hts0[4]);
                assert(self.heights@[0] == seq_min(self.hist@));
                assert(self.heights@[4] == seq_max(self.hist@));
            }
        } else {
            if x >= self.heights[1] {
                k = 1;
            }
            if x >= self.heights[2] {
                k = 2;
            }
            if x >= self.heights[3] {
                k = 3;
            }
            proof {
                assert(self.heights@[0] == seq_min(self.hist@));
                assert(self.heights@[4] == seq_max(self.hist@));
            }
        }
        // every marker past the cell moved one position up
        let ghost p0 = self.pos@;
        let ghost hcur = self.heights@;
        let ghost hnew0 = self.hist@;
        let ghost d0 = self.dinc@;
        let ghost c0 = self.count;
        let ghost q0 = self.q;
        let mut i: usize = k + 1;
        while i < 5
            invariant
                k <= 3,
                k + 1 <= i <= 5,
                self.pos@.len() == 5,
                p0.len() == 5,
                forall|j: int| 0 <= j < 4 ==> #[trigger] p0[j] < p0[j + 1],
                p0[0] == 1,
                p0[4] == self.count as int - 1,
                self.count <= COUNT_MAX,
                forall|j: int|
                    0 <= j < 5 ==> #[trigger] self.pos@[j] == p0[j] + if k < j < i {
                        1int
                    } else {
                        0int
                    },
                self.heights@ == hcur,
                self.hist@ == hnew0,
                self.dinc@ == d0,
                self.count == c0,
                self.q == q0,
                self.seed@.len() == 0,
            decreases 5 - i,
        {
            proof {
                assert(p0[0] < p0[1] && p0[1] < p0[2] && p0[2] < p0[3] && p0[3] < p0[4]);
            }
            let t: i64 = self.pos[i];
            self.pos[i] = t + 1;
            i = i + 1;
        }
        proof {
            assert(p0[0] < p0[1] && p0[1] < p0[2] && p0[2] < p0[3] && p0[3] < p0[4]);
            assert forall|j: int| 0 <= j < 4 implies #[trigger] self.pos@[j] < self.pos@[j
                + 1] by {
                assert(p0[j] < p0[j + 1]);
            }
            assert(self.pos@[0] == 1);
            assert(self.pos@[4] == self.count as int);
            assert(self.seed@.len() == 0);
            assert(self.wf());
        }
        // nudge each interior marker toward its desired position
        let ghost hnew = self.hist@;
        let cnt: i64 = self.count as i64;
        let mut m: usize = 1;
        while m < 4
            invariant
                1 <= m <= 4,
                self.wf(),
                self.count >= 5,
                cnt == self.count as i64,
                self.hist@ == hnew,
                self.q == old(self).q,
            decreases 4 - m,
        {
            proof {
                assert(self.pos@[0] < self.pos@[1] && self.pos@[1] < self.pos@[2] && self.pos@[2]
                    < self.pos@[3] && self.pos@[3] < self.pos@[4]);
                assert(0 <= (cnt as int - 1) * (self.dinc@[m as int] as int) <= 10_000_000
                    * 1_000_000) by (nonlinear_arith)
                    requires
                        0 <= cnt as int - 1 <= 10_000_000,
                        0 <= self.dinc@[m as int] as int <= 1_000_000,
                ;
            }
            let des: i64 = SCALE + (cnt - 1) * self.dinc[m];
            let diff: i64 = des - self.pos[m] * SCALE;
            let gap_up: i64 = self.pos[m + 1] - self.pos[m];
            let gap_dn: i64 = self.pos[m - 1] - self.pos[m];
            let mut d: i64 = 0;
            if diff >= SCALE && gap_up > 1 {
                d = 1;
            } else if diff <= -SCALE && gap_dn < -1 {
                d = -1;
            }
            if d != 0 {
                let pim: i128 = self.pos[m - 1] as i128;
                let pi: i128 = self.pos[m] as i128;
                let pip: i128 = self.pos[m + 1] as i128;
                let him: i128 = self.heights[m - 1] as i128;
                let hi: i128 = self.heights[m] as i128;
                let hip: i128 = self.heights[m + 1] as i128;
                let di: i128 = d as i128;
                proof {
                    assert({
                        &&& -50_000_000_000_000_000_000int <= ((pi - pim + di) as int) * ((hip
                            - hi) as int) <= 50_000_000_000_000_000_000int
                        &&& -50_000_000_000_000_000_000int <= ((pip - pi - di) as int) * ((hi
                            - him) as int) <= 50_000_000_000_000_000_000int
                    }) by (nonlinear_arith)
                        requires
                            0 <= (pi - pim + di) as int <= 20_000_000,
                            0 <= (pip - pi - di) as int <= 20_000_000,
                            0 <= (hip - hi) as int <= 2_000_000_000_000,
                            0 <= (hi - him) as int <= 2_000_000_000_000,
                    ;
                    lemma_tdiv_sign_mag(((pi - pim + di) * (hip - hi)) as int, (pip - pi) as int);
                    lemma_tdiv_sign_mag(((pip - pi - di) * (hi - him)) as int, (pi - pim) as int);
                }
                let t1: i128 = div_trunc((pi - pim + di) * (hip - hi), pip - pi);
                let t2: i128 = div_trunc((pip - pi - di) * (hi - him), pi - pim);
                proof {
                    lemma_tdiv_sign_mag((t1 + t2) as int, (pip - pim) as int);
                }
                let par: i128 = div_trunc(t1 + t2, pip - pim);
                let cand: i128 = if d == 1 {
                    hi + par
                } else {
                    hi - par
                };
                let nh: i64;
                if him < cand && cand < hip {
                    nh = cand as i64;
                } else if d == 1 {
                    proof {
                        lemma_tdiv_sign_mag((hip - hi) as int, (pip - pi) as int);
                    }
                    let step: i128 = div_trunc(hip - hi, pip - pi);
                    nh = (hi + step) as i64;
                } else {
                    proof {
                        lemma_tdiv_sign_mag((hi - him) as int, (pi - pim) as int);
                    }
                    let step: i128 = div_trunc(hi - him, pi - pim);
                    nh = (hi - step) as i64;
                }
                let ghost hts = self.heights@;
                self.heights[m] = nh;
                proof {
                    assert(him <= nh as int <= hip);
                    assert forall|a: int, b: int| 0 <= a <= b < 5 implies self.heights@[a]
                        <= self.heights@[b] by {
                        if a == m && b != m {
                            assert(hts[m as int + 1] <= hts[b]);
                        } else if b == m && a != m {
                            assert(hts[a] <= hts[m as int - 1]);
                        }
                    }
                    assert forall|j: int| 0 <= j < 5 implies -VAL_MAX <= #[trigger] self.heights@[j]
                        <= VAL_MAX by {
                        if j != m {
                            assert(self.heights@[j] == hts[j]);
                        }
                    }
                }
                let ghost ps = self.pos@;
                let t: i64 = self.pos[m];
                self.pos[m] = t + d;
                proof {
                    assert forall|j: int| 0 <= j < 4 implies #[trigger] self.pos@[j] < self.pos@[j
                        + 1] by {
                        assert(ps[j] < ps[j + 1]);
                    }
                }
            }
            m = m + 1;
        }
    }

    /// The running quantile estimate: zero before the first
    /// observation; the exact nearest-rank order statistic while the
    /// first five observations are buffered; afterwards the middle
    /// marker height, always between the least and greatest
    /// observation seen.
    pub fn get(&self) -> (r: i64)
        requires
            self.wf(),
        ensures
            self.obs().len() == 0 ==> r == 0,
            0 < self.obs().len() < 5 ==> is_kth_smallest(
                self.obs(),
                rank_index(self.rank_spec(), self.obs().len() as int),
                r,
            ),
            self.obs().len() >= 5 ==> seq_min(self.obs()) <= r <= seq_max(self.obs()),
            -VAL_MAX <= r <= VAL_MAX,
    {
        broadcast use group_to_multiset_ensures;

        if self.count == 0 {
            return 0;
        }
        if self.count < 5 {
            let sv = sorted_copy(&self.seed);
            let k = rank_index_exec(self.q, self.seed.len());
            proof {
                lemma_rank_index_range(self.q as int, self.seed@.len() as int);
            }
            let r = sv[k];
            proof {
                let ki = rank_index(self.rank_spec(), self.obs().len() as int);
                assert(sorted(sv@) && sv@.to_multiset() == self.obs().to_multiset() && 0 <= ki
                    < sv@.len() && sv@[ki] == r);
                assert(is_kth_smallest(self.obs(), ki, r));
                assert(sv@.contains(r));
                assert(self.obs().to_multiset().count(r) > 0);
                assert(self.obs().contains(r));
                let w = choose|w: int| 0 <= w < self.obs().len() && self.obs()[w] == r;
                assert(-VAL_MAX <= self.obs()[w] <= VAL_MAX);
            }
            r
        } else {
            proof {
                assert(self.heights@[0] <= self.heights@[2]);
                assert(self.heights@[2] <= self.heights@[4]);
            }
            self.heights[2]
        }
    }
}

} // verus!
