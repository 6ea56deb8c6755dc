//! Order statistics over sequences of raw fixed-point values: the
//! specs and verified helpers behind the quantile estimators and the
//! running range.

use vstd::prelude::*;

verus! {

use vstd::relations::sorted_by;
use vstd::relations::total_ordering;
use vstd::seq_lib::group_to_multiset_ensures;
use vstd::seq_lib::lemma_sorted_unique;
use crate::fixed::div_trunc;
use crate::fixed::lemma_tdiv_ordered;
use crate::fixed::tdiv;
use crate::fixed::SCALE;

/// The sequence is in non-decreasing order.
pub open spec fn sorted(s: Seq<i64>) -> bool {
    forall|i: int, j: int| 0 <= i <= j < s.len() ==> s[i] <= s[j]
}

/// `r` is the value of rank `k` in `w`: position `k` (from zero) of
/// `w` rearranged into non-decreasing order, duplicates counted.
pub open spec fn is_kth_smallest(w: Seq<i64>, k: int, r: i64) -> bool {
    exists|s: Seq<i64>|
        sorted(s) && s.to_multiset() == w.to_multiset() && 0 <= k < s.len() && s[k] == r
}

/// The ordering the estimators sort by.
pub open spec fn value_le() -> spec_fn(i64, i64) -> bool {
    |x: i64, y: i64| x <= y
}

/// `sorted` agrees with vstd's `sorted_by` under `value_le`, which is
/// a total ordering.
pub proof fn lemma_sorted_is_sorted_by(s: Seq<i64>)
    ensures
        sorted(s) <==> sorted_by(s, value_le()),
        total_ordering(value_le()),
{
    let le = value_le();
    if sorted(s) {
        assert forall|i: int, j: int| 0 <= i < j < s.len() implies #[trigger] le(s[i], s[j]) by {
            assert(s[i] <= s[j]);
        }
    }
    if sorted_by(s, le) {
        assert forall|i: int, j: int| 0 <= i <= j < s.len() implies s[i] <= s[j] by {
            if i < j {
                assert(le(s[i], s[j]));
            }
        }
    }
    assert forall|x: i64| #[trigger] le(x, x) by {}
    assert forall|x: i64, y: i64| #[trigger] le(x, y) && le(y, x) implies x == y by {}
    assert forall|x: i64, y: i64, z: i64| #[trigger] le(x, y) && #[trigger] le(y, z) implies le(
        x,
        z,
    ) by {}
    assert forall|x: i64, y: i64| !(#[trigger] le(x, y)) implies le(y, x) by {}
}

/// Values standing at ordered ranks of the same multiset are ordered;
/// with `k1 == k2` this says the value of a rank is unique.
pub proof fn lemma_kth_smallest_ordered(w: Seq<i64>, k1: int, k2: int, r1: i64, r2: i64)
    requires
        is_kth_smallest(w, k1, r1),
        is_kth_smallest(w, k2, r2),
        k1 <= k2,
    ensures
        r1 <= r2,
{
    let s1 = choose|s: Seq<i64>|
        sorted(s) && s.to_multiset() == w.to_multiset() && 0 <= k1 < s.len() && s[k1] == r1;
    let s2 = choose|s: Seq<i64>|
        sorted(s) && s.to_multiset() == w.to_multiset() && 0 <= k2 < s.len() && s[k2] == r2;
    lemma_sorted_is_sorted_by(s1);
    lemma_sorted_is_sorted_by(s2);
    lemma_sorted_unique(s1, s2, value_le());
    assert(s1 =~= s2);
}

/// The value of rank `k` in `w`, as a spec-level value.
pub open spec fn kth_smallest_of(w: Seq<i64>, k: int) -> i64 {
    choose|r: i64| is_kth_smallest(w, k, r)
}

/// The value of a rank is unique, so any witness names it.
pub proof fn lemma_kth_smallest_unique(w: Seq<i64>, k: int, r: i64)
    requires
        is_kth_smallest(w, k, r),
    ensures
        kth_smallest_of(w, k) == r,
{
    assert(exists|x: i64| is_kth_smallest(w, k, x)) by {
        assert(is_kth_smallest(w, k, r));
    }
    let r2 = kth_smallest_of(w, k);
    lemma_kth_smallest_ordered(w, k, k, r, r2);
    lemma_kth_smallest_ordered(w, k, k, r2, r);
}

/// The least value of a non-empty sequence (zero when empty).
pub open spec fn seq_min(s: Seq<i64>) -> i64
    decreases s.len(),
{
    if s.len() == 0 {
        0
    } else if s.len() == 1 {
        s[0]
    } else if s.last() < seq_min(s.drop_last()) {
        s.last()
    } else {
        seq_min(s.drop_last())
    }
}

/// The greatest value of a non-empty sequence (zero when empty).
pub open spec fn seq_max(s: Seq<i64>) -> i64
    decreases s.len(),
{
    if s.len() == 0 {
        0
    } else if s.len() == 1 {
        s[0]
    } else if s.last() > seq_max(s.drop_last()) {
        s.last()
    } else {
        seq_max(s.drop_last())
    }
}

/// How one more observation moves the running extremes.
pub proof fn lemma_extremes_push(s: Seq<i64>, x: i64)
    ensures
        seq_min(s.push(x)) == if s.len() == 0 || x < seq_min(s) {
            x
        } else {
            seq_min(s)
        },
        seq_max(s.push(x)) == if s.len() == 0 || x > seq_max(s) {
            x
        } else {
            seq_max(s)
        },
{
    assert(s.push(x).drop_last() =~= s);
}

/// The extremes are observations, and they bound every observation.
pub proof fn lemma_extremes_members(s: Seq<i64>)
    requires
        s.len() >= 1,
    ensures
        s.contains(seq_min(s)),
        s.contains(seq_max(s)),
        forall|i: int| 0 <= i < s.len() ==> seq_min(s) <= #[trigger] s[i] <= seq_max(s),
    decreases s.len(),
{
    if s.len() > 1 {
        lemma_extremes_members(s.drop_last());
        assert(forall|i: int|
            0 <= i < s.len() - 1 ==> s.drop_last()[i] == #[trigger] s[i]);
        assert(s.contains(seq_min(s))) by {
            if seq_min(s) == s.last() {
                assert(s[s.len() - 1] == seq_min(s));
            } else {
                let i = choose|i: int|
                    0 <= i < s.drop_last().len() && s.drop_last()[i] == seq_min(s.drop_last());
                assert(s[i] == seq_min(s));
            }
        }
        assert(s.contains(seq_max(s))) by {
            if seq_max(s) == s.last() {
                assert(s[s.len() - 1] == seq_max(s));
            } else {
                let i = choose|i: int|
                    0 <= i < s.drop_last().len() && s.drop_last()[i] == seq_max(s.drop_last());
                assert(s[i] == seq_max(s));
            }
        }
    }
}

/// In a sorted rearrangement of `w` the first value is the least of
/// `w` and the last the greatest.
pub proof fn lemma_sorted_ends_are_extremes(s: Seq<i64>, w: Seq<i64>)
    requires
        sorted(s),
        s.to_multiset() == w.to_multiset(),
        w.len() >= 1,
    ensures
        s.len() == w.len(),
        s[0] == seq_min(w),
        s[s.len() - 1] == seq_max(w),
{
    broadcast use group_to_multiset_ensures;

    assert(s.to_multiset().len() == s.len());
    assert(w.to_multiset().len() == w.len());
    lemma_extremes_members(w);
    lemma_extremes_members(s);
    assert(w.contains(seq_min(w)));
    assert(s.to_multiset().count(seq_min(w)) > 0);
    assert(s.contains(seq_min(w)));
    let i = choose|i: int| 0 <= i < s.len() && s[i] == seq_min(w);
    assert(s[0] <= seq_min(w));
    assert(w.contains(s[0])) by {
        assert(s.contains(s[0]));
        assert(w.to_multiset().count(s[0]) > 0);
    }
    assert(seq_min(w) <= s[0]);
    assert(w.contains(seq_max(w)));
    assert(s.to_multiset().count(seq_max(w)) > 0);
    assert(s.contains(seq_max(w)));
    let j = choose|j: int| 0 <= j < s.len() && s[j] == seq_max(w);
    assert(seq_max(w) <= s[s.len() - 1]);
    assert(w.contains(s[s.len() - 1])) by {
        assert(s.contains(s[s.len() - 1]));
        assert(w.to_multiset().count(s[s.len() - 1]) > 0);
    }
}

/// Insert `x` into a sorted vector, keeping it sorted.
pub fn insert_sorted(v: &mut Vec<i64>, x: i64)
    requires
        sorted(old(v)@),
        old(v)@.len() < usize::MAX,
    ensures
        sorted(final(v)@),
        final(v)@.to_multiset() == old(v)@.to_multiset().insert(x),
        final(v)@.len() == old(v)@.len() + 1,
{
    let mut i: usize = 0;
    while i < v.len() && v[i] <= x
        invariant
            i <= v@.len(),
            forall|j: int| 0 <= j < i ==> v@[j] <= x,
            v@ == old(v)@,
        decreases v@.len() - i,
    {
        i = i + 1;
    }
    proof {
        old(v)@.insert_ensures(i as int, x);
        vstd::seq_lib::to_multiset_insert(old(v)@, i as int, x);
    }
    v.insert(i, x);
    proof {
        assert forall|p: int, q: int| 0 <= p <= q < v@.len() implies v@[p] <= v@[q] by {
            if p < i && q == i {
                assert(v@[p] == old(v)@[p]);
            } else if p == i && q > i {
                assert(v@[q] == old(v)@[q - 1]);
                assert(old(v)@[i as int] > x);
            }
        }
    }
}

/// Remove one occurrence of `x`, which must be present, from a sorted
/// vector, keeping it sorted.
pub fn remove_sorted(v: &mut Vec<i64>, x: i64)
    requires
        sorted(old(v)@),
        old(v)@.contains(x),
    ensures
        sorted(final(v)@),
        final(v)@.to_multiset() == old(v)@.to_multiset().remove(x),
        final(v)@.len() == old(v)@.len() - 1,
{
    broadcast use group_to_multiset_ensures;

    let ghost w = choose|w: int| 0 <= w < old(v)@.len() && old(v)@[w] == x;
    let mut i: usize = 0;
    while i < v.len() && v[i] != x
        invariant
            0 <= i <= w < v@.len(),
            forall|j: int| 0 <= j < i ==> v@[j] != x,
            v@ == old(v)@,
            v@[w] == x,
        decreases v@.len() - i,
    {
        proof {
            assert(i != w);
        }
        i = i + 1;
    }
    proof {
        assert(i < v@.len());
        assert(v@[i as int] == x);
    }
    proof {
        vstd::seq_lib::to_multiset_remove(old(v)@, i as int);
    }
    v.remove(i);
}

/// A copy of the vector's values in non-decreasing order.
pub fn sorted_copy(v: &Vec<i64>) -> (r: Vec<i64>)
    ensures
        sorted(r@),
        r@.to_multiset() == v@.to_multiset(),
        r@.len() == v@.len(),
{
    broadcast use group_to_multiset_ensures;

    let mut r: Vec<i64> = Vec::new();
    let mut i: usize = 0;
    while i < v.len()
        invariant
            i <= v@.len(),
            sorted(r@),
            r@.len() == i,
            r@.to_multiset() == v@.take(i as int).to_multiset(),
        decreases v@.len() - i,
    {
        insert_sorted(&mut r, v[i]);
        proof {
            assert(v@.take(i + 1) =~= v@.take(i as int).push(v@[i as int]));
            vstd::seq_lib::to_multiset_build(v@.take(i as int), v@[i as int]);
        }
        i = i + 1;
    }
    proof {
        assert(v@.take(v@.len() as int) =~= v@);
    }
    r
}

/// The rank picked for rank fraction `q` (raw) among `n` values: the
/// nearest-rank rule, `ceil(q * n) - 1` positions from the least.
pub open spec fn rank_index(q: int, n: int) -> int {
    tdiv(q * n + (SCALE as int) - 1, SCALE as int) - 1
}

/// The nearest-rank index always lands inside the collection.
pub proof fn lemma_rank_index_range(q: int, n: int)
    requires
        0 < q < SCALE,
        1 <= n,
    ensures
        0 <= rank_index(q, n) < n,
{
    let s = SCALE as int;
    let t = q * n + s - 1;
    assert(q * n >= 1) by (nonlinear_arith)
        requires
            q >= 1,
            n >= 1,
    ;
    assert(t / s >= 1) by {
        vstd::arithmetic::div_mod::lemma_div_is_ordered(s, t, s);
        vstd::arithmetic::div_mod::lemma_div_by_multiple(1, s);
    }
    assert(q * n <= (s - 1) * n) by (nonlinear_arith)
        requires
            q <= s - 1,
            n >= 1,
    ;
    assert(q * n + s - 1 < s * (n + 1)) by (nonlinear_arith)
        requires
            q * n <= (s - 1) * n,
            s >= 2,
            n >= 1,
    ;
    assert(t / s < n + 1) by {
        vstd::arithmetic::div_mod::lemma_multiply_divide_lt(t, s, n + 1);
    }
}

/// A greater rank fraction never picks an earlier rank.
pub proof fn lemma_rank_index_monotone(q1: int, q2: int, n: int)
    requires
        0 < q1 <= q2 < SCALE,
        1 <= n,
    ensures
        rank_index(q1, n) <= rank_index(q2, n),
{
    assert(q1 * n <= q2 * n) by (nonlinear_arith)
        requires
            q1 <= q2,
            n >= 1,
    ;
    lemma_tdiv_ordered(q1 * n + (SCALE as int) - 1, q2 * n + (SCALE as int) - 1, SCALE as int);
}

/// Nearest-rank index for rank fraction `q` among `n` values.
pub fn rank_index_exec(q: i64, n: usize) -> (k: usize)
    requires
        0 < q < SCALE,
        1 <= n,
    ensures
        k as int == rank_index(q as int, n as int),
{
    proof {
        lemma_rank_index_range(q as int, n as int);
        assert((q as int) * (n as int) <= 1_000_000 * 0xffff_ffff_ffff_ffff) by (nonlinear_arith)
            requires
                0 < q as int <= 1_000_000,
                0 < n as int <= 0xffff_ffff_ffff_ffff,
        ;
    }
    let t: i128 = (q as i128) * (n as i128);
    let c: i128 = div_trunc(t + (SCALE as i128) - 1, SCALE as i128);
    (c - 1) as usize
}

} // verus!
