//! Running power sums shared by the skewness and kurtosis estimators:
//! exact fixed-point sums of the observations and of their second,
//! third and fourth fixed-point powers.

use vstd::prelude::*;

verus! {

use crate::fixed::div_trunc;
use crate::fixed::lemma_tdiv_bound;
use crate::fixed::lemma_tdiv_sign_mag;
use crate::fixed::tdiv;
use crate::fixed::SCALE;

/// Bound of one second-power term (`VAL_MAX^2 / SCALE`).
pub const POW2_TERM_MAX: i128 = 1_000_000_000_000_000_000;

/// Bound of one third-power term (`VAL_MAX^3 / SCALE^2`).
pub const POW3_TERM_MAX: i128 = 1_000_000_000_000_000_000_000_000;

/// Bound of one fourth-power term (`VAL_MAX^4 / SCALE^3`).
pub const POW4_TERM_MAX: i128 = 1_000_000_000_000_000_000_000_000_000_000;

/// Where an estimate saturates: reported statistics are cut to this
/// raw magnitude (a billion value units) so that no bias correction
/// can overflow.
pub const STAT_MAX: i64 = 1_000_000_000_000_000;

/// `v` saturated to magnitude `m`.
pub open spec fn clamp_mag(v: int, m: int) -> int {
    if v > m {
        m
    } else if v < -m {
        -m
    } else {
        v
    }
}

/// Saturate a wide intermediate to magnitude `m`.
pub fn clamp_i128(v: i128, m: i128) -> (r: i128)
    requires
        0 <= m,
    ensures
        r as int == clamp_mag(v as int, m as int),
        -m <= r <= m,
{
    if v > m {
        m
    } else if v < -m {
        -m
    } else {
        v
    }
}

/// The second fixed-point power of a raw value.
pub open spec fn fx2(x: int) -> int {
    tdiv(x * x, SCALE as int)
}

/// The third fixed-point power of a raw value.
pub open spec fn fx3(x: int) -> int {
    tdiv(fx2(x) * x, SCALE as int)
}

/// The fourth fixed-point power of a raw value.
pub open spec fn fx4(x: int) -> int {
    tdiv(fx2(x) * fx2(x), SCALE as int)
}

/// Sum of the observations.
pub open spec fn sum1(obs: Seq<i64>) -> int
    decreases obs.len(),
{
    if obs.len() == 0 {
        0
    } else {
        sum1(obs.drop_last()) + obs.last() as int
    }
}

/// Sum of the second fixed-point powers.
pub open spec fn sum_fx2(obs: Seq<i64>) -> int
    decreases obs.len(),
{
    if obs.len() == 0 {
        0
    } else {
        sum_fx2(obs.drop_last()) + fx2(obs.last() as int)
    }
}

/// Sum of the third fixed-point powers.
pub open spec fn sum_fx3(obs: Seq<i64>) -> int
    decreases obs.len(),
{
    if obs.len() == 0 {
        0
    } else {
        sum_fx3(obs.drop_last()) + fx3(obs.last() as int)
    }
}

/// Sum of the fourth fixed-point powers.
pub open spec fn sum_fx4(obs: Seq<i64>) -> int
    decreases obs.len(),
{
    if obs.len() == 0 {
        0
    } else {
        sum_fx4(obs.drop_last()) + fx4(obs.last() as int)
    }
}

/// One more observation extends each power sum by its own term.
pub proof fn lemma_sums_push(obs: Seq<i64>, x: i64)
    ensures
        sum1(obs.push(x)) == sum1(obs) + x as int,
        sum_fx2(obs.push(x)) == sum_fx2(obs) + fx2(x as int),
        sum_fx3(obs.push(x)) == sum_fx3(obs) + fx3(x as int),
        sum_fx4(obs.push(x)) == sum_fx4(obs) + fx4(x as int),
{
    assert(obs.push(x).drop_last() =~= obs);
    assert(obs.push(x).last() == x);
}

/// The fixed-point powers of a bounded raw value stay within the term
/// bounds, with the even powers non-negative.
pub proof fn lemma_power_bounds(x: int)
    requires
        -1_000_000_000_000 <= x <= 1_000_000_000_000,
    ensures
        0 <= fx2(x) <= POW2_TERM_MAX as int,
        -(POW3_TERM_MAX as int) <= fx3(x) <= POW3_TERM_MAX as int,
        0 <= fx4(x) <= POW4_TERM_MAX as int,
{
    let s = SCALE as int;
    assert(0 <= x * x <= 1_000_000_000_000_000_000 * 1_000_000) by (nonlinear_arith)
        requires
            -1_000_000_000_000 <= x <= 1_000_000_000_000,
    ;
    lemma_tdiv_bound(x * x, s, POW2_TERM_MAX as int);
    lemma_tdiv_sign_mag(x * x, s);
    let q2 = fx2(x);
    assert(-(POW3_TERM_MAX as int) * 1_000_000 <= q2 * x <= (POW3_TERM_MAX as int) * 1_000_000)
        by (nonlinear_arith)
        requires
            0 <= q2 <= POW2_TERM_MAX as int,
            -1_000_000_000_000 <= x <= 1_000_000_000_000,
            POW2_TERM_MAX as int == 1_000_000_000_000_000_000,
            POW3_TERM_MAX as int == 1_000_000_000_000_000_000_000_000,
    ;
    lemma_tdiv_bound(q2 * x, s, POW3_TERM_MAX as int);
    assert(0 <= q2 * q2 <= (POW4_TERM_MAX as int) * 1_000_000) by (nonlinear_arith)
        requires
            0 <= q2 <= POW2_TERM_MAX as int,
            POW2_TERM_MAX as int == 1_000_000_000_000_000_000,
            POW4_TERM_MAX as int == 1_000_000_000_000_000_000_000_000_000_000,
    ;
    lemma_tdiv_bound(q2 * q2, s, POW4_TERM_MAX as int);
    lemma_tdiv_sign_mag(q2 * q2, s);
}

/// The second fixed-point power of a bounded raw value, exactly.
pub fn pow2_exec(x: i64) -> (r: i128)
    requires
        -1_000_000_000_000 <= x <= 1_000_000_000_000,
    ensures
        r as int == fx2(x as int),
        0 <= r <= POW2_TERM_MAX,
{
    proof {
        lemma_power_bounds(x as int);
        assert(0 <= (x as int) * (x as int) <= 1_000_000_000_000_000_000 * 1_000_000)
            by (nonlinear_arith)
            requires
                -1_000_000_000_000 <= x as int <= 1_000_000_000_000,
        ;
    }
    div_trunc((x as i128) * (x as i128), SCALE as i128)
}

} // verus!
