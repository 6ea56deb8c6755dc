//! Fixed-point arithmetic shared by all estimators.
//!
//! A value is an integer count of raw units of `1 / SCALE`. Every
//! division in this crate truncates toward zero (`tdiv`), matching the
//! behaviour of machine division on signed integers.

use vstd::prelude::*;

verus! {

use vstd::arithmetic::div_mod::lemma_div_by_multiple;
use vstd::arithmetic::div_mod::lemma_div_is_ordered;
use vstd::arithmetic::div_mod::lemma_div_nonincreasing;
use vstd::arithmetic::div_mod::lemma_div_of0;
use vstd::arithmetic::div_mod::lemma_div_pos_is_pos;

/// Raw units in one value unit: values carry six decimal places.
pub const SCALE: i64 = 1_000_000;

/// Largest magnitude (in raw units) an observation may have: one
/// million value units. The bound keeps every intermediate product of
/// the estimators inside `i128`.
pub const VAL_MAX: i64 = 1_000_000_000_000;

/// Most observations a moment or marker based estimator accepts; keeps
/// running sums of fourth powers inside `i128`.
pub const COUNT_MAX: u64 = 10_000_000;

/// Division truncating toward zero, for a positive divisor: the rule
/// every fixed-point operation of this crate rounds by.
pub open spec fn tdiv(a: int, b: int) -> int {
    if a >= 0 {
        a / b
    } else {
        -((-a) / b)
    }
}

/// Fixed-point product: `a * b` rescaled back to raw units.
pub open spec fn fx_mul(a: int, b: int) -> int {
    tdiv(a * b, SCALE as int)
}

/// Dividing an exact multiple of the divisor is exact.
pub proof fn lemma_tdiv_exact(x: int, b: int)
    requires
        0 < b,
    ensures
        tdiv(b * x, b) == x,
{
    if x >= 0 {
        assert(b * x == x * b) by (nonlinear_arith);
        assert(b * x >= 0) by (nonlinear_arith)
            requires
                0 < b,
                0 <= x,
        ;
        lemma_div_by_multiple(x, b);
    } else {
        assert(b * x < 0) by (nonlinear_arith)
            requires
                0 < b,
                x < 0,
        ;
        assert(-(b * x) == b * (-x)) by (nonlinear_arith);
        assert(b * (-x) == (-x) * b) by (nonlinear_arith);
        lemma_div_by_multiple(-x, b);
    }
}

/// Truncating division never grows the magnitude of the numerator.
pub proof fn lemma_tdiv_sign_mag(a: int, b: int)
    requires
        0 < b,
    ensures
        a >= 0 ==> 0 <= tdiv(a, b) <= a,
        a <= 0 ==> a <= tdiv(a, b) <= 0,
{
    if a >= 0 {
        lemma_div_pos_is_pos(a, b);
        lemma_div_nonincreasing(a, b);
    } else {
        lemma_div_pos_is_pos(-a, b);
        lemma_div_nonincreasing(-a, b);
    }
}

/// A numerator bounded by `m * b` in magnitude divides to at most `m`.
pub proof fn lemma_tdiv_bound(a: int, b: int, m: int)
    requires
        0 < b,
        0 <= m,
        -(m * b) <= a <= m * b,
    ensures
        -m <= tdiv(a, b) <= m,
{
    lemma_div_by_multiple(m, b);
    if a >= 0 {
        lemma_div_pos_is_pos(a, b);
        lemma_div_is_ordered(a, m * b, b);
    } else {
        lemma_div_pos_is_pos(-a, b);
        lemma_div_is_ordered(-a, m * b, b);
    }
}

/// Truncating division is monotone in the numerator.
pub proof fn lemma_tdiv_ordered(a1: int, a2: int, b: int)
    requires
        0 < b,
        a1 <= a2,
    ensures
        tdiv(a1, b) <= tdiv(a2, b),
{
    if a1 >= 0 {
        lemma_div_is_ordered(a1, a2, b);
    } else if a2 < 0 {
        lemma_div_is_ordered(-a2, -a1, b);
    } else {
        lemma_div_pos_is_pos(-a1, b);
        lemma_div_pos_is_pos(a2, b);
    }
}

/// Dividing zero gives zero.
pub proof fn lemma_tdiv_zero(b: int)
    requires
        0 < b,
    ensures
        tdiv(0, b) == 0,
{
    lemma_div_of0(b);
}

/// Truncating division on machine integers, for a positive divisor.
pub fn div_trunc(a: i128, b: i128) -> (r: i128)
    requires
        0 < b,
        i128::MIN < a,
    ensures
        r as int == tdiv(a as int, b as int),
{
    proof {
        lemma_tdiv_sign_mag(a as int, b as int);
    }
    if a >= 0 {
        let q: u128 = (a as u128) / (b as u128);
        q as i128
    } else {
        let na: u128 = (-a) as u128;
        let q: u128 = na / (b as u128);
        proof {
            lemma_tdiv_sign_mag(-a as int, b as int);
        }
        -(q as i128)
    }
}

/// `r` is the integer square root of `a`: the greatest `r` with
/// `r * r <= a`.
pub open spec fn is_isqrt(a: int, r: int) -> bool {
    0 <= r && r * r <= a && a < (r + 1) * (r + 1)
}

/// The integer square root, as a spec-level value.
pub open spec fn sqrt_floor(a: int) -> int {
    choose|r: int| is_isqrt(a, r)
}

/// The integer square root is unique, so any witness names it.
pub proof fn lemma_isqrt_unique(a: int, r: int)
    requires
        is_isqrt(a, r),
    ensures
        sqrt_floor(a) == r,
{
    assert(exists|x: int| is_isqrt(a, x)) by {
        assert(is_isqrt(a, r));
    }
    let r2 = sqrt_floor(a);
    assert(is_isqrt(a, r2));
    if r < r2 {
        assert((r + 1) * (r + 1) <= r2 * r2) by (nonlinear_arith)
            requires
                0 <= r,
                r + 1 <= r2,
        ;
    } else if r2 < r {
        assert((r2 + 1) * (r2 + 1) <= r * r) by (nonlinear_arith)
            requires
                0 <= r2,
                r2 + 1 <= r,
        ;
    }
}

/// Integer square root of a non-negative machine integer.
pub fn isqrt(a: i128) -> (r: i128)
    requires
        0 <= a,
    ensures
        is_isqrt(a as int, r as int),
        r as int == sqrt_floor(a as int),
{
    let x: u128 = a as u128;
    let mut lo: u128 = 0;
    let mut hi: u128 = if x < 0x1_0000_0000_0000_0000 {
        x
    } else {
        0xffff_ffff_ffff_ffff
    };
    proof {
        if x >= 0x1_0000_0000_0000_0000 {
            assert((hi as int + 1) * (hi as int + 1) > x as int) by (nonlinear_arith)
                requires
                    hi as int == 0xffff_ffff_ffff_ffff,
                    (x as int) < 0x8000_0000_0000_0000_0000_0000_0000_0000,
            ;
        } else {
            assert((x as int + 1) * (x as int + 1) > x as int) by (nonlinear_arith)
                requires
                    0 <= x as int,
            ;
        }
    }
    while lo < hi
        invariant
            lo <= hi,
            hi <= 0xffff_ffff_ffff_ffffu128,
            lo as int * lo as int <= x as int,
            (x as int) < (hi as int + 1) * (hi as int + 1),
            x == a as int,
        decreases hi - lo,
    {
        let mid: u128 = lo + (hi - lo + 1) / 2;
        proof {
            assert((mid as int) * (mid as int) < 0x1_0000_0000_0000_0000_0000_0000_0000_0000)
                by (nonlinear_arith)
                requires
                    mid as int <= 0xffff_ffff_ffff_ffff,
                    0 <= mid as int,
            ;
        }
        let sq: u128 = mid * mid;
        if sq <= x {
            lo = mid;
        } else {
            hi = mid - 1;
        }
    }
    proof {
        assert(lo as int <= 0xffff_ffff_ffff_ffff);
        lemma_isqrt_unique(a as int, lo as int);
    }
    lo as i128
}

} // verus!
