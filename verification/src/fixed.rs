//! Q48 fixed-point sample arithmetic.
//!
//! A sample is an `i64` holding a real value scaled by `FP_ONE = 2^48`, so the
//! representable range is about `[-32768, 32768)` with a resolution of
//! `2^-48`.  Every operation is total: results outside the `i64` range
//! saturate, and division by zero saturates in the direction of its sign
//! (mirroring the limit of an unbounded quotient) or yields zero for `0 / 0`.

use vstd::prelude::*;
use vstd::arithmetic::div_mod::{
    lemma_div_pos_is_pos, lemma_div_nonincreasing, lemma_fundamental_div_mod,
    lemma_fundamental_div_mod_converse, lemma_mod_bound,
};
use vstd::arithmetic::mul::{
    lemma_mul_nonnegative, lemma_mul_unary_negation, lemma_mul_cancels_negatives,
    lemma_mul_upper_bound, lemma_mul_is_commutative, lemma_mul_is_distributive_sub_other_way,
};

verus! {

/// The fixed-point representation of 1.0: 2^48.
pub const FP_ONE: i64 = 0x1_0000_0000_0000;

/// The magnitude of an unbounded integer.
pub open spec fn abs_int(a: int) -> int {
    if a >= 0 {
        a
    } else {
        -a
    }
}

/// Truncating integer division (round toward zero), the semantics of Rust's
/// `/` on signed integers, defined for `b != 0`: the quotient of the
/// magnitudes, carrying the sign of the exact quotient.
pub open spec fn div_trunc(a: int, b: int) -> int {
    if (a >= 0) == (b >= 0) {
        abs_int(a) / abs_int(b)
    } else {
        -(abs_int(a) / abs_int(b))
    }
}

/// Clamp an unbounded integer into the `i64` range.
pub open spec fn sat64(x: int) -> int {
    if x > i64::MAX {
        i64::MAX as int
    } else if x < i64::MIN {
        i64::MIN as int
    } else {
        x
    }
}

/// The sample that `a + b` saturates to.
pub open spec fn fp_add(a: int, b: int) -> int {
    sat64(a + b)
}

/// The sample that `a - b` saturates to.
pub open spec fn fp_sub(a: int, b: int) -> int {
    sat64(a - b)
}

/// The sample product `a * b`, rescaled by `FP_ONE` and saturated.
pub open spec fn fp_mul(a: int, b: int) -> int {
    sat64(div_trunc(a * b, FP_ONE as int))
}

/// The sample quotient `a / b`: zero for `0 / 0`, a saturated value of the
/// sign of `a` for `a / 0`, and otherwise `a * FP_ONE / b` truncated and
/// saturated.
pub open spec fn fp_div(a: int, b: int) -> int {
    if b == 0 {
        if a == 0 {
            0
        } else if a > 0 {
            i64::MAX as int
        } else {
            i64::MIN as int
        }
    } else {
        sat64(div_trunc(a * (FP_ONE as int), b))
    }
}

/// The absolute value of a sample, saturated (`|i64::MIN|` does not fit).
pub open spec fn fp_abs(a: int) -> int {
    sat64(abs_int(a))
}

/// The magnitude of a product is the product of the magnitudes.
pub proof fn lemma_abs_mul(a: int, b: int)
    ensures
        abs_int(a * b) == abs_int(a) * abs_int(b),
{
    if a >= 0 && b >= 0 {
        lemma_mul_nonnegative(a, b);
    } else if a < 0 && b >= 0 {
        lemma_mul_unary_negation(a, b);
        lemma_mul_nonnegative(-a, b);
    } else if a >= 0 && b < 0 {
        lemma_mul_unary_negation(a, b);
        lemma_mul_nonnegative(a, -b);
    } else {
        lemma_mul_cancels_negatives(a, b);
        lemma_mul_nonnegative(-a, -b);
    }
}

/// Bound a product's magnitude by the product of magnitude bounds.
pub proof fn lemma_mul_abs_bound(a: int, b: int, ab: int, bb: int)
    requires
        abs_int(a) <= ab,
        abs_int(b) <= bb,
    ensures
        abs_int(a * b) <= ab * bb,
{
    lemma_abs_mul(a, b);
    lemma_mul_upper_bound(abs_int(a), ab, abs_int(b), bb);
}

/// Truncating division never grows in magnitude.
pub proof fn lemma_div_trunc_bounds(a: int, b: int)
    requires
        b != 0,
    ensures
        -abs_int(a) <= div_trunc(a, b) <= abs_int(a),
{
    lemma_div_pos_is_pos(abs_int(a), abs_int(b));
    lemma_div_nonincreasing(abs_int(a), abs_int(b));
}

/// Truncating `i128` division, the basis of the saturating sample operations.
pub fn div_i128(a: i128, b: i128) -> (r: i128)
    requires
        b != 0,
        a != i128::MIN,
        b != i128::MIN,
    ensures
        r == div_trunc(a as int, b as int),
{
    let ua: u128 = if a >= 0 {
        a as u128
    } else {
        (-a) as u128
    };
    let ub: u128 = if b >= 0 {
        b as u128
    } else {
        (-b) as u128
    };
    let q: u128 = ua / ub;
    proof {
        lemma_div_trunc_bounds(a as int, b as int);
        assert(q == abs_int(a as int) / abs_int(b as int));
    }
    if (a >= 0) == (b >= 0) {
        q as i128
    } else {
        -(q as i128)
    }
}

/// Narrow an `i128` onto the `i64` range, saturating at the ends.
pub fn sat_narrow(x: i128) -> (r: i64)
    ensures
        r == sat64(x as int),
{
    if x > i64::MAX as i128 {
        i64::MAX
    } else if x < i64::MIN as i128 {
        i64::MIN
    } else {
        x as i64
    }
}

/// Saturating sample addition.
pub fn add_s(a: i64, b: i64) -> (r: i64)
    ensures
        r == fp_add(a as int, b as int),
{
    sat_narrow(a as i128 + b as i128)
}

/// Saturating sample subtraction.
pub fn sub_s(a: i64, b: i64) -> (r: i64)
    ensures
        r == fp_sub(a as int, b as int),
{
    sat_narrow(a as i128 - b as i128)
}

/// Saturating sample multiplication (`Q48 * Q48 -> Q48`).
pub fn mul_s(a: i64, b: i64) -> (r: i64)
    ensures
        r == fp_mul(a as int, b as int),
{
    proof {
        assert((a as i128) * (b as i128) == a as int * b as int
            && -0x4000_0000_0000_0000_0000_0000_0000_0000 <= a as int * b as int
            <= 0x4000_0000_0000_0000_0000_0000_0000_0000) by (nonlinear_arith)
            requires
                i64::MIN <= a <= i64::MAX,
                i64::MIN <= b <= i64::MAX,
        ;
    }
    let wide: i128 = (a as i128) * (b as i128);
    let q: i128 = div_i128(wide, FP_ONE as i128);
    sat_narrow(q)
}

/// Saturating sample division (`Q48 / Q48 -> Q48`).
pub fn div_s(a: i64, b: i64) -> (r: i64)
    ensures
        r == fp_div(a as int, b as int),
{
    if b == 0 {
        if a == 0 {
            0
        } else if a > 0 {
            i64::MAX
        } else {
            i64::MIN
        }
    } else {
        proof {
            assert((a as i128) * (FP_ONE as i128) == a as int * FP_ONE as int
                && -0x4000_0000_0000_0000_0000_0000_0000_0000 <= a as int * FP_ONE as int
                <= 0x4000_0000_0000_0000_0000_0000_0000_0000) by (nonlinear_arith)
                requires
                    i64::MIN <= a <= i64::MAX,
                    FP_ONE == 0x1_0000_0000_0000,
            ;
        }
        let wide: i128 = (a as i128) * (FP_ONE as i128);
        let q: i128 = div_i128(wide, b as i128);
        sat_narrow(q)
    }
}

/// Saturating absolute value of a sample.
pub fn abs_s(a: i64) -> (r: i64)
    ensures
        r == fp_abs(a as int),
{
    if a >= 0 {
        a
    } else {
        sat_narrow(-(a as i128))
    }
}

/// Euclidean remainder (always in `[0, d)`), matching the `%` of
/// specification arithmetic.
pub fn mod_euclid(a: i128, d: i128) -> (r: i128)
    requires
        d > 0,
        a != i128::MIN,
    ensures
        r == a as int % d as int,
        0 <= r < d,
{
    if a >= 0 {
        proof {
            lemma_mod_bound(a as int, d as int);
        }
        a % d
    } else {
        proof {
            let q = (-a) as int / d as int;
            let m = (-a) as int % d as int;
            lemma_fundamental_div_mod((-a) as int, d as int);
            lemma_mod_bound((-a) as int, d as int);
            lemma_mul_unary_negation(q, d as int);
            lemma_mul_is_commutative(q, d as int);
            lemma_mul_is_distributive_sub_other_way(d as int, -q, 1);
            if m == 0 {
                lemma_fundamental_div_mod_converse(a as int, d as int, -q, 0);
            } else {
                lemma_fundamental_div_mod_converse(a as int, d as int, -q - 1, d - m);
            }
        }
        let m: i128 = (-a) % d;
        if m == 0 {
            0
        } else {
            d - m
        }
    }
}

} // verus!
