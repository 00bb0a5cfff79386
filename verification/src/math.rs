//! Integer kernels for the transcendental functions the engine needs.
//!
//! Angles are given as fractions of a full turn (`num / den` turns), which
//! keeps range reduction exact: the quadrant and the position inside the
//! quadrant are integer quotient and remainder.  Inside a quadrant, sine and
//! cosine are evaluated by fixed Taylor polynomials in Q62 arithmetic; the
//! contracts state the exact integer computation, which approximates
//! `sin(2*pi*num/den)` and `cos(2*pi*num/den)` to well below the Q48 output
//! resolution.

use vstd::prelude::*;
use crate::fixed::{
    FP_ONE, abs_int, div_trunc, div_i128, lemma_mul_abs_bound, fp_add, fp_sub, fp_mul, fp_div,
    fp_abs, add_s, sub_s, mul_s, div_s, abs_s,
};
use vstd::arithmetic::div_mod::{
    lemma_div_pos_is_pos, lemma_div_is_ordered, lemma_div_multiples_vanish,
    lemma_multiply_divide_lt, lemma_div_nonincreasing,
};
use vstd::arithmetic::mul::{lemma_mul_nonnegative, lemma_mul_is_commutative};

verus! {

/// The fixed-point representation of 1.0 in the internal Q62 format.
pub const ONE_Q62: i128 = 0x4000_0000_0000_0000;

/// Truncating division shrinks proportionally: if `|a| <= m * b` then
/// `|a / b| <= m`.
pub proof fn lemma_div_trunc_shrinks(a: int, b: int, m: int)
    requires
        b > 0,
        0 <= m,
        abs_int(a) <= m * b,
    ensures
        -m <= div_trunc(a, b) <= m,
{
    lemma_mul_is_commutative(m, b);
    lemma_div_pos_is_pos(abs_int(a), b);
    lemma_div_is_ordered(abs_int(a), m * b, b);
    lemma_div_multiples_vanish(m, b);
}

/// Q62 product: `a * b / 2^62`, truncated toward zero.
pub fn mul62(a: i128, b: i128) -> (r: i128)
    requires
        -0x1_0000_0000_0000_0000 <= a <= 0x1_0000_0000_0000_0000,
        0 <= b <= ONE_Q62,
    ensures
        r == div_trunc(a * b, ONE_Q62 as int),
        -abs_int(a as int) <= r <= abs_int(a as int),
        a >= 0 ==> r >= 0,
{
    proof {
        lemma_mul_abs_bound(a as int, b as int, 0x1_0000_0000_0000_0000, ONE_Q62 as int);
        lemma_mul_abs_bound(a as int, b as int, abs_int(a as int), ONE_Q62 as int);
        lemma_div_trunc_shrinks(a as int * b as int, ONE_Q62 as int, abs_int(a as int));
        if a >= 0 {
            lemma_mul_nonnegative(a as int, b as int);
            lemma_div_pos_is_pos(a as int * b as int, ONE_Q62 as int);
        }
    }
    let wide: i128 = a * b;
    div_i128(wide, ONE_Q62)
}

/// Horner evaluation of the Q62 Taylor polynomial for `sin(pi*r/2)`,
/// `r = x / 2^62` in `[0, 1]`; the result is `r` times an even polynomial in
/// `r^2`.
pub open spec fn sin_poly_spec(x: int) -> int {
    let s = div_trunc(x * x, ONE_Q62 as int);
    let acc: int = 0x4a2;
    let acc = -0x31481 + div_trunc(acc * s, ONE_Q62 as int);
    let acc = 0x1aaec33 + div_trunc(acc * s, ONE_Q62 as int);
    let acc = -0xb7d6dcf9 + div_trunc(acc * s, ONE_Q62 as int);
    let acc = 0x3d1e869a03 + div_trunc(acc * s, ONE_Q62 as int);
    let acc = -0xf183a7ef444 + div_trunc(acc * s, ONE_Q62 as int);
    let acc = 0x2a0f0690fdcf0 + div_trunc(acc * s, ONE_Q62 as int);
    let acc = -0x4cb4b3398af618 + div_trunc(acc * s, ONE_Q62 as int);
    let acc = 0x519af19dd6ab880 + div_trunc(acc * s, ONE_Q62 as int);
    let acc = -0x295779cc4b7ca600 + div_trunc(acc * s, ONE_Q62 as int);
    let acc = 0x6487ed5110b46000 + div_trunc(acc * s, ONE_Q62 as int);
    div_trunc(x * acc, ONE_Q62 as int)
}

/// Horner evaluation of the Q62 Taylor polynomial for `cos(pi*r/2)`,
/// `r = x / 2^62` in `[0, 1]`: an even polynomial in `r^2`.
pub open spec fn cos_poly_spec(x: int) -> int {
    let s = div_trunc(x * x, ONE_Q62 as int);
    let acc: int = 0x3dee;
    let acc = -0x25418b + div_trunc(acc * s, ONE_Q62 as int);
    let acc = 0x120c62c3 + div_trunc(acc * s, ONE_Q62 as int);
    let acc = -0x6db893d13 + div_trunc(acc * s, ONE_Q62 as int);
    let acc = 0x1f9d38a3764 + div_trunc(acc * s, ONE_Q62 as int);
    let acc = -0x69b47ca8812a + div_trunc(acc * s, ONE_Q62 as int);
    let acc = 0xf0fa83448dd5e + div_trunc(acc * s, ONE_Q62 as int);
    let acc = -0x155d3c7e3cbffa0 + div_trunc(acc * s, ONE_Q62 as int);
    let acc = 0x103c1f081b5ac400 + div_trunc(acc * s, ONE_Q62 as int);
    let acc = -0x4ef4f326f9177800 + div_trunc(acc * s, ONE_Q62 as int);
    0x4000000000000000 + div_trunc(acc * s, ONE_Q62 as int)
}

/// Evaluate the quarter-wave sine polynomial.
pub fn sin_poly(x: i128) -> (r: i128)
    requires
        0 <= x <= ONE_Q62,
    ensures
        r == sin_poly_spec(x as int),
        -0x1_0000_0000_0000_0000 <= r <= 0x1_0000_0000_0000_0000,
{
    let s = mul62(x, x);
    let acc: i128 = 0x4a2;
    let acc: i128 = -0x31481 + mul62(acc, s);
    let acc: i128 = 0x1aaec33 + mul62(acc, s);
    let acc: i128 = -0xb7d6dcf9 + mul62(acc, s);
    let acc: i128 = 0x3d1e869a03 + mul62(acc, s);
    let acc: i128 = -0xf183a7ef444 + mul62(acc, s);
    let acc: i128 = 0x2a0f0690fdcf0 + mul62(acc, s);
    let acc: i128 = -0x4cb4b3398af618 + mul62(acc, s);
    let acc: i128 = 0x519af19dd6ab880 + mul62(acc, s);
    let acc: i128 = -0x295779cc4b7ca600 + mul62(acc, s);
    let acc: i128 = 0x6487ed5110b46000 + mul62(acc, s);
    mul62(acc, x)
}

/// Evaluate the quarter-wave cosine polynomial.
pub fn cos_poly(x: i128) -> (r: i128)
    requires
        0 <= x <= ONE_Q62,
    ensures
        r == cos_poly_spec(x as int),
        -0x1_0000_0000_0000_0000 <= r <= 0x1_0000_0000_0000_0000,
{
    let s = mul62(x, x);
    let acc: i128 = 0x3dee;
    let acc: i128 = -0x25418b + mul62(acc, s);
    let acc: i128 = 0x120c62c3 + mul62(acc, s);
    let acc: i128 = -0x6db893d13 + mul62(acc, s);
    let acc: i128 = 0x1f9d38a3764 + mul62(acc, s);
    let acc: i128 = -0x69b47ca8812a + mul62(acc, s);
    let acc: i128 = 0xf0fa83448dd5e + mul62(acc, s);
    let acc: i128 = -0x155d3c7e3cbffa0 + mul62(acc, s);
    let acc: i128 = 0x103c1f081b5ac400 + mul62(acc, s);
    let acc: i128 = -0x4ef4f326f9177800 + mul62(acc, s);
    0x4000000000000000 + mul62(acc, s)
}

/// The quadrant (0..=3) that the turn fraction `num / den` falls in.
pub open spec fn quad_spec(num: int, den: int) -> int {
    (4 * num) / den
}

/// The position inside that quadrant, as a Q62 fraction of a quarter turn.
pub open spec fn quad_pos_spec(num: int, den: int) -> int {
    (((4 * num) % den) * ONE_Q62) / den
}

/// The exact integer value this library computes for `sin(2*pi*num/den)`,
/// as a Q48 sample.
pub open spec fn sin_frac_spec(num: int, den: int) -> int {
    let q = quad_spec(num, den);
    let x = quad_pos_spec(num, den);
    let v = if q == 0 {
        sin_poly_spec(x)
    } else if q == 1 {
        cos_poly_spec(x)
    } else if q == 2 {
        -sin_poly_spec(x)
    } else {
        -cos_poly_spec(x)
    };
    div_trunc(v, 0x4000)
}

/// The exact integer value this library computes for `cos(2*pi*num/den)`,
/// as a Q48 sample.
pub open spec fn cos_frac_spec(num: int, den: int) -> int {
    let q = quad_spec(num, den);
    let x = quad_pos_spec(num, den);
    let v = if q == 0 {
        cos_poly_spec(x)
    } else if q == 1 {
        -sin_poly_spec(x)
    } else if q == 2 {
        -cos_poly_spec(x)
    } else {
        sin_poly_spec(x)
    };
    div_trunc(v, 0x4000)
}

/// Exact range reduction: quadrant index and Q62 position inside it.
fn quarter_phase(num: u128, den: u128) -> (r: (u128, i128))
    requires
        0 < den <= 0x1_0000_0000_0000_0000,
        num < den,
    ensures
        r.0 == quad_spec(num as int, den as int),
        r.1 == quad_pos_spec(num as int, den as int),
        r.0 <= 3,
        0 <= r.1 <= ONE_Q62,
{
    let n4: u128 = 4 * num;
    let q: u128 = n4 / den;
    let rem: u128 = n4 % den;
    let pos_wide: u128 = rem * (ONE_Q62 as u128);
    let pos: u128 = pos_wide / den;
    proof {
        lemma_multiply_divide_lt(n4 as int, den as int, 4);
        lemma_div_pos_is_pos(n4 as int, den as int);
        lemma_mul_abs_bound(rem as int, ONE_Q62 as int, den as int, ONE_Q62 as int);
        lemma_div_is_ordered(
            rem as int * ONE_Q62 as int,
            den as int * ONE_Q62 as int,
            den as int,
        );
        lemma_div_multiples_vanish(ONE_Q62 as int, den as int);
        lemma_div_pos_is_pos(rem as int * ONE_Q62 as int, den as int);
    }
    (q, pos as i128)
}

/// The library's sine: `sin(2*pi*num/den)` as a Q48 sample, computed by
/// exact quadrant reduction and the quarter-wave polynomial.
pub fn sin_frac(num: u128, den: u128) -> (r: i64)
    requires
        0 < den <= 0x1_0000_0000_0000_0000,
        num < den,
    ensures
        r == sin_frac_spec(num as int, den as int),
        -0x4_0000_0000_0000 <= r <= 0x4_0000_0000_0000,
{
    let (q, x) = quarter_phase(num, den);
    let v: i128 = if q == 0 {
        sin_poly(x)
    } else if q == 1 {
        cos_poly(x)
    } else if q == 2 {
        let t = sin_poly(x);
        -t
    } else {
        let t = cos_poly(x);
        -t
    };
    proof {
        lemma_div_trunc_shrinks(v as int, 0x4000, 0x4_0000_0000_0000);
    }
    let scaled: i128 = div_i128(v, 0x4000);
    scaled as i64
}

/// The library's cosine: `cos(2*pi*num/den)` as a Q48 sample.
pub fn cos_frac(num: u128, den: u128) -> (r: i64)
    requires
        0 < den <= 0x1_0000_0000_0000_0000,
        num < den,
    ensures
        r == cos_frac_spec(num as int, den as int),
        -0x4_0000_0000_0000 <= r <= 0x4_0000_0000_0000,
{
    let (q, x) = quarter_phase(num, den);
    let v: i128 = if q == 0 {
        cos_poly(x)
    } else if q == 1 {
        let t = sin_poly(x);
        -t
    } else if q == 2 {
        let t = cos_poly(x);
        -t
    } else {
        sin_poly(x)
    };
    proof {
        lemma_div_trunc_shrinks(v as int, 0x4000, 0x4_0000_0000_0000);
    }
    let scaled: i128 = div_i128(v, 0x4000);
    scaled as i64
}

/// Q62 product with a small right factor (`0 <= b <= 2^60`), used by the
/// base-two logarithm chain whose accumulator can exceed the range `mul62`
/// admits.
pub fn mul62q(a: i128, b: i128) -> (r: i128)
    requires
        -0x4_0000_0000_0000_0000 <= a <= 0x4_0000_0000_0000_0000,
        0 <= b <= 0x1800_0000_0000_0000,
    ensures
        r == div_trunc(a * b, ONE_Q62 as int),
        -abs_int(a as int) <= r <= abs_int(a as int),
        a >= 0 ==> r >= 0,
{
    proof {
        lemma_mul_abs_bound(a as int, b as int, 0x4_0000_0000_0000_0000, 0x1800_0000_0000_0000);
        lemma_mul_abs_bound(a as int, b as int, abs_int(a as int), ONE_Q62 as int);
        lemma_div_trunc_shrinks(a as int * b as int, ONE_Q62 as int, abs_int(a as int));
        if a >= 0 {
            lemma_mul_nonnegative(a as int, b as int);
            lemma_div_pos_is_pos(a as int * b as int, ONE_Q62 as int);
        }
    }
    let wide: i128 = a * b;
    div_i128(wide, ONE_Q62)
}

/// Horner evaluation of the Q62 series for `log2(m)` with
/// `m = 1 + 2*z/(1-z)`: the odd series `(2/ln 2) * atanh(z)` in `w = z^2`,
/// multiplied by `z` at the end.  Valid for `0 <= z <= 1/3`.
pub open spec fn log2_poly_spec(z: int) -> int {
    let w = div_trunc(z * z, ONE_Q62 as int);
    let acc: int = 0xc4f9d8b4a67ff00;
    let acc = 0xe347ab4698bb000 + div_trunc(acc * w, ONE_Q62 as int);
    let acc = 0x10c9a84994022d00 + div_trunc(acc * w, ONE_Q62 as int);
    let acc = 0x1484b13d7c02a900 + div_trunc(acc * w, ONE_Q62 as int);
    let acc = 0x1a61762a7aded900 + div_trunc(acc * w, ONE_Q62 as int);
    let acc = 0x24eed8a1df37fc00 + div_trunc(acc * w, ONE_Q62 as int);
    let acc = 0x3d8e13b87407fa00 + div_trunc(acc * w, ONE_Q62 as int);
    let acc = 0xb8aa3b295c17f000 + div_trunc(acc * w, ONE_Q62 as int);
    div_trunc(acc * z, ONE_Q62 as int)
}

/// Evaluate the base-two logarithm series.
pub fn log2_poly(z: i128) -> (r: i128)
    requires
        0 <= z <= 0x1800_0000_0000_0000,
    ensures
        r == log2_poly_spec(z as int),
        0 <= r <= 0x4_0000_0000_0000_0000,
{
    let w = mul62q(z, z);
    proof {
        lemma_mul_abs_bound(z as int, z as int, 0x1800_0000_0000_0000, 0x1800_0000_0000_0000);
        lemma_div_trunc_shrinks(z as int * z as int, ONE_Q62 as int, 0x900_0000_0000_0000);
    }
    let acc: i128 = 0xc4f9d8b4a67ff00;
    let acc: i128 = 0xe347ab4698bb000 + mul62q(acc, w);
    let acc: i128 = 0x10c9a84994022d00 + mul62q(acc, w);
    let acc: i128 = 0x1484b13d7c02a900 + mul62q(acc, w);
    let acc: i128 = 0x1a61762a7aded900 + mul62q(acc, w);
    let acc: i128 = 0x24eed8a1df37fc00 + mul62q(acc, w);
    let acc: i128 = 0x3d8e13b87407fa00 + mul62q(acc, w);
    let acc: i128 = 0xb8aa3b295c17f000 + mul62q(acc, w);
    proof {
        lemma_mul_abs_bound(acc as int, z as int, 0x4_0000_0000_0000_0000, ONE_Q62 as int);
        lemma_mul_abs_bound(acc as int, z as int, abs_int(acc as int), ONE_Q62 as int);
        lemma_div_trunc_shrinks(acc as int * z as int, ONE_Q62 as int, abs_int(acc as int));
        lemma_mul_nonnegative(acc as int, z as int);
        lemma_div_pos_is_pos(acc as int * z as int, ONE_Q62 as int);
    }
    let wide: i128 = acc * z;
    div_i128(wide, ONE_Q62)
}

/// Horner evaluation of the Q62 Taylor series for `2^f`, `f = x / 2^62` in
/// `[0, 1)`.
pub open spec fn exp2_poly_spec(x: int) -> int {
    let acc: int = 0x70ef594;
    let acc = 0x7a32b1cd + div_trunc(acc * x, ONE_Q62 as int);
    let acc = 0x7933d4563 + div_trunc(acc * x, ONE_Q62 as int);
    let acc = 0x6d494f4e58 + div_trunc(acc * x, ONE_Q62 as int);
    let acc = 0x58b0088e972 + div_trunc(acc * x, ONE_Q62 as int);
    let acc = 0x3ff97f8b1162 + div_trunc(acc * x, ONE_Q62 as int);
    let acc = 0x2861225f0d8f1 + div_trunc(acc * x, ONE_Q62 as int);
    let acc = 0x15d87fe78a6731 + div_trunc(acc * x, ONE_Q62 as int);
    let acc = 0x9d955b7dd273b8 + div_trunc(acc * x, ONE_Q62 as int);
    let acc = 0x38d611ae0941800 + div_trunc(acc * x, ONE_Q62 as int);
    let acc = 0xf5fdeffc162c780 + div_trunc(acc * x, ONE_Q62 as int);
    let acc = 0x2c5c85fdf473de00 + div_trunc(acc * x, ONE_Q62 as int);
    0x4000000000000000 + div_trunc(acc * x, ONE_Q62 as int)
}

/// Evaluate the base-two exponential series.
pub fn exp2_poly(x: i128) -> (r: i128)
    requires
        0 <= x <= ONE_Q62,
    ensures
        r == exp2_poly_spec(x as int),
        0 <= r <= 0x1_0000_0000_0000_0000,
{
    let acc: i128 = 0x70ef594;
    let acc: i128 = 0x7a32b1cd + mul62(acc, x);
    let acc: i128 = 0x7933d4563 + mul62(acc, x);
    let acc: i128 = 0x6d494f4e58 + mul62(acc, x);
    let acc: i128 = 0x58b0088e972 + mul62(acc, x);
    let acc: i128 = 0x3ff97f8b1162 + mul62(acc, x);
    let acc: i128 = 0x2861225f0d8f1 + mul62(acc, x);
    let acc: i128 = 0x15d87fe78a6731 + mul62(acc, x);
    let acc: i128 = 0x9d955b7dd273b8 + mul62(acc, x);
    let acc: i128 = 0x38d611ae0941800 + mul62(acc, x);
    let acc: i128 = 0xf5fdeffc162c780 + mul62(acc, x);
    let acc: i128 = 0x2c5c85fdf473de00 + mul62(acc, x);
    0x4000000000000000 + mul62(acc, x)
}

/// Binary normalisation: double `m` until it reaches `FP_ONE`, up to `fuel`
/// times; yields the number of doublings and the final mantissa.
pub open spec fn norm_spec(m: int, fuel: int) -> (int, int)
    decreases fuel,
{
    if m >= FP_ONE || fuel <= 0 {
        (0, m)
    } else {
        let p = norm_spec(2 * m, fuel - 1);
        (p.0 + 1, p.1)
    }
}

/// `k` successive truncating halvings of `g`.
pub open spec fn shr_spec(g: int, k: int) -> int
    decreases k,
{
    if k <= 0 {
        g
    } else {
        shr_spec(g, k - 1) / 2
    }
}

/// The exact integer value this library computes for `b ^ c` on Q48 values,
/// with the base clamped into `[0, 1]` and the exponent into `[0, 512]`:
/// `2 ^ (c * log2 b)` through the polynomial kernels.  `0 ^ 0` is 1.
pub open spec fn pow_q48_spec(b: int, c: int) -> int {
    let cc = if c < 0 {
        0
    } else if c > 0x200_0000_0000_0000 {
        0x200_0000_0000_0000
    } else {
        c
    };
    if b <= 0 {
        if cc == 0 {
            FP_ONE as int
        } else {
            0
        }
    } else {
        let bb = if b > FP_ONE {
            FP_ONE as int
        } else {
            b
        };
        let p = norm_spec(bb, 64);
        let e = p.0;
        let m = p.1;
        if m < FP_ONE {
            0
        } else {
            let z = div_trunc((m - FP_ONE) * ONE_Q62, m + FP_ONE);
            let lg = log2_poly_spec(z);
            let t = div_trunc(cc * (lg - e * ONE_Q62), FP_ONE as int);
            if t > 0 {
                i64::MAX as int
            } else {
                let u = -t;
                let nmag = u / ONE_Q62 as int;
                let fm = u % ONE_Q62 as int;
                let k = if fm == 0 {
                    nmag
                } else {
                    nmag + 1
                };
                let f = if fm == 0 {
                    0
                } else {
                    ONE_Q62 - fm
                };
                if k >= 64 {
                    0
                } else {
                    div_trunc(shr_spec(exp2_poly_spec(f), k), 0x4000)
                }
            }
        }
    }
}

/// Raise a Q48 base in `[0, 1]` to a Q48 exponent in `[0, 512]`
/// (arguments outside those ranges are clamped onto them).
pub fn pow_q48(b: i64, c: i64) -> (r: i64)
    ensures
        r == pow_q48_spec(b as int, c as int),
        0 <= r,
{
    let cc: i64 = if c < 0 {
        0
    } else if c > 0x200_0000_0000_0000 {
        0x200_0000_0000_0000
    } else {
        c
    };
    if b <= 0 {
        if cc == 0 {
            FP_ONE
        } else {
            0
        }
    } else {
        let bb: i64 = if b > FP_ONE {
            FP_ONE
        } else {
            b
        };
        let mut m: i64 = bb;
        let mut e: u64 = 0;
        while m < FP_ONE && e < 64
            invariant
                1 <= m < 2 * (FP_ONE as int),
                e <= 64,
                norm_spec(bb as int, 64) == (
                    e + norm_spec(m as int, 64 - e).0,
                    norm_spec(m as int, 64 - e).1,
                ),
            decreases 64 - e,
        {
            m = 2 * m;
            e = e + 1;
        }
        proof {
            assert(norm_spec(m as int, 64 - e) == (0int, m as int));
        }
        if m < FP_ONE {
            0
        } else {
            let zn: i128 = (m as i128 - FP_ONE as i128) * ONE_Q62;
            let zd: i128 = m as i128 + FP_ONE as i128;
            proof {
                lemma_div_trunc_shrinks(zn as int, zd as int, 0x1800_0000_0000_0000);
            }
            let z: i128 = div_i128(zn, zd);
            let lg: i128 = log2_poly(z);
            let l2: i128 = lg - (e as i128) * ONE_Q62;
            proof {
                lemma_mul_abs_bound(cc as int, l2 as int, 0x200_0000_0000_0000,
                    0x20_0000_0000_0000_0000);
                assert(0x200_0000_0000_0000 * 0x20_0000_0000_0000_0000
                    == 0x4000_0000_0000_0000_0000_0000_0000_0000int);
            }
            let prod: i128 = (cc as i128) * l2;
            let t: i128 = div_i128(prod, FP_ONE as i128);
            if t > 0 {
                i64::MAX
            } else {
                let u: u128 = (-t) as u128;
                let nmag: u128 = u / (ONE_Q62 as u128);
                let fm: u128 = u % (ONE_Q62 as u128);
                let k: u128 = if fm == 0 {
                    nmag
                } else {
                    nmag + 1
                };
                let f: i128 = if fm == 0 {
                    0
                } else {
                    ONE_Q62 - fm as i128
                };
                if k >= 64 {
                    0
                } else {
                    let g: i128 = exp2_poly(f);
                    let mut res: i128 = g;
                    let mut j: u128 = 0;
                    while j < k
                        invariant
                            j <= k < 64,
                            res == shr_spec(g as int, j as int),
                            0 <= res <= g <= 0x1_0000_0000_0000_0000,
                        decreases k - j,
                    {
                        proof {
                            lemma_div_pos_is_pos(res as int, 2);
                            lemma_div_nonincreasing(res as int, 2);
                        }
                        res = res / 2;
                        j = j + 1;
                    }
                    proof {
                        lemma_div_trunc_shrinks(res as int, 0x4000, 0x4_0000_0000_0000);
                    }
                    let out: i128 = div_i128(res, 0x4000);
                    out as i64
                }
            }
        }
    }
}

/// Halve numerator and denominator until the denominator fits the range the
/// quadrant reduction admits.
pub open spec fn scale_frac_spec(num: int, den: int) -> (int, int)
    decreases den,
{
    if den <= 0x1_0000_0000_0000_0000 {
        (num, den)
    } else {
        scale_frac_spec(num / 2, den / 2)
    }
}

/// The sine of `num / den` turns, after rescaling oversized fractions.
pub open spec fn sin_turn_spec(num: int, den: int) -> int {
    let p = scale_frac_spec(num, den);
    let n = if p.0 < p.1 {
        p.0
    } else {
        p.1 - 1
    };
    sin_frac_spec(n, p.1)
}

/// The cosine of `num / den` turns, after rescaling oversized fractions.
pub open spec fn cos_turn_spec(num: int, den: int) -> int {
    let p = scale_frac_spec(num, den);
    let n = if p.0 < p.1 {
        p.0
    } else {
        p.1 - 1
    };
    cos_frac_spec(n, p.1)
}

/// Rescale a turn fraction so that `den <= 2^64`, keeping `num < den`.
fn scale_frac(num: u128, den: u128) -> (r: (u128, u128))
    requires
        0 < den,
        num < den,
    ensures
        ({
            let p = scale_frac_spec(num as int, den as int);
            let n = if p.0 < p.1 {
                p.0
            } else {
                p.1 - 1
            };
            r.0 == n && r.1 == p.1
        }),
        0 < r.1 <= 0x1_0000_0000_0000_0000,
        r.0 < r.1,
{
    let mut n: u128 = num;
    let mut d: u128 = den;
    while d > 0x1_0000_0000_0000_0000
        invariant
            0 < d,
            n <= d,
            scale_frac_spec(num as int, den as int) == scale_frac_spec(n as int, d as int),
        decreases d,
    {
        proof {
            lemma_div_is_ordered(n as int, d as int, 2);
        }
        n = n / 2;
        d = d / 2;
    }
    if n < d {
        (n, d)
    } else {
        (d - 1, d)
    }
}

/// The library's sine over an arbitrary positive denominator.
pub fn sin_turn(num: u128, den: u128) -> (r: i64)
    requires
        0 < den,
        num < den,
    ensures
        r == sin_turn_spec(num as int, den as int),
        -0x4_0000_0000_0000 <= r <= 0x4_0000_0000_0000,
{
    let p = scale_frac(num, den);
    sin_frac(p.0, p.1)
}

/// The library's cosine over an arbitrary positive denominator.
pub fn cos_turn(num: u128, den: u128) -> (r: i64)
    requires
        0 < den,
        num < den,
    ensures
        r == cos_turn_spec(num as int, den as int),
        -0x4_0000_0000_0000 <= r <= 0x4_0000_0000_0000,
{
    let p = scale_frac(num, den);
    cos_frac(p.0, p.1)
}

/// The first-octant arctangent approximation, in Q48 degrees:
/// `45*z + 15.642*z*(1-z)` for `z` in `[0, 1]`.
pub open spec fn atan_deg_spec(z: int) -> int {
    fp_add(
        fp_mul(z, 0x2d_0000_0000_0000),
        fp_mul(fp_mul(z, fp_sub(FP_ONE as int, z)), 0xf_a45a_1cac_0831),
    )
}

/// The full-plane arctangent in Q48 degrees, in `(-180, 180]`, built from
/// the first-octant approximation by the usual reflections; `(0, 0)` maps
/// to zero.
pub open spec fn atan2_deg_spec(im: int, re: int) -> int {
    if im == 0 && re == 0 {
        0
    } else {
        let are = fp_abs(re);
        let aim = fp_abs(im);
        let octant = if aim <= are {
            atan_deg_spec(fp_div(aim, are))
        } else {
            fp_sub(0x5a_0000_0000_0000, atan_deg_spec(fp_div(are, aim)))
        };
        let half_plane = if re >= 0 {
            octant
        } else {
            fp_sub(0xb4_0000_0000_0000, octant)
        };
        if im >= 0 {
            half_plane
        } else {
            fp_sub(0, half_plane)
        }
    }
}

/// Evaluate the first-octant arctangent approximation.
fn atan_deg(z: i64) -> (r: i64)
    ensures
        r as int == atan_deg_spec(z as int),
{
    add_s(
        mul_s(z, 0x2d_0000_0000_0000),
        mul_s(mul_s(z, sub_s(FP_ONE, z)), 0xf_a45a_1cac_0831),
    )
}

/// Evaluate the full-plane arctangent in Q48 degrees.
pub fn atan2_deg(im: i64, re: i64) -> (r: i64)
    ensures
        r as int == atan2_deg_spec(im as int, re as int),
{
    if im == 0 && re == 0 {
        0
    } else {
        let are = abs_s(re);
        let aim = abs_s(im);
        let octant = if aim <= are {
            atan_deg(div_s(aim, are))
        } else {
            sub_s(0x5a_0000_0000_0000, atan_deg(div_s(are, aim)))
        };
        let half_plane = if re >= 0 {
            octant
        } else {
            sub_s(0xb4_0000_0000_0000, octant)
        };
        if im >= 0 {
            half_plane
        } else {
            sub_s(0, half_plane)
        }
    }
}

} // verus!
