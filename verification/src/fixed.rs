//! Saturating fixed-point scalar arithmetic.
//!
//! A scalar is an `i64` holding `SCALE` units per 1.0.  Every operation is
//! total: results outside the representable range saturate, and division by
//! zero saturates by the sign of the numerator.  Each executable operation
//! is pinned to a spec-level mirror, so composite computations built from
//! these operations have exact contracts.

use vstd::prelude::*;

verus! {

/// Number of fixed-point units per 1.0 (2^30).
pub const SCALE: i64 = 1_073_741_824;

/// Clamp a mathematical integer into the `i64` range.
pub open spec fn sat64(x: int) -> int {
    if x > i64::MAX as int {
        i64::MAX as int
    } else if x < i64::MIN as int {
        i64::MIN as int
    } else {
        x
    }
}

/// Absolute value of a mathematical integer.
pub open spec fn abs_int(x: int) -> int {
    if x >= 0 {
        x
    } else {
        -x
    }
}

/// Truncating (round-toward-zero) division, matching what `checked_div`
/// computes on signed integers.
pub open spec fn tdiv(x: int, d: int) -> int {
    if x == 0 {
        0
    } else if x > 0 && d > 0 {
        x / d
    } else if x < 0 && d < 0 {
        ((x * -1) / (d * -1))
    } else if x < 0 {
        ((x * -1) / d) * -1
    } else {
        (x / (d * -1)) * -1
    }
}

proof fn lemma_div_pos_bound(x: int, d: int)
    requires
        x >= 0,
        d >= 1,
    ensures
        0 <= x / d <= x,
{
    vstd::arithmetic::div_mod::lemma_div_pos_is_pos(x, d);
    vstd::arithmetic::div_mod::lemma_div_nonincreasing(x, d);
}

/// Truncating division never grows the magnitude of the numerator.
proof fn lemma_tdiv_bound(x: int, d: int)
    requires
        d != 0,
    ensures
        -abs_int(x) <= tdiv(x, d) <= abs_int(x),
{
    if x == 0 {
    } else if x > 0 && d > 0 {
        lemma_div_pos_bound(x, d);
    } else if x < 0 && d < 0 {
        lemma_div_pos_bound(x * -1, d * -1);
    } else if x < 0 {
        lemma_div_pos_bound(x * -1, d);
    } else {
        lemma_div_pos_bound(x, d * -1);
    }
}

/// Saturating fixed-point addition.
pub open spec fn fx_add_spec(a: i64, b: i64) -> i64 {
    sat64(a + b) as i64
}

pub fn fx_add(a: i64, b: i64) -> (r: i64)
    ensures
        r == fx_add_spec(a, b),
{
    let p: i128 = a as i128 + b as i128;
    if p > i64::MAX as i128 {
        i64::MAX
    } else if p < i64::MIN as i128 {
        i64::MIN
    } else {
        p as i64
    }
}

/// Saturating fixed-point subtraction.
pub open spec fn fx_sub_spec(a: i64, b: i64) -> i64 {
    sat64(a - b) as i64
}

pub fn fx_sub(a: i64, b: i64) -> (r: i64)
    ensures
        r == fx_sub_spec(a, b),
{
    let p: i128 = a as i128 - b as i128;
    if p > i64::MAX as i128 {
        i64::MAX
    } else if p < i64::MIN as i128 {
        i64::MIN
    } else {
        p as i64
    }
}

/// Saturating negation.
pub open spec fn fx_neg_spec(a: i64) -> i64 {
    sat64(-a) as i64
}

pub fn fx_neg(a: i64) -> (r: i64)
    ensures
        r == fx_neg_spec(a),
{
    if a == i64::MIN {
        i64::MAX
    } else {
        -a
    }
}

/// Difference clamped to the symmetric range `[-i64::MAX, i64::MAX]`, so
/// that the difference of two scalars always negates exactly when its
/// arguments swap.
pub open spec fn sdiff_spec(a: i64, b: i64) -> i64 {
    let d = a - b;
    if d > i64::MAX as int {
        i64::MAX
    } else if d < -(i64::MAX as int) {
        (-i64::MAX) as i64
    } else {
        d as i64
    }
}

pub fn sdiff(a: i64, b: i64) -> (r: i64)
    ensures
        r == sdiff_spec(a, b),
{
    let p: i128 = a as i128 - b as i128;
    if p > i64::MAX as i128 {
        i64::MAX
    } else if p < -(i64::MAX as i128) {
        -i64::MAX
    } else {
        p as i64
    }
}

/// Swapping the arguments of the clamped difference negates it exactly.
pub proof fn lemma_sdiff_antisymmetric(a: i64, b: i64)
    ensures
        sdiff_spec(b, a) == fx_neg_spec(sdiff_spec(a, b)),
{
}

/// Saturating fixed-point multiplication: the mathematical product scaled
/// back down by `SCALE`, rounded toward zero.
pub open spec fn fx_mul_spec(a: i64, b: i64) -> i64 {
    sat64(tdiv(a as int * b as int, SCALE as int)) as i64
}

pub fn fx_mul(a: i64, b: i64) -> (r: i64)
    ensures
        r == fx_mul_spec(a, b),
{
    proof {
        let ai = a as int;
        let bi = b as int;
        assert(ai * bi <= 0x40000000000000000000000000000000int && ai * bi
            >= -0x40000000000000000000000000000000int) by (nonlinear_arith)
            requires
                -0x8000000000000000int <= ai <= 0x8000000000000000int,
                -0x8000000000000000int <= bi <= 0x8000000000000000int,
        ;
    }
    let p: i128 = (a as i128) * (b as i128);
    let q: i128 = match p.checked_div(SCALE as i128) {
        Some(v) => v,
        None => {
            proof {
                lemma_tdiv_bound(p as int, SCALE as int);
            }
            0
        },
    };
    proof {
        lemma_tdiv_bound(p as int, SCALE as int);
    }
    if q > i64::MAX as i128 {
        i64::MAX
    } else if q < i64::MIN as i128 {
        i64::MIN
    } else {
        q as i64
    }
}

/// Saturating fixed-point division: `a / b` in scalar value, i.e. the
/// quotient of `a * SCALE` by `b`, rounded toward zero.  Division by zero
/// saturates by the sign of `a`.
pub open spec fn fx_div_spec(a: i64, b: i64) -> i64 {
    if b == 0 {
        if a > 0 {
            i64::MAX
        } else if a < 0 {
            i64::MIN
        } else {
            0
        }
    } else {
        sat64(tdiv(a as int * SCALE as int, b as int)) as i64
    }
}

pub fn fx_div(a: i64, b: i64) -> (r: i64)
    ensures
        r == fx_div_spec(a, b),
{
    if b == 0 {
        if a > 0 {
            i64::MAX
        } else if a < 0 {
            i64::MIN
        } else {
            0
        }
    } else {
        proof {
            let ai = a as int;
            let si = SCALE as int;
            assert(ai * si <= 0x40000000000000000000000000000000int && ai * si
                >= -0x40000000000000000000000000000000int) by (nonlinear_arith)
                requires
                    -0x8000000000000000int <= ai <= 0x8000000000000000int,
                    0 <= si <= 0x8000000000000000int,
            ;
        }
        let p: i128 = (a as i128) * (SCALE as i128);
        let q: i128 = match p.checked_div(b as i128) {
            Some(v) => v,
            None => {
                proof {
                    lemma_tdiv_bound(p as int, b as int);
                }
                0
            },
        };
        proof {
            lemma_tdiv_bound(p as int, b as int);
        }
        if q > i64::MAX as i128 {
            i64::MAX
        } else if q < i64::MIN as i128 {
            i64::MIN
        } else {
            q as i64
        }
    }
}

/// Exact Euclidean division of a non-negative scalar by a small positive
/// integer count (not a scalar): used for series coefficients.
pub fn div_count(a: i64, n: i64) -> (r: i64)
    requires
        a >= 0,
        n >= 1,
    ensures
        r == a as int / n as int,
        0 <= r <= a,
{
    proof {
        lemma_div_pos_bound(a as int, n as int);
    }
    match a.checked_div(n) {
        Some(v) => v,
        None => 0,
    }
}

/// Fixed-point square root of a non-negative scalar: the unique `r` with
/// `r^2 <= x * SCALE < (r + 1)^2` in mathematical integers, i.e. the scalar
/// square root rounded down to the grid.
pub fn fx_sqrt(x: i64) -> (r: i64)
    requires
        x >= 0,
    ensures
        0 <= r,
        (r as int) * (r as int) <= (x as int) * (SCALE as int),
        (x as int) * (SCALE as int) < (r as int + 1) * (r as int + 1),
{
    proof {
        assert((x as int) * (SCALE as int) < 0x1000000000000000000000000int
            && 0 <= (x as int) * (SCALE as int)) by (nonlinear_arith)
            requires
                0 <= (x as int) && (x as int) < 0x8000000000000000int,
                0 <= (SCALE as int) && (SCALE as int) <= 0x40000000int,
        ;
    }
    let y: u128 = (x as u128) * (SCALE as u128);
    let mut lo: u128 = 0;
    let mut hi: u128 = 0x1000000000000u128;
    while lo + 1 < hi
        invariant
            lo < hi,
            hi <= 0x1000000000000u128,
            lo * lo <= y as int,
            (y as int) < hi * hi,
            y == (x as int) * (SCALE as int),
        decreases hi - lo,
    {
        let mid: u128 = lo + (hi - lo) / 2;
        assert(lo < mid < hi);
        proof {
            assert((mid as int) * (mid as int) <= 0x1000000000000000000000000int)
                by (nonlinear_arith)
                requires
                    0 <= (mid as int) && (mid as int) <= 0x1000000000000int,
            ;
        }
        if mid * mid <= y {
            lo = mid;
        } else {
            hi = mid;
        }
    }
    proof {
        assert(lo * lo <= (y as int) && (y as int) < (lo + 1) * (lo + 1));
    }
    lo as i64
}

/// Upper end of the Taylor window for `exp`: SCALE / 16, i.e. 0.0625.
pub const TAYLOR_CUT: i64 = 67_108_864;

/// `ln 2` in fixed-point units.
pub const LN2: i64 = 744_261_118;

/// Euclidean division of a scalar by a small positive integer count,
/// at spec level.
pub open spec fn divc_spec(a: i64, n: int) -> i64 {
    ((a as int) / n) as i64
}

/// Degree-5 alternating Taylor polynomial for `exp(-x)` in Horner form,
/// used on `0 <= x <= TAYLOR_CUT`.
pub open spec fn taylor_exp_neg_spec(x: i64) -> i64 {
    let a5 = fx_sub_spec(SCALE, divc_spec(x, 5));
    let a4 = fx_sub_spec(SCALE, fx_mul_spec(divc_spec(x, 4), a5));
    let a3 = fx_sub_spec(SCALE, fx_mul_spec(divc_spec(x, 3), a4));
    let a2 = fx_sub_spec(SCALE, fx_mul_spec(divc_spec(x, 2), a3));
    fx_sub_spec(SCALE, fx_mul_spec(x, a2))
}

/// `exp(-x)` for a non-negative scalar `x`: argument halving down to the
/// Taylor window, then repeated squaring on the way back up.
pub open spec fn exp_neg_spec(x: i64) -> i64
    decreases x,
{
    if x <= TAYLOR_CUT {
        taylor_exp_neg_spec(x)
    } else {
        let h = exp_neg_spec(divc_spec(x, 2));
        fx_mul_spec(h, h)
    }
}

/// A fixed-point product with a factor in `[0, 1]` stays within `[0, a]`.
pub proof fn lemma_fx_mul_unit(a: i64, b: i64)
    requires
        0 <= a,
        0 <= b <= SCALE,
    ensures
        0 <= fx_mul_spec(a, b) <= a,
{
    let p = (a as int) * (b as int);
    assert(0 <= (a as int) * (b as int) && (a as int) * (b as int) <= (a as int)
        * (SCALE as int)) by (nonlinear_arith)
        requires
            0 <= a as int,
            0 <= (b as int) && (b as int) <= SCALE as int,
    ;
    if p > 0 {
        lemma_div_pos_bound(p, SCALE as int);
        vstd::arithmetic::div_mod::lemma_div_is_ordered(
            p,
            (a as int) * (SCALE as int),
            SCALE as int,
        );
        vstd::arithmetic::div_mod::lemma_div_by_multiple(a as int, SCALE as int);
    }
}

proof fn lemma_taylor_range(x: i64)
    requires
        0 <= x <= TAYLOR_CUT,
    ensures
        0 <= taylor_exp_neg_spec(x) <= SCALE,
{
    lemma_div_pos_bound(x as int, 5);
    lemma_div_pos_bound(x as int, 4);
    lemma_div_pos_bound(x as int, 3);
    lemma_div_pos_bound(x as int, 2);
    let a5 = fx_sub_spec(SCALE, divc_spec(x, 5));
    lemma_fx_mul_unit(divc_spec(x, 4), a5);
    let a4 = fx_sub_spec(SCALE, fx_mul_spec(divc_spec(x, 4), a5));
    lemma_fx_mul_unit(divc_spec(x, 3), a4);
    let a3 = fx_sub_spec(SCALE, fx_mul_spec(divc_spec(x, 3), a4));
    lemma_fx_mul_unit(divc_spec(x, 2), a3);
    let a2 = fx_sub_spec(SCALE, fx_mul_spec(divc_spec(x, 2), a3));
    lemma_fx_mul_unit(x, a2);
}

/// Fixed-point `exp(-x)` for `x >= 0`; the result always lies in `[0, 1]`.
pub fn fx_exp_neg(x: i64) -> (r: i64)
    requires
        x >= 0,
    ensures
        r == exp_neg_spec(x),
        0 <= r <= SCALE,
    decreases x,
{
    if x <= TAYLOR_CUT {
        let a5 = fx_sub(SCALE, div_count(x, 5));
        let a4 = fx_sub(SCALE, fx_mul(div_count(x, 4), a5));
        let a3 = fx_sub(SCALE, fx_mul(div_count(x, 3), a4));
        let a2 = fx_sub(SCALE, fx_mul(div_count(x, 2), a3));
        let r = fx_sub(SCALE, fx_mul(x, a2));
        proof {
            lemma_taylor_range(x);
        }
        r
    } else {
        let h = fx_exp_neg(div_count(x, 2));
        proof {
            lemma_fx_mul_unit(h, h);
        }
        fx_mul(h, h)
    }
}

/// Normalization of a scalar at or above 1.0: halve until the mantissa
/// falls in `[SCALE, 2 * SCALE)`, counting the halvings.
pub open spec fn norm_down_spec(m: i64) -> (i64, i64)
    decreases m,
{
    if m < 2 * SCALE {
        (m, 0)
    } else {
        let (m2, k) = norm_down_spec(divc_spec(m, 2));
        (m2, fx_add_spec(k, 1))
    }
}

/// Normalization of a scalar below 1.0: double until the mantissa reaches
/// `[SCALE, 2 * SCALE)`, counting the doublings.
pub open spec fn norm_up_spec(m: i64) -> (i64, i64)
    decreases 2 * SCALE - m,
{
    if m <= 0 {
        (SCALE, 0)
    } else if m >= SCALE {
        (m, 0)
    } else {
        let (m2, k) = norm_up_spec((2 * m) as i64);
        (m2, fx_add_spec(k, 1))
    }
}

/// Odd-power series for `2 * atanh(z)`, truncated after the 13th power:
/// equals `ln((1 + z) / (1 - z))` up to the truncation.
pub open spec fn ln_series_spec(z: i64) -> i64 {
    let z2 = fx_mul_spec(z, z);
    let p3 = fx_mul_spec(z2, z);
    let p5 = fx_mul_spec(z2, p3);
    let p7 = fx_mul_spec(z2, p5);
    let p9 = fx_mul_spec(z2, p7);
    let p11 = fx_mul_spec(z2, p9);
    let p13 = fx_mul_spec(z2, p11);
    let s = fx_add_spec(z, divc_spec(p3, 3));
    let s = fx_add_spec(s, divc_spec(p5, 5));
    let s = fx_add_spec(s, divc_spec(p7, 7));
    let s = fx_add_spec(s, divc_spec(p9, 9));
    let s = fx_add_spec(s, divc_spec(p11, 11));
    fx_add_spec(s, divc_spec(p13, 13))
}

/// Natural logarithm of a positive scalar: normalize the mantissa into
/// `[1, 2)`, apply the atanh series there, and add or subtract the counted
/// multiples of `ln 2`.
pub open spec fn ln_spec(x: i64) -> i64 {
    if x <= 0 {
        0
    } else {
        let (m, k) = if x >= SCALE {
            norm_down_spec(x)
        } else {
            norm_up_spec(x)
        };
        let sgn: int = if x >= SCALE {
            1
        } else {
            -1
        };
        let z = fx_div_spec(fx_sub_spec(m, SCALE), fx_add_spec(m, SCALE));
        let s2 = fx_add_spec(ln_series_spec(z), ln_series_spec(z));
        let kl = sat64(sgn * (k as int) * (LN2 as int)) as i64;
        fx_add_spec(kl, s2)
    }
}

fn norm_down(m: i64) -> (r: (i64, i64))
    requires
        m >= SCALE,
    ensures
        r == norm_down_spec(m),
        0 <= r.1,
        SCALE <= r.0 < 2 * SCALE,
    decreases m,
{
    if m < 2 * SCALE {
        (m, 0)
    } else {
        let (m2, k) = norm_down(div_count(m, 2));
        (m2, fx_add(k, 1))
    }
}

fn norm_up(m: i64) -> (r: (i64, i64))
    requires
        m < 2 * SCALE,
    ensures
        r == norm_up_spec(m),
        0 <= r.1,
        SCALE <= r.0 < 2 * SCALE,
    decreases 2 * SCALE - m,
{
    if m <= 0 {
        (SCALE, 0)
    } else if m >= SCALE {
        (m, 0)
    } else {
        let (m2, k) = norm_up(2 * m);
        (m2, fx_add(k, 1))
    }
}

fn ln_series(z: i64) -> (r: i64)
    requires
        z >= 0,
    ensures
        r == ln_series_spec(z),
{
    let z2 = fx_mul(z, z);
    let p3 = fx_mul(z2, z);
    let p5 = fx_mul(z2, p3);
    let p7 = fx_mul(z2, p5);
    let p9 = fx_mul(z2, p7);
    let p11 = fx_mul(z2, p9);
    let p13 = fx_mul(z2, p11);
    proof {
        lemma_fx_mul_nonneg(z, z);
        lemma_fx_mul_nonneg(z2, z);
        lemma_fx_mul_nonneg(z2, p3);
        lemma_fx_mul_nonneg(z2, p5);
        lemma_fx_mul_nonneg(z2, p7);
        lemma_fx_mul_nonneg(z2, p9);
        lemma_fx_mul_nonneg(z2, p11);
    }
    let mut s: i64 = fx_add(z, div_count(p3, 3));
    s = fx_add(s, div_count(p5, 5));
    s = fx_add(s, div_count(p7, 7));
    s = fx_add(s, div_count(p9, 9));
    s = fx_add(s, div_count(p11, 11));
    fx_add(s, div_count(p13, 13))
}

/// The fixed-point product of non-negative scalars is non-negative.
pub proof fn lemma_fx_mul_nonneg(a: i64, b: i64)
    requires
        a >= 0,
        b >= 0,
    ensures
        fx_mul_spec(a, b) >= 0,
{
    let p = (a as int) * (b as int);
    assert((a as int) * (b as int) >= 0) by (nonlinear_arith)
        requires
            a as int >= 0,
            b as int >= 0,
    ;
    if p > 0 {
        lemma_div_pos_bound(p, SCALE as int);
    }
}

/// The fixed-point quotient of a non-negative scalar by a positive scalar
/// is non-negative.
pub proof fn lemma_fx_div_nonneg(a: i64, b: i64)
    requires
        a >= 0,
        b >= 1,
    ensures
        fx_div_spec(a, b) >= 0,
{
    let p = (a as int) * (SCALE as int);
    assert((a as int) * (SCALE as int) >= 0) by (nonlinear_arith)
        requires
            a as int >= 0,
            SCALE as int >= 0,
    ;
    if p > 0 {
        lemma_div_pos_bound(p, b as int);
    }
}

/// Fixed-point natural logarithm of a positive scalar.
pub fn fx_ln(x: i64) -> (r: i64)
    requires
        x >= 1,
    ensures
        r == ln_spec(x),
{
    let m: i64;
    let k: i64;
    let sgn: i64;
    if x >= SCALE {
        let mk = norm_down(x);
        m = mk.0;
        k = mk.1;
        sgn = 1;
    } else {
        let mk = norm_up(x);
        m = mk.0;
        k = mk.1;
        sgn = -1;
    }
    proof {
        lemma_fx_div_nonneg(fx_sub_spec(m, SCALE), fx_add_spec(m, SCALE));
    }
    let z = fx_div(fx_sub(m, SCALE), fx_add(m, SCALE));
    let s1 = ln_series(z);
    let s2 = fx_add(s1, s1);
    proof {
        let ki = k as int;
        let li = LN2 as int;
        assert(ki * li <= 0x40000000000000000000000000000000int && ki * li
            >= -0x40000000000000000000000000000000int) by (nonlinear_arith)
            requires
                -0x8000000000000000int <= ki <= 0x8000000000000000int,
                0 <= li <= 0x8000000000000000int,
    ;
    }
    let base: i128 = (k as i128) * (LN2 as i128);
    let kp: i128 = if sgn >= 0 {
        base
    } else {
        -base
    };
    let kl: i64 = if kp > i64::MAX as i128 {
        i64::MAX
    } else if kp < i64::MIN as i128 {
        i64::MIN
    } else {
        kp as i64
    };
    proof {
        let mks = if x >= SCALE {
            norm_down_spec(x)
        } else {
            norm_up_spec(x)
        };
        assert(mks.0 == m && mks.1 == k);
        let sgns: int = if x >= SCALE {
            1int
        } else {
            -1int
        };
        assert(kl as int == sat64(sgns * (k as int) * (LN2 as int)));
    }
    fx_add(kl, s2)
}

} // verus!
