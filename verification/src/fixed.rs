//! Fixed-point arithmetic: scaled 64-bit integers standing for reals.
//!
//! A value `v` represents the real number `v / FP_SCALE`. The scale is
//! divisible by 4, 5, 6, 10, 50, 100, 500, 5000 and 10000, so all the
//! rate constants of the effects are exact. Multiplication truncates
//! toward zero, as a float-to-integer cast would.

use vstd::prelude::*;

verus! {

/// One unit, in fixed-point steps.
pub const FP_SCALE: i64 = 600_000;

/// The largest magnitude admitted by the fixed-point helpers; chosen so
/// that a product of two operands stays within `i64`.
pub const FP_MAX: i64 = 3_000_000_000;

/// Magnitude of an integer.
pub open spec fn abs_i(x: int) -> int {
    if x >= 0 {
        x
    } else {
        -x
    }
}

/// Division truncating toward zero (the semantics of a float cast),
/// for a positive divisor.
pub open spec fn div_trunc(n: int, d: int) -> int {
    if n >= 0 {
        n / d
    } else {
        -((-n) / d)
    }
}

/// The fixed-point product: `a * b / FP_SCALE`, truncated toward zero.
pub open spec fn fp_mul_spec(a: int, b: int) -> int {
    div_trunc(a * b, FP_SCALE as int)
}

proof fn lemma_div_trunc_bound(n: int, d: int)
    requires
        d > 0,
    ensures
        abs_i(div_trunc(n, d)) <= abs_i(n) / d,
{
    if n >= 0 {
        assert(n / d >= 0) by {
            vstd::arithmetic::div_mod::lemma_div_is_ordered(0, n, d);
        }
    } else {
        assert((-n) / d >= 0) by {
            vstd::arithmetic::div_mod::lemma_div_is_ordered(0, -n, d);
        }
    }
}

/// A truncated product is no larger in magnitude than the bound that
/// its operands give.
pub proof fn lemma_fp_mul_bound(a: int, b: int, ba: int, bb: int)
    requires
        abs_i(a) <= ba,
        abs_i(b) <= bb,
        0 <= ba,
        0 <= bb,
    ensures
        abs_i(fp_mul_spec(a, b)) <= ba * bb / (FP_SCALE as int),
{
    assert(abs_i(a * b) <= ba * bb) by (nonlinear_arith)
        requires
            abs_i(a) <= ba,
            abs_i(b) <= bb,
            0 <= ba,
            0 <= bb,
    ;
    lemma_div_trunc_bound(a * b, FP_SCALE as int);
    assert(abs_i(a * b) / (FP_SCALE as int) <= ba * bb / (FP_SCALE as int)) by {
        vstd::arithmetic::div_mod::lemma_div_is_ordered(
            abs_i(a * b),
            ba * bb,
            FP_SCALE as int,
        );
    }
}

/// Fixed-point multiplication, truncating toward zero.
pub fn fp_mul(a: i64, b: i64) -> (r: i64)
    requires
        -FP_MAX <= a <= FP_MAX,
        -FP_MAX <= b <= FP_MAX,
    ensures
        r == fp_mul_spec(a as int, b as int),
        abs_i(r as int) <= abs_i(a as int) * abs_i(b as int) / (FP_SCALE as int),
{
    let neg = (a < 0) != (b < 0);
    let am: u64 = if a < 0 {
        (-a) as u64
    } else {
        a as u64
    };
    let bm: u64 = if b < 0 {
        (-b) as u64
    } else {
        b as u64
    };
    assert(am * bm == abs_i(a as int) * abs_i(b as int)) by (nonlinear_arith)
        requires
            am == abs_i(a as int),
            bm == abs_i(b as int),
    ;
    assert(am * bm <= FP_MAX * FP_MAX) by (nonlinear_arith)
        requires
            am <= FP_MAX,
            bm <= FP_MAX,
    ;
    let m: u64 = (am * bm) / (FP_SCALE as u64);
    assert(m <= am * bm) by {
        vstd::arithmetic::div_mod::lemma_div_is_ordered_by_denominator(
            (am * bm) as int,
            1,
            FP_SCALE as int,
        );
    }
    proof {
        lemma_mul_abs_signs(a as int, b as int);
    }
    if neg {
        -(m as i64)
    } else {
        m as i64
    }
}

proof fn lemma_mul_abs_signs(a: int, b: int)
    ensures
        ((a < 0) != (b < 0)) ==> a * b == -(abs_i(a) * abs_i(b)),
        ((a < 0) == (b < 0)) ==> a * b == abs_i(a) * abs_i(b),
{
    assert(((a < 0) != (b < 0)) ==> a * b == -(abs_i(a) * abs_i(b))) by (nonlinear_arith);
    assert(((a < 0) == (b < 0)) ==> a * b == abs_i(a) * abs_i(b)) by (nonlinear_arith);
}

/// Division of a fixed-point value by a positive divisor, truncating
/// toward zero.
pub fn fp_div(n: i64, d: i64) -> (r: i64)
    requires
        n > i64::MIN,
        d > 0,
    ensures
        r == div_trunc(n as int, d as int),
        abs_i(r as int) <= abs_i(n as int) / (d as int),
{
    proof {
        lemma_div_trunc_bound(n as int, d as int);
    }
    if n >= 0 {
        let q: u64 = (n as u64) / (d as u64);
        q as i64
    } else {
        let q: u64 = ((-n) as u64) / (d as u64);
        proof {
            vstd::arithmetic::div_mod::lemma_div_is_ordered_by_denominator((-n) as int, 1, d as int);
        }
        -(q as i64)
    }
}

/// Euclidean remainder: the representative in `[0, d)`, also for a
/// negative value.
pub fn emod(n: i64, d: i64) -> (r: i64)
    requires
        n > i64::MIN,
        0 < d,
    ensures
        r == (n as int) % (d as int),
{
    if n >= 0 {
        ((n as u64) % (d as u64)) as i64
    } else {
        let m: i64 = (((-n) as u64) % (d as u64)) as i64;
        proof {
            vstd::arithmetic::div_mod::lemma_fundamental_div_mod(-n, d as int);
            vstd::arithmetic::div_mod::lemma_mod_bound(-n, d as int);
            let q = (-n) / (d as int);
            if m == 0 {
                assert(n == (d as int) * (-q) + 0) by (nonlinear_arith)
                    requires
                        -n == (d as int) * q + 0,
                ;
                vstd::arithmetic::div_mod::lemma_fundamental_div_mod_converse(n as int, d as int, -q, 0);
            } else {
                assert(n == (d as int) * (-q - 1) + (d - m)) by (nonlinear_arith)
                    requires
                        -n == (d as int) * q + m,
                ;
                vstd::arithmetic::div_mod::lemma_fundamental_div_mod_converse(
                    n as int,
                    d as int,
                    -q - 1,
                    d - m,
                );
            }
        }
        if m == 0 {
            0
        } else {
            d - m
        }
    }
}

/// Pi, in fixed-point steps (truncated).
pub const PI_FP: i64 = 1_884_955;

/// A full turn.
pub const TWO_PI_FP: i64 = 2 * PI_FP;

/// A quarter turn (truncated).
pub const HALF_PI_FP: i64 = 942_477;

/// `PI_FP * PI_FP / FP_SCALE`, the denominator of the wave parabola.
pub const PI_SQ_FP: i64 = 5_921_758;

/// The largest angle the wave functions accept; far beyond any angle
/// the effects build, and small enough that no step overflows.
pub const ANGLE_MAX: i64 = 4_000_000_000_000;

/// One arch of the wave: a parabola through 0 at `0` and `PI_FP`, with
/// apex `FP_SCALE` (clamped), standing in for the sine on `[0, pi]`.
pub open spec fn wave_arch(u: int) -> int {
    let p = 4 * u * (PI_FP - u) / (PI_SQ_FP as int);
    if p > FP_SCALE {
        FP_SCALE as int
    } else {
        p
    }
}

/// The wave function on a nonnegative angle in fixed-point radians:
/// a parabolic approximation of the sine, periodic in `TWO_PI_FP`.
pub open spec fn sin_fp_spec(x: int) -> int {
    let r = x % (TWO_PI_FP as int);
    if r < PI_FP {
        wave_arch(r)
    } else {
        -wave_arch(r - PI_FP)
    }
}

/// The cosine companion: the wave, a quarter turn ahead.
pub open spec fn cos_fp_spec(x: int) -> int {
    sin_fp_spec(x + HALF_PI_FP)
}

/// The wave stays within one unit of either sign.
pub proof fn lemma_wave_arch_bounds(u: int)
    requires
        0 <= u <= PI_FP,
    ensures
        0 <= wave_arch(u) <= FP_SCALE,
{
    assert(0 <= 4 * u * (PI_FP - u)) by (nonlinear_arith)
        requires
            0 <= u <= PI_FP,
    ;
    assert(0 <= 4 * u * (PI_FP - u) / (PI_SQ_FP as int)) by {
        vstd::arithmetic::div_mod::lemma_div_is_ordered(0, 4 * u * (PI_FP - u), PI_SQ_FP as int);
    }
}

/// The wave function stays within one unit of either sign.
pub proof fn lemma_sin_fp_bounds(x: int)
    requires
        x >= 0,
    ensures
        -FP_SCALE <= sin_fp_spec(x) <= FP_SCALE,
{
    let r = x % (TWO_PI_FP as int);
    vstd::arithmetic::div_mod::lemma_mod_bound(x, TWO_PI_FP as int);
    if r < PI_FP {
        lemma_wave_arch_bounds(r);
    } else {
        lemma_wave_arch_bounds(r - PI_FP);
    }
}

/// The fixed-point sine approximation, for nonnegative angles.
pub fn sin_fp(x: i64) -> (r: i64)
    requires
        0 <= x <= ANGLE_MAX,
    ensures
        r == sin_fp_spec(x as int),
        -FP_SCALE <= r <= FP_SCALE,
{
    proof {
        lemma_sin_fp_bounds(x as int);
    }
    let rem: u64 = (x as u64) % (TWO_PI_FP as u64);
    let (u, neg): (u64, bool) = if rem < PI_FP as u64 {
        (rem, false)
    } else {
        (rem - PI_FP as u64, true)
    };
    assert(4 * u * (PI_FP - u as i64) <= 4 * PI_FP * PI_FP) by (nonlinear_arith)
        requires
            0 <= u < PI_FP,
    ;
    let p: u64 = 4 * u * (PI_FP as u64 - u) / (PI_SQ_FP as u64);
    let clamped: i64 = if p > FP_SCALE as u64 {
        FP_SCALE
    } else {
        p as i64
    };
    if neg {
        -clamped
    } else {
        clamped
    }
}

/// The fixed-point cosine approximation, for nonnegative angles.
pub fn cos_fp(x: i64) -> (r: i64)
    requires
        0 <= x <= ANGLE_MAX - HALF_PI_FP,
    ensures
        r == cos_fp_spec(x as int),
        -FP_SCALE <= r <= FP_SCALE,
{
    sin_fp(x + HALF_PI_FP)
}

} // verus!
