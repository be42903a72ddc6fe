//! Deterministic fixed-point arithmetic.
//!
//! All activations, logits and weights are carried as `i64` values scaled by
//! `FX_ONE`. Every operation clamps its result into `[-FX_MAX, FX_MAX]`, so
//! intermediate products provably fit in `i64` and repeated runs on the same
//! inputs give bit-identical results.

use vstd::prelude::*;

verus! {

/// One in fixed-point representation (2^16).
pub const FX_ONE: i64 = 65536;

/// Largest magnitude a fixed-point value may take (2^31).
pub const FX_MAX: i64 = 2147483648;

/// Result of clamping an unbounded mathematical value into range.
pub open spec fn spec_clamp_fx(x: int) -> int {
    if x > FX_MAX {
        FX_MAX as int
    } else if x < -FX_MAX {
        -FX_MAX as int
    } else {
        x
    }
}

/// A value is in the representable fixed-point range.
pub open spec fn fx_in_range(x: int) -> bool {
    -FX_MAX <= x <= FX_MAX
}

/// Clamp a raw value into the representable range.
pub fn clamp_fx(x: i64) -> (r: i64)
    ensures
        r == spec_clamp_fx(x as int),
        fx_in_range(r as int),
{
    if x > FX_MAX {
        FX_MAX
    } else if x < -FX_MAX {
        -FX_MAX
    } else {
        x
    }
}

/// Magnitude of a mathematical integer.
pub open spec fn spec_abs(x: int) -> int {
    if x < 0 {
        -x
    } else {
        x
    }
}

/// Fixed-point product: (a * b) / FX_ONE, computed on magnitudes so that
/// rounding is always toward zero, then clamped.
pub open spec fn spec_mul_fx(a: int, b: int) -> int {
    let p = (spec_abs(a) * spec_abs(b)) / (FX_ONE as int);
    if (a < 0) != (b < 0) {
        spec_clamp_fx(-p)
    } else {
        spec_clamp_fx(p)
    }
}

/// Multiply two in-range fixed-point values.
pub fn mul_fx(a: i64, b: i64) -> (r: i64)
    requires
        fx_in_range(a as int),
        fx_in_range(b as int),
    ensures
        r == spec_mul_fx(a as int, b as int),
        fx_in_range(r as int),
{
    let aa: i64 = if a < 0 { -a } else { a };
    let bb: i64 = if b < 0 { -b } else { b };
    assert(aa * bb <= FX_MAX * FX_MAX) by (nonlinear_arith)
        requires 0 <= aa <= FX_MAX, 0 <= bb <= FX_MAX;
    assert(0 <= aa * bb) by (nonlinear_arith)
        requires 0 <= aa, 0 <= bb;
    let p: i64 = (aa * bb) / FX_ONE;
    if (a < 0) != (b < 0) {
        clamp_fx(-p)
    } else {
        clamp_fx(p)
    }
}

/// Fixed-point quotient: (a * FX_ONE) / b for positive b, computed on the
/// magnitude of a so that rounding is always toward zero, then clamped.
pub open spec fn spec_div_fx(a: int, b: int) -> int {
    let q = (spec_abs(a) * FX_ONE) / b;
    if a < 0 {
        spec_clamp_fx(-q)
    } else {
        spec_clamp_fx(q)
    }
}

/// Divide an in-range fixed-point value by a positive one.
pub fn div_fx(a: i64, b: i64) -> (r: i64)
    requires
        fx_in_range(a as int),
        0 < b,
    ensures
        r == spec_div_fx(a as int, b as int),
        fx_in_range(r as int),
{
    let aa: i64 = if a < 0 { -a } else { a };
    assert(aa * FX_ONE <= FX_MAX * FX_ONE) by (nonlinear_arith)
        requires 0 <= aa <= FX_MAX;
    assert(0 <= aa * FX_ONE) by (nonlinear_arith)
        requires 0 <= aa;
    let q: i64 = (aa * FX_ONE) / b;
    if a < 0 {
        clamp_fx(-q)
    } else {
        clamp_fx(q)
    }
}

/// Saturating fixed-point sum.
pub open spec fn spec_add_fx(a: int, b: int) -> int {
    spec_clamp_fx(a + b)
}

/// Add two in-range fixed-point values, saturating at the range bounds.
pub fn add_fx(a: i64, b: i64) -> (r: i64)
    requires
        fx_in_range(a as int),
        fx_in_range(b as int),
    ensures
        r == spec_add_fx(a as int, b as int),
        fx_in_range(r as int),
{
    clamp_fx(a + b)
}

/// Truncating quotient for a positive divisor, computed on the magnitude of
/// the dividend so rounding is always toward zero.
pub open spec fn spec_div_trunc(a: int, b: int) -> int {
    let q = spec_abs(a) / b;
    if a < 0 {
        -q
    } else {
        q
    }
}

/// Divide by a positive divisor, rounding toward zero.
pub fn div_trunc(a: i64, b: i64) -> (r: i64)
    requires
        0 < b,
        -0x4000_0000_0000_0000 <= a <= 0x4000_0000_0000_0000,
    ensures
        r == spec_div_trunc(a as int, b as int),
{
    let aa: i64 = if a < 0 { -a } else { a };
    let q: i64 = aa / b;
    if a < 0 {
        -q
    } else {
        q
    }
}

/// Integer square root: the largest r with r * r <= v.
pub fn isqrt64(v: i64) -> (r: i64)
    requires
        0 <= v <= 0x4000_0000_0000_0000,
    ensures
        0 <= r,
        r * r <= v,
        (r + 1) * (r + 1) > v,
{
    let mut r: i64 = 0;
    let mut done = false;
    while !done
        invariant
            0 <= r <= 0x8000_0000,
            r * r <= v,
            v <= 0x4000_0000_0000_0000,
            done ==> (r + 1) * (r + 1) > v,
        decreases v - r, (if done { 0int } else { 1int }),
    {
        proof {
            assert((r + 1) * (r + 1) <= 0x8000_0001 * 0x8000_0001) by (nonlinear_arith)
                requires 0 <= r <= 0x8000_0000;
        }
        let r1 = r + 1;
        let sq = r1 * r1;
        if sq <= v {
            proof {
                assert(r1 <= v) by (nonlinear_arith)
                    requires 0 <= r1, r1 * r1 <= v;
                assert(r1 <= 0x8000_0000) by (nonlinear_arith)
                    requires
                        0 <= r1,
                        r1 * r1 <= 0x4000_0000_0000_0000;
            }
            r = r1;
        } else {
            done = true;
        }
    }
    r
}

/// Argument range on which the exponential approximation is evaluated:
/// inputs are first clamped into [-EXP_ARG_MAX, 0].
pub const EXP_ARG_MAX: i64 = 1048576;

/// Rational approximation of FX_ONE * e^(x / FX_ONE) for x <= 0:
/// FX_ONE^2 / (FX_ONE - x + x^2 / (2 * FX_ONE)), with x clamped into
/// [-EXP_ARG_MAX, 0]. Always in (0, FX_ONE].
pub open spec fn spec_exp_fx(x: int) -> int {
    let y = if x > 0 {
        0
    } else if x < -EXP_ARG_MAX {
        EXP_ARG_MAX as int
    } else {
        -x
    };
    let denom = FX_ONE + y + (y * y) / (2 * FX_ONE);
    (FX_ONE * FX_ONE) / denom
}

/// Positive, decreasing approximation of the exponential on fixed-point
/// arguments; exact per `spec_exp_fx`, equal to FX_ONE at zero.
pub fn exp_fx(x: i64) -> (r: i64)
    ensures
        r == spec_exp_fx(x as int),
        0 < r <= FX_ONE,
{
    let y: i64 = if x > 0 {
        0
    } else if x < -EXP_ARG_MAX {
        EXP_ARG_MAX
    } else {
        -x
    };
    assert(0 <= y * y <= EXP_ARG_MAX * EXP_ARG_MAX) by (nonlinear_arith)
        requires 0 <= y <= EXP_ARG_MAX;
    let denom: i64 = FX_ONE + y + (y * y) / (2 * FX_ONE);
    let r: i64 = (FX_ONE * FX_ONE) / denom;
    assert(FX_ONE <= denom);
    assert((FX_ONE as int * FX_ONE as int) / (denom as int) <= FX_ONE as int) by (nonlinear_arith)
        requires FX_ONE <= denom as int;
    assert(0 < (FX_ONE as int * FX_ONE as int) / (denom as int)) by (nonlinear_arith)
        requires
            FX_ONE <= denom as int,
            denom as int <= FX_ONE as int + EXP_ARG_MAX as int + (EXP_ARG_MAX as int * EXP_ARG_MAX as int) / (2 * FX_ONE as int);
    r
}

} // verus!
