//! Rotary positional encoding in exact fixed-point arithmetic.
//!
//! Each adjacent pair of a query or key vector is rotated by an angle that
//! grows with the position and shrinks for later pairs, derived from a
//! fixed base frequency. The rotation parameters come from the rational
//! parametrization c = (1 - t^2) / (1 + t^2), s = 2t / (1 + t^2) of the
//! circle, so every pair (c, s) is an exact Pythagorean rotation up to
//! rounding. Rotation is applied to a vector exactly once, before the key
//! is cached; cached keys are read verbatim afterwards and never
//! re-rotated.

use vstd::prelude::*;
use crate::fixed::{FX_ONE, FX_MAX, fx_in_range, spec_mul_fx, spec_add_fx, spec_div_trunc, mul_fx, add_fx, div_trunc};
use crate::sampler::{view_int, vec_in_range};

verus! {

/// Base frequency divisor: pair d rotates with period proportional to
/// (d + 1) times this base.
pub const ROPE_BASE: i64 = 32;

/// Largest half-angle parameter used; caps the rotation near a half turn.
pub const ROPE_T_MAX: i64 = 1048576;

/// Largest position the encoder accepts.
pub const ROPE_POS_MAX: usize = 32768;

/// Half-angle parameter of pair d at the given position.
pub open spec fn spec_rope_t(pos: int, d: int) -> int {
    let raw = (pos * FX_ONE) / ((d + 1) * ROPE_BASE);
    if raw > ROPE_T_MAX {
        ROPE_T_MAX as int
    } else {
        raw
    }
}

/// Cosine of the rotation: (1 - t^2) / (1 + t^2) in fixed point.
pub open spec fn spec_rope_cos(t: int) -> int {
    spec_div_trunc((FX_ONE * FX_ONE - t * t) * FX_ONE, FX_ONE * FX_ONE + t * t)
}

/// Sine of the rotation: 2t / (1 + t^2) in fixed point.
pub open spec fn spec_rope_sin(t: int) -> int {
    (2 * t * FX_ONE * FX_ONE) / (FX_ONE * FX_ONE + t * t)
}

/// The rotated vector: each adjacent pair turned by its pair angle; a
/// trailing unpaired coordinate is left unchanged.
pub open spec fn spec_roped(v: Seq<int>, pos: int, head_dim: int) -> Seq<int> {
    Seq::new(v.len(), |i: int| {
        let base = if i % 2 == 0 { i } else { i - 1 };
        let d = (base % head_dim) / 2;
        let t = spec_rope_t(pos, d);
        let c = spec_rope_cos(t);
        let s = spec_rope_sin(t);
        if i % 2 == 0 && i + 1 < v.len() {
            spec_add_fx(spec_mul_fx(v[i], c), -spec_mul_fx(v[i + 1], s))
        } else if i % 2 == 1 {
            spec_add_fx(spec_mul_fx(v[i - 1], s), spec_mul_fx(v[i], c))
        } else {
            v[i]
        }
    })
}

/// Rotation parameters (cosine, sine) of pair d at a position.
fn rope_params(pos: usize, d: usize) -> (r: (i64, i64))
    requires
        pos <= ROPE_POS_MAX,
        d < 65536,
    ensures
        r.0 == spec_rope_cos(spec_rope_t(pos as int, d as int)),
        r.1 == spec_rope_sin(spec_rope_t(pos as int, d as int)),
        -FX_ONE <= r.0 <= FX_ONE,
        0 <= r.1 <= FX_ONE,
{
    let praw: i64 = (pos as i64) * FX_ONE;
    let denom: i64 = ((d as i64) + 1) * ROPE_BASE;
    let raw: i64 = praw / denom;
    let t: i64 = if raw > ROPE_T_MAX {
        ROPE_T_MAX
    } else {
        raw
    };
    assert(0 <= t <= ROPE_T_MAX);
    proof {
        assert(0 <= t as int * t as int <= ROPE_T_MAX * ROPE_T_MAX) by (nonlinear_arith)
            requires 0 <= t as int <= ROPE_T_MAX;
    }
    let t2: i64 = t * t;
    let dd: i64 = FX_ONE * FX_ONE + t2;
    proof {
        assert(-(ROPE_T_MAX * ROPE_T_MAX * FX_ONE) <= (FX_ONE * FX_ONE - t2 as int) * FX_ONE
            <= FX_ONE * FX_ONE * FX_ONE) by (nonlinear_arith)
            requires 0 <= t2 as int <= ROPE_T_MAX * ROPE_T_MAX;
    }
    let num: i64 = (FX_ONE * FX_ONE - t2) * FX_ONE;
    let c: i64 = div_trunc(num, dd);
    proof {
        assert(crate::fixed::spec_abs(num as int) <= dd as int * FX_ONE) by (nonlinear_arith)
            requires
                num as int == (FX_ONE * FX_ONE - t2 as int) * FX_ONE,
                dd as int == FX_ONE * FX_ONE + t2 as int,
                0 <= t2 as int;
        assert(crate::fixed::spec_abs(num as int) / (dd as int) <= FX_ONE) by (nonlinear_arith)
            requires
                crate::fixed::spec_abs(num as int) <= dd as int * FX_ONE,
                0 < dd as int;
    }
    proof {
        assert(0 <= 2 * (t as int) * FX_ONE * FX_ONE <= 2 * ROPE_T_MAX * FX_ONE * FX_ONE)
            by (nonlinear_arith)
            requires 0 <= t as int <= ROPE_T_MAX;
    }
    let snum: i64 = 2 * t * FX_ONE * FX_ONE;
    proof {
        assert(2 * (t as int) * FX_ONE <= dd as int) by (nonlinear_arith)
            requires
                dd as int == FX_ONE * FX_ONE + t as int * t as int,
                t2 as int == t as int * t as int,
                0 <= t as int;
        assert(snum as int <= dd as int * FX_ONE) by (nonlinear_arith)
            requires
                snum as int == 2 * (t as int) * FX_ONE * FX_ONE,
                2 * (t as int) * FX_ONE <= dd as int,
                0 <= t as int;
        assert(snum as int / (dd as int) <= FX_ONE) by (nonlinear_arith)
            requires snum as int <= dd as int * FX_ONE, 0 < dd as int;
    }
    let s: i64 = snum / dd;
    (c, s)
}

/// Rotate every adjacent pair of a flattened multi-head vector by its pair
/// angle at the given position.
pub fn apply_rope(v: &Vec<i64>, pos: usize, head_dim: usize) -> (r: Vec<i64>)
    requires
        vec_in_range(v@),
        pos <= ROPE_POS_MAX,
        1 <= head_dim < 65536,
    ensures
        r@.len() == v@.len(),
        vec_in_range(r@),
        view_int(r@) =~= spec_roped(view_int(v@), pos as int, head_dim as int),
{
    let ghost vv = view_int(v@);
    let ghost rv = spec_roped(vv, pos as int, head_dim as int);
    let n = v.len();
    let mut out: Vec<i64> = Vec::new();
    let mut i: usize = 0;
    while i < n
        invariant
            i <= n,
            n == v@.len(),
            vec_in_range(v@),
            pos <= ROPE_POS_MAX,
            1 <= head_dim < 65536,
            vv == view_int(v@),
            rv == spec_roped(vv, pos as int, head_dim as int),
            out@.len() == i,
            i % 2 == 0 || i == n,
            forall|t: int| 0 <= t < i ==> #[trigger] out@[t] as int == rv[t],
            vec_in_range(out@),
        decreases n - i,
    {
        if i + 1 < n {
            let d = (i % head_dim) / 2;
            let (c, s) = rope_params(pos, d);
            let x = v[i];
            let y = v[i + 1];
            let rx = add_fx(mul_fx(x, c), -mul_fx(y, s));
            let ry = add_fx(mul_fx(x, s), mul_fx(y, c));
            out.push(rx);
            out.push(ry);
            i += 2;
        } else {
            out.push(v[i]);
            i += 1;
        }
    }
    out
}

} // verus!
