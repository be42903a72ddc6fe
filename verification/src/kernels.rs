//! Vector kernels of the forward pass: normalization, the sigmoid-gated
//! activation, pointwise vector arithmetic, and the row-wise
//! dequantize-and-dot matrix-vector product over raw tensor bytes.

use vstd::prelude::*;
use crate::errors::BrainError;
use crate::fixed::{FX_ONE, FX_MAX, fx_in_range, spec_abs, spec_mul_fx, spec_add_fx, spec_div_fx, spec_exp_fx, mul_fx, add_fx, div_fx, exp_fx};
use crate::format::QuantKind;
use crate::quant::{spec_dequant_seq, spec_region_ok, dequantize_region, dot_q8};
use crate::sampler::{view_int, vec_in_range};
use crate::attention::{spec_dot, dot_fx};

verus! {

/// Longest vector the kernels accept.
pub const MAX_DIM: usize = 65536;

/// Sum of magnitudes of the first n coordinates.
pub open spec fn spec_sum_abs_upto(v: Seq<int>, n: nat) -> int
    decreases n,
{
    if n == 0 {
        0
    } else {
        spec_sum_abs_upto(v, (n - 1) as nat) + spec_abs(v[n - 1])
    }
}

/// Normalized vector: each coordinate divided by one plus the mean
/// magnitude, a deterministic fixed-point normalization.
pub open spec fn spec_norm(v: Seq<int>) -> Seq<int> {
    let mean = spec_sum_abs_upto(v, v.len()) / (v.len() as int) + 1;
    Seq::new(v.len(), |i: int| spec_div_fx(v[i], mean))
}

/// Normalize a vector by one plus its mean magnitude.
pub fn norm_fx(v: &Vec<i64>) -> (r: Vec<i64>)
    requires
        1 <= v@.len() <= MAX_DIM,
        vec_in_range(v@),
    ensures
        r@.len() == v@.len(),
        vec_in_range(r@),
        view_int(r@) =~= spec_norm(view_int(v@)),
{
    let ghost vv = view_int(v@);
    let n = v.len();
    let mut sum: i64 = 0;
    let mut i: usize = 0;
    while i < n
        invariant
            i <= n,
            n == v@.len(),
            1 <= n <= MAX_DIM,
            vec_in_range(v@),
            vv == view_int(v@),
            sum as int == spec_sum_abs_upto(vv, i as nat),
            0 <= sum <= i * FX_MAX,
        decreases n - i,
    {
        proof {
            assert((i + 1) * FX_MAX == i * FX_MAX + FX_MAX) by (nonlinear_arith);
        }
        let x = v[i];
        let a: i64 = if x < 0 { -x } else { x };
        sum = sum + a;
        i += 1;
    }
    proof {
        assert((n as int) * FX_MAX <= (MAX_DIM as int) * FX_MAX) by (nonlinear_arith)
            requires n as int <= MAX_DIM as int;
    }
    let mean: i64 = sum / (n as i64) + 1;
    let mut out: Vec<i64> = Vec::new();
    let mut j: usize = 0;
    while j < n
        invariant
            j <= n,
            n == v@.len(),
            vec_in_range(v@),
            vv == view_int(v@),
            mean as int == spec_sum_abs_upto(vv, n as nat) / (n as int) + 1,
            0 < mean,
            out@.len() == j,
            forall|t: int| 0 <= t < j ==> #[trigger] out@[t] as int == spec_norm(vv)[t],
            vec_in_range(out@),
        decreases n - j,
    {
        out.push(div_fx(v[j], mean));
        j += 1;
    }
    out
}

/// The logistic gate in fixed point, from the shared exponential
/// approximation; symmetric around one half.
pub open spec fn spec_sigmoid(x: int) -> int {
    if x >= 0 {
        (FX_ONE * FX_ONE) / (FX_ONE + spec_exp_fx(-x))
    } else {
        FX_ONE - (FX_ONE * FX_ONE) / (FX_ONE + spec_exp_fx(x))
    }
}

/// Logistic gate of one fixed-point value.
pub fn sigmoid_fx(x: i64) -> (r: i64)
    requires
        fx_in_range(x as int),
    ensures
        r == spec_sigmoid(x as int),
        0 <= r <= FX_ONE,
{
    if x >= 0 {
        let e = exp_fx(-x);
        let r = (FX_ONE * FX_ONE) / (FX_ONE + e);
        proof {
            assert((FX_ONE as int * FX_ONE) / (FX_ONE as int + e as int) <= FX_ONE)
                by (nonlinear_arith)
                requires 0 < e as int <= FX_ONE;
            assert((FX_ONE as int * FX_ONE) / (FX_ONE as int + e as int) >= 0)
                by (nonlinear_arith)
                requires 0 < e as int <= FX_ONE;
        }
        r
    } else {
        let e = exp_fx(x);
        let r = FX_ONE - (FX_ONE * FX_ONE) / (FX_ONE + e);
        proof {
            assert((FX_ONE as int * FX_ONE) / (FX_ONE as int + e as int) <= FX_ONE)
                by (nonlinear_arith)
                requires 0 < e as int <= FX_ONE;
            assert((FX_ONE as int * FX_ONE) / (FX_ONE as int + e as int) >= 0)
                by (nonlinear_arith)
                requires 0 < e as int <= FX_ONE;
        }
        r
    }
}

/// Sigmoid-gated activation of one value: the value times its gate.
pub open spec fn spec_gated(x: int) -> int {
    spec_mul_fx(x, spec_sigmoid(x))
}

/// Pointwise saturating sum of two vectors.
pub open spec fn spec_add_vec(a: Seq<int>, b: Seq<int>) -> Seq<int> {
    Seq::new(a.len(), |i: int| spec_add_fx(a[i], b[i]))
}

/// Add two equally long vectors, saturating each coordinate.
pub fn add_vec(a: &Vec<i64>, b: &Vec<i64>) -> (r: Vec<i64>)
    requires
        a@.len() == b@.len(),
        vec_in_range(a@),
        vec_in_range(b@),
    ensures
        r@.len() == a@.len(),
        vec_in_range(r@),
        view_int(r@) =~= spec_add_vec(view_int(a@), view_int(b@)),
{
    let mut out: Vec<i64> = Vec::new();
    let mut i: usize = 0;
    while i < a.len()
        invariant
            i <= a@.len(),
            a@.len() == b@.len(),
            vec_in_range(a@),
            vec_in_range(b@),
            out@.len() == i,
            forall|t: int| 0 <= t < i ==> #[trigger] out@[t] as int
                == spec_add_vec(view_int(a@), view_int(b@))[t],
            vec_in_range(out@),
        decreases a@.len() - i,
    {
        out.push(add_fx(a[i], b[i]));
        i += 1;
    }
    out
}

/// Gated feed-forward combine: each gate coordinate activated and
/// multiplied with its projection partner.
pub open spec fn spec_gate_vec(g: Seq<int>, u: Seq<int>) -> Seq<int> {
    Seq::new(g.len(), |i: int| spec_mul_fx(spec_gated(g[i]), u[i]))
}

/// Apply the sigmoid-weighted activation to the first projection and
/// multiply it pointwise with the second.
pub fn gate_vec(g: &Vec<i64>, u: &Vec<i64>) -> (r: Vec<i64>)
    requires
        g@.len() == u@.len(),
        vec_in_range(g@),
        vec_in_range(u@),
    ensures
        r@.len() == g@.len(),
        vec_in_range(r@),
        view_int(r@) =~= spec_gate_vec(view_int(g@), view_int(u@)),
{
    let mut out: Vec<i64> = Vec::new();
    let mut i: usize = 0;
    while i < g.len()
        invariant
            i <= g@.len(),
            g@.len() == u@.len(),
            vec_in_range(g@),
            vec_in_range(u@),
            out@.len() == i,
            forall|t: int| 0 <= t < i ==> #[trigger] out@[t] as int
                == spec_gate_vec(view_int(g@), view_int(u@))[t],
            vec_in_range(out@),
        decreases g@.len() - i,
    {
        let s = sigmoid_fx(g[i]);
        out.push(mul_fx(mul_fx(g[i], s), u[i]));
        i += 1;
    }
    out
}

/// Bytes of one row of a tensor region.
pub open spec fn spec_row_bytes(kind: QuantKind, n_cols: int) -> int {
    match kind {
        QuantKind::Fx64 => 8 * n_cols,
        QuantKind::Q8 => (n_cols / 32) * 36,
    }
}

/// The matrix-vector product of a stored row-major matrix with x: each
/// coordinate is the dot product of the dequantized row with x.
pub open spec fn spec_matvec(b: Seq<u8>, kind: QuantKind, base: int, n_rows: int, n_cols: int, x: Seq<int>) -> Seq<int> {
    Seq::new(n_rows as nat, |r: int| spec_dot(
        spec_dequant_seq(b, kind, base + r * spec_row_bytes(kind, n_cols), n_cols), x))
}

/// All rows of a stored matrix decode cleanly.
pub open spec fn spec_mat_ok(b: Seq<u8>, kind: QuantKind, base: int, n_rows: int, n_cols: int) -> bool {
    forall|row: int| 0 <= row < n_rows
        ==> spec_region_ok(b, kind, base + #[trigger] (row * spec_row_bytes(kind, n_cols)), n_cols)
}

/// Row-wise fused dequantize-and-dot matrix-vector product straight off
/// the stored bytes, one row at a time, never materializing the whole
/// dequantized matrix. Succeeds exactly when every row decodes cleanly;
/// a malformed row is a format error.
pub fn matvec(b: &Vec<u8>, kind: QuantKind, base: usize, n_rows: usize, n_cols: usize, x: &Vec<i64>) -> (r: Result<Vec<i64>, BrainError>)
    requires
        base < 0x4000_0000,
        0 < n_rows <= MAX_DIM,
        0 < n_cols <= MAX_DIM,
        kind is Q8 ==> n_cols % 32 == 0,
        base + n_rows * spec_row_bytes(kind, n_cols as int) <= b@.len(),
        b@.len() <= 0x4000_0000,
        x@.len() == n_cols,
        vec_in_range(x@),
    ensures
        r matches Ok(v) ==> (v@.len() == n_rows && vec_in_range(v@)
            && view_int(v@) =~= spec_matvec(b@, kind, base as int, n_rows as int, n_cols as int, view_int(x@))),
        r is Ok <==> spec_mat_ok(b@, kind, base as int, n_rows as int, n_cols as int),
        r is Err ==> r === Err::<Vec<i64>, BrainError>(BrainError::Format),
{
    let row_bytes: usize = match kind {
        QuantKind::Fx64 => 8 * n_cols,
        QuantKind::Q8 => (n_cols / 32) * 36,
    };
    proof {
        assert(row_bytes as int == spec_row_bytes(kind, n_cols as int));
    }
    let mut out: Vec<i64> = Vec::new();
    let mut r0: usize = 0;
    while r0 < n_rows
        invariant
            r0 <= n_rows,
            0 < n_rows <= MAX_DIM,
            0 < n_cols <= MAX_DIM,
            kind is Q8 ==> n_cols % 32 == 0,
            base < 0x4000_0000,
            b@.len() <= 0x4000_0000,
            row_bytes as int == spec_row_bytes(kind, n_cols as int),
            base + n_rows * (row_bytes as int) <= b@.len(),
            x@.len() == n_cols,
            vec_in_range(x@),
            out@.len() == r0,
            forall|t: int| 0 <= t < r0 ==> #[trigger] out@[t] as int
                == spec_matvec(b@, kind, base as int, n_rows as int, n_cols as int, view_int(x@))[t],
            forall|t: int| 0 <= t < r0 ==> spec_region_ok(
                b@, kind, base + #[trigger] (t * spec_row_bytes(kind, n_cols as int)), n_cols as int),
            vec_in_range(out@),
        decreases n_rows - r0,
    {
        proof {
            assert((r0 as int + 1) * (row_bytes as int) <= n_rows as int * (row_bytes as int))
                by (nonlinear_arith)
                requires r0 as int + 1 <= n_rows as int, 0 <= row_bytes as int;
            assert((r0 as int + 1) * (row_bytes as int)
                == r0 as int * (row_bytes as int) + row_bytes as int) by (nonlinear_arith);
            assert(0 <= r0 as int * (row_bytes as int)) by (nonlinear_arith)
                requires 0 <= r0 as int, 0 <= row_bytes as int;
        }
        let row_base = base + r0 * row_bytes;
        let d: i64 = match kind {
            QuantKind::Q8 => {
                match dot_q8(b, row_base, n_cols, x) {
                    Ok(v) => v,
                    Err(e) => {
                        proof {
                            assert(!spec_region_ok(
                                b@, kind, base + (r0 as int) * spec_row_bytes(kind, n_cols as int),
                                n_cols as int));
                        }
                        return Err(e);
                    },
                }
            },
            QuantKind::Fx64 => {
                let row = match dequantize_region(b, kind, row_base, n_cols) {
                    Ok(v) => v,
                    Err(e) => {
                        proof {
                            assert(!spec_region_ok(
                                b@, kind, base + (r0 as int) * spec_row_bytes(kind, n_cols as int),
                                n_cols as int));
                        }
                        return Err(e);
                    },
                };
                dot_fx(&row, x)
            },
        };
        proof {
            assert(spec_region_ok(
                b@, kind, base + (r0 as int) * spec_row_bytes(kind, n_cols as int), n_cols as int));
        }
        out.push(d);
        r0 += 1;
    }
    Ok(out)
}

} // verus!
