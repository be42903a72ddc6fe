//! Quantization kernels: block-quantized and full-precision tensor decoding,
//! plus the fused dequantize-and-dot kernel.
//!
//! A block groups 32 signed one-byte values behind one positive fixed-point
//! scale; dequantization is the exact product of value and scale. A failed
//! decode (non-positive or oversized scale, out-of-range full-precision
//! value) propagates as a format error and never substitutes zeros.

use vstd::prelude::*;
use crate::errors::BrainError;
use crate::fixed::{FX_MAX, fx_in_range, spec_abs, spec_clamp_fx, spec_div_trunc, clamp_fx, div_trunc, mul_fx, add_fx};
use crate::format::{QuantKind, spec_le32, spec_le64, read_u32, read_u64};
use crate::sampler::{view_int, vec_in_range};
use crate::attention::{spec_dot_upto, spec_dot};

verus! {

/// Values per quantization block.
pub const BLOCK: usize = 32;

/// Bytes per encoded block: a four-byte scale then 32 one-byte values.
pub const BLOCK_BYTES: usize = 36;

/// A byte reinterpreted as a signed one-byte value.
pub open spec fn spec_signed8(x: int) -> int {
    if x < 128 {
        x
    } else {
        x - 256
    }
}

/// A 32-bit value reinterpreted as signed.
pub open spec fn spec_signed32(x: int) -> int {
    if x < 0x8000_0000 {
        x
    } else {
        x - 0x1_0000_0000
    }
}

/// A 64-bit value reinterpreted as signed.
pub open spec fn spec_signed64(x: int) -> int {
    if x < 0x8000_0000_0000_0000 {
        x
    } else {
        x - 0x1_0000_0000_0000_0000
    }
}

/// Quantize one fixed-point value to a signed one-byte step count:
/// truncating division by the scale, clipped to the one-byte range.
pub open spec fn spec_quantize(v: int, scale: int) -> int {
    let q = spec_div_trunc(v, scale);
    if q > 127 {
        127
    } else if q < -127 {
        -127
    } else {
        q
    }
}

/// Dequantize one step count: the exact product with the scale, clamped
/// into the representable range.
pub open spec fn spec_dequantize(q: int, scale: int) -> int {
    spec_clamp_fx(q * scale)
}

/// Quantize a fixed-point value against a positive scale.
pub fn quantize(v: i64, scale: i64) -> (r: i64)
    requires
        0 < scale <= FX_MAX,
        fx_in_range(v as int),
    ensures
        r == spec_quantize(v as int, scale as int),
        -127 <= r <= 127,
{
    let q = div_trunc(v, scale);
    if q > 127 {
        127
    } else if q < -127 {
        -127
    } else {
        q
    }
}

/// Dequantize a step count against a positive scale.
pub fn dequantize(q: i64, scale: i64) -> (r: i64)
    requires
        -127 <= q <= 127,
        0 < scale <= FX_MAX,
    ensures
        r == spec_dequantize(q as int, scale as int),
        fx_in_range(r as int),
{
    proof {
        assert(-127 * FX_MAX <= q as int * scale as int <= 127 * FX_MAX) by (nonlinear_arith)
            requires -127 <= q as int <= 127, 0 < scale as int <= FX_MAX;
    }
    clamp_fx(q * scale)
}

/// The round-trip error law: when a value lies within the representable
/// span of its block (at most 127 steps of a scale small enough that the
/// span is representable), dequantizing its quantization lands within one
/// quantization step of the original value.
pub proof fn lemma_dequantize_error(v: int, scale: int)
    requires
        0 < scale,
        127 * scale <= FX_MAX,
        spec_abs(v) <= 127 * scale,
    ensures
        spec_abs(spec_dequantize(spec_quantize(v, scale), scale) - v) < scale,
{
    let a = spec_abs(v);
    let qa = a / scale;
    vstd::arithmetic::div_mod::lemma_fundamental_div_mod(a, scale);
    assert(a == scale * qa + a % scale);
    vstd::arithmetic::div_mod::lemma_mod_bound(a, scale);
    assert(0 <= a % scale < scale);
    assert(qa <= 127) by (nonlinear_arith)
        requires
            0 < scale,
            a <= 127 * scale,
            a == scale * qa + a % scale,
            0 <= a % scale;
    assert(qa >= 0) by (nonlinear_arith)
        requires
            0 < scale,
            0 <= a,
            a == scale * qa + a % scale,
            a % scale < scale;
    assert(qa * scale == scale * qa) by (nonlinear_arith);
    assert(0 <= qa * scale <= a);
    assert(a - qa * scale < scale);
    assert(qa * scale <= 127 * scale) by (nonlinear_arith)
        requires qa <= 127, 0 < scale;
    if v >= 0 {
        assert(spec_quantize(v, scale) == qa);
        assert(spec_dequantize(qa, scale) == qa * scale);
    } else {
        assert(spec_quantize(v, scale) == -qa);
        assert((-qa) * scale == -(qa * scale)) by (nonlinear_arith);
        assert(spec_dequantize(-qa, scale) == -(qa * scale));
    }
}

/// The block scale stored at a block's base: its first four bytes, signed.
pub open spec fn spec_q8_scale(b: Seq<u8>, base: int) -> int {
    spec_signed32(spec_le32(b, base))
}

/// Element i of a block-quantized region starting at base.
pub open spec fn spec_q8_elem(b: Seq<u8>, base: int, i: int) -> int {
    let block = base + (i / 32) * 36;
    spec_clamp_fx(spec_signed8(b[block + 4 + (i % 32)] as int) * spec_q8_scale(b, block))
}

/// Element i of a full-precision fixed-point region starting at base.
pub open spec fn spec_fx64_elem(b: Seq<u8>, base: int, i: int) -> int {
    spec_signed64(spec_le64(b, base + 8 * i))
}

/// The dequantized elements of a tensor region, as a sequence.
pub open spec fn spec_dequant_seq(b: Seq<u8>, kind: QuantKind, base: int, n: int) -> Seq<int> {
    match kind {
        QuantKind::Fx64 => Seq::new(n as nat, |i: int| spec_fx64_elem(b, base, i)),
        QuantKind::Q8 => Seq::new(n as nat, |i: int| spec_q8_elem(b, base, i)),
    }
}

/// Every block of a quantized region carries a positive, in-range scale.
pub open spec fn spec_q8_region_ok(b: Seq<u8>, base: int, n: int) -> bool {
    forall|k: int| 0 <= k && 32 * k < n
        ==> 0 < #[trigger] spec_q8_scale(b, base + k * 36) <= FX_MAX
}

/// Every element of a full-precision region is in the representable range.
pub open spec fn spec_fx64_region_ok(b: Seq<u8>, base: int, n: int) -> bool {
    forall|i: int| 0 <= i < n
        ==> -FX_MAX <= #[trigger] spec_fx64_elem(b, base, i) <= FX_MAX
}

/// A region decodes cleanly under its kind.
pub open spec fn spec_region_ok(b: Seq<u8>, kind: QuantKind, base: int, n: int) -> bool {
    match kind {
        QuantKind::Fx64 => spec_fx64_region_ok(b, base, n),
        QuantKind::Q8 => spec_q8_region_ok(b, base, n),
    }
}

/// Read and validate the scale of the block at base.
fn read_scale(b: &Vec<u8>, block: usize) -> (r: Result<i64, BrainError>)
    requires
        block + 4 <= b@.len(),
    ensures
        r matches Ok(s) ==> (s as int == spec_q8_scale(b@, block as int) && 0 < s <= FX_MAX),
        r is Ok <==> 0 < spec_q8_scale(b@, block as int) <= FX_MAX,
        r is Err ==> r === Err::<i64, BrainError>(BrainError::Format),
{
    let raw = match read_u32(b, block) {
        Some(v) => v,
        None => {
            return Err(BrainError::Format);
        },
    };
    let sv: i64 = if raw >= 0x8000_0000u32 {
        raw as i64 - 0x1_0000_0000i64
    } else {
        raw as i64
    };
    if sv <= 0 || sv > FX_MAX {
        return Err(BrainError::Format);
    }
    Ok(sv)
}

/// One dequantized element of a block-quantized region.
fn q8_elem_at(b: &Vec<u8>, base: usize, i: usize) -> (r: Result<i64, BrainError>)
    requires
        base + (i / 32 + 1) * 36 <= b@.len(),
        i < 0x1000_0000,
        base < 0x4000_0000,
    ensures
        r matches Ok(v) ==> (v as int == spec_q8_elem(b@, base as int, i as int)
            && fx_in_range(v as int)),
        r is Ok <==> 0 < spec_q8_scale(b@, base as int + (i as int / 32) * 36) <= FX_MAX,
        r is Err ==> r === Err::<i64, BrainError>(BrainError::Format),
{
    let block = base + (i / 32) * 36;
    proof {
        assert((i as int / 32 + 1) * 36 == (i as int / 32) * 36 + 36) by (nonlinear_arith);
    }
    let scale = match read_scale(b, block) {
        Ok(s) => s,
        Err(e) => {
            return Err(e);
        },
    };
    let raw = b[block + 4 + (i % 32)];
    let q: i64 = if raw >= 128 {
        raw as i64 - 256
    } else {
        raw as i64
    };
    proof {
        assert(-128 * FX_MAX <= q as int * scale as int <= 128 * FX_MAX) by (nonlinear_arith)
            requires -128 <= q as int <= 127, 0 < scale as int <= FX_MAX;
    }
    Ok(clamp_fx(q * scale))
}

/// Decode a whole tensor region to fixed-point values. Every element is
/// pinned to its bytes; the decode succeeds exactly when every element of
/// the region is well formed, so a malformed element is a format error
/// and is never silently substituted.
pub fn dequantize_region(b: &Vec<u8>, kind: QuantKind, base: usize, n: usize) -> (r: Result<Vec<i64>, BrainError>)
    requires
        base < 0x4000_0000,
        n < 0x1000_0000,
        kind is Q8 ==> n % 32 == 0 && base + (n / 32) * 36 <= b@.len(),
        kind is Fx64 ==> base + 8 * n <= b@.len(),
    ensures
        r matches Ok(v) ==> (v@.len() == n && vec_in_range(v@)
            && view_int(v@) =~= spec_dequant_seq(b@, kind, base as int, n as int)),
        r is Ok <==> spec_region_ok(b@, kind, base as int, n as int),
        r is Err ==> r === Err::<Vec<i64>, BrainError>(BrainError::Format),
{
    let mut out: Vec<i64> = Vec::new();
    let mut i: usize = 0;
    match kind {
        QuantKind::Q8 => {
            while i < n
                invariant
                    i <= n,
                    kind is Q8,
                    n % 32 == 0,
                    n < 0x1000_0000,
                    base < 0x4000_0000,
                    base + (n as int / 32) * 36 <= b@.len(),
                    out@.len() == i,
                    forall|t: int| 0 <= t < i ==> #[trigger] out@[t] as int
                        == spec_q8_elem(b@, base as int, t),
                    forall|k: int| 0 <= k && 32 * k < i
                        ==> 0 < #[trigger] spec_q8_scale(b@, base as int + k * 36) <= FX_MAX,
                    vec_in_range(out@),
                decreases n - i,
            {
                proof {
                    assert((i as int / 32 + 1) * 36 <= (n as int / 32) * 36) by (nonlinear_arith)
                        requires (i as int) < n as int, n as int % 32 == 0;
                }
                let v = match q8_elem_at(b, base, i) {
                    Ok(v) => v,
                    Err(e) => {
                        proof {
                            let bad = i as int / 32;
                            vstd::arithmetic::div_mod::lemma_fundamental_div_mod(i as int, 32);
                            vstd::arithmetic::div_mod::lemma_mod_bound(i as int, 32);
                            assert(32 * bad <= i as int);
                            assert(0 <= bad);
                            assert(32 * bad < n as int);
                            assert(!(0 < spec_q8_scale(b@, base as int + bad * 36) <= FX_MAX));
                            assert(!spec_q8_region_ok(b@, base as int, n as int));
                            assert(!spec_region_ok(b@, kind, base as int, n as int));
                        }
                        return Err(e);
                    },
                };
                proof {
                    assert forall|k: int| 0 <= k && 32 * k < i + 1 implies
                        0 < #[trigger] spec_q8_scale(b@, base as int + k * 36) <= FX_MAX by {
                        if 32 * k >= i as int {
                            assert(32 * k == i as int);
                            vstd::arithmetic::div_mod::lemma_fundamental_div_mod(i as int, 32);
                            vstd::arithmetic::div_mod::lemma_mod_bound(i as int, 32);
                            assert(k == i as int / 32) by (nonlinear_arith)
                                requires
                                    32 * k == i as int,
                                    i as int == 32 * (i as int / 32) + i as int % 32,
                                    0 <= i as int % 32 < 32;
                        }
                    }
                }
                out.push(v);
                i += 1;
            }
            proof {
                assert forall|k: int| 0 <= k && 32 * k < n implies
                    0 < #[trigger] spec_q8_scale(b@, base as int + k * 36) <= FX_MAX by {}
            }
        },
        QuantKind::Fx64 => {
            while i < n
                invariant
                    i <= n,
                    kind is Fx64,
                    n < 0x1000_0000,
                    base < 0x4000_0000,
                    base + 8 * n <= b@.len(),
                    out@.len() == i,
                    forall|t: int| 0 <= t < i ==> #[trigger] out@[t] as int
                        == spec_fx64_elem(b@, base as int, t),
                    forall|t: int| 0 <= t < i
                        ==> -FX_MAX <= #[trigger] spec_fx64_elem(b@, base as int, t) <= FX_MAX,
                    vec_in_range(out@),
                decreases n - i,
            {
                proof {
                    assert(8 * (i as int) + 8 <= 8 * (n as int)) by (nonlinear_arith)
                        requires (i as int) < n as int;
                }
                let raw = match read_u64(b, base + 8 * i) {
                    Some(v) => v,
                    None => {
                        proof {
                            assert(false);
                        }
                        return Err(BrainError::Format);
                    },
                };
                let sv: i64 = if raw >= 0x8000_0000_0000_0000u64 {
                    -((0xffff_ffff_ffff_ffffu64 - raw) as i64) - 1
                } else {
                    raw as i64
                };
                proof {
                    assert(sv as int == spec_signed64(raw as int));
                }
                if sv > FX_MAX || sv < -FX_MAX {
                    proof {
                        assert(!(-FX_MAX <= spec_fx64_elem(b@, base as int, i as int) <= FX_MAX));
                        assert(!spec_fx64_region_ok(b@, base as int, n as int));
                        assert(!spec_region_ok(b@, kind, base as int, n as int));
                    }
                    return Err(BrainError::Format);
                }
                proof {
                    assert(-FX_MAX <= spec_fx64_elem(b@, base as int, i as int) <= FX_MAX);
                }
                out.push(sv);
                i += 1;
            }
        },
    }
    Ok(out)
}

/// Fused dequantize-and-dot kernel over a block-quantized region: the dot
/// product of the dequantized elements with x, computed element by element
/// without materializing the dequantized vector. Provably equal to
/// dequantize-then-multiply.
pub fn dot_q8(b: &Vec<u8>, base: usize, n: usize, x: &Vec<i64>) -> (r: Result<i64, BrainError>)
    requires
        base < 0x4000_0000,
        n < 0x1000_0000,
        n % 32 == 0,
        base + (n as int / 32) * 36 <= b@.len(),
        x@.len() == n,
        vec_in_range(x@),
    ensures
        r matches Ok(v) ==> (v as int
            == spec_dot(spec_dequant_seq(b@, QuantKind::Q8, base as int, n as int), view_int(x@))
            && fx_in_range(v as int)),
        r is Ok <==> spec_q8_region_ok(b@, base as int, n as int),
        r is Err ==> r === Err::<i64, BrainError>(BrainError::Format),
{
    let ghost dq = spec_dequant_seq(b@, QuantKind::Q8, base as int, n as int);
    let mut acc: i64 = 0;
    let mut i: usize = 0;
    while i < n
        invariant
            i <= n,
            n % 32 == 0,
            n < 0x1000_0000,
            base < 0x4000_0000,
            base + (n as int / 32) * 36 <= b@.len(),
            x@.len() == n,
            vec_in_range(x@),
            dq == spec_dequant_seq(b@, QuantKind::Q8, base as int, n as int),
            acc as int == spec_dot_upto(dq, view_int(x@), i as nat),
            forall|k: int| 0 <= k && 32 * k < i
                ==> 0 < #[trigger] spec_q8_scale(b@, base as int + k * 36) <= FX_MAX,
            fx_in_range(acc as int),
        decreases n - i,
    {
        proof {
            assert((i as int / 32 + 1) * 36 <= (n as int / 32) * 36) by (nonlinear_arith)
                requires (i as int) < n as int, n as int % 32 == 0;
        }
        let v = match q8_elem_at(b, base, i) {
            Ok(v) => v,
            Err(e) => {
                proof {
                    let bad = i as int / 32;
                    vstd::arithmetic::div_mod::lemma_fundamental_div_mod(i as int, 32);
                    vstd::arithmetic::div_mod::lemma_mod_bound(i as int, 32);
                    assert(32 * bad <= i as int);
                    assert(0 <= bad);
                    assert(32 * bad < n as int);
                    assert(!(0 < spec_q8_scale(b@, base as int + bad * 36) <= FX_MAX));
                    assert(!spec_q8_region_ok(b@, base as int, n as int));
                    assert(!spec_region_ok(b@, QuantKind::Q8, base as int, n as int));
                }
                return Err(e);
            },
        };
        proof {
            assert forall|k: int| 0 <= k && 32 * k < i + 1 implies
                0 < #[trigger] spec_q8_scale(b@, base as int + k * 36) <= FX_MAX by {
                if 32 * k >= i as int {
                    assert(32 * k == i as int);
                    vstd::arithmetic::div_mod::lemma_fundamental_div_mod(i as int, 32);
                    vstd::arithmetic::div_mod::lemma_mod_bound(i as int, 32);
                    assert(k == i as int / 32) by (nonlinear_arith)
                        requires
                            32 * k == i as int,
                            i as int == 32 * (i as int / 32) + i as int % 32,
                            0 <= i as int % 32 < 32;
                }
            }
        }
        proof {
            assert(dq[i as int] == v as int);
            assert(view_int(x@)[i as int] == x@[i as int] as int);
        }
        acc = add_fx(acc, mul_fx(v, x[i]));
        i += 1;
    }
    proof {
        assert(dq.len() == n as int);
    }
    Ok(acc)
}

} // verus!
