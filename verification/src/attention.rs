//! Causal self-attention over the cached key/value history.
//!
//! The query at position p is scored against every cached key at positions
//! up to p (the cache holds nothing beyond p, so the causal mask is the
//! cache boundary itself), the scores are softmax-weighted with the scaled
//! exponential, and the output is the weighted average of the cached
//! values. All arithmetic is deterministic fixed point, so attention served
//! incrementally from the cache is bit-identical to attention recomputed
//! from scratch over the same positions.

use vstd::prelude::*;
use crate::fixed::{FX_ONE, FX_MAX, fx_in_range, spec_abs, spec_clamp_fx, spec_mul_fx, spec_add_fx, spec_exp_fx, spec_div_trunc, clamp_fx, mul_fx, add_fx, exp_fx, div_trunc};
use crate::sampler::{view_int, vec_in_range, spec_argmax, spec_sum, argmax_fx, lemma_sum_snoc, lemma_sum_element};
verus! {

/// Most cached positions one attention step will read; keeps every
/// accumulator provably inside `i64`.
pub const MAX_POSITIONS: usize = 32768;

/// Saturating fixed-point dot product of the first n coordinates.
pub open spec fn spec_dot_upto(a: Seq<int>, b: Seq<int>, n: nat) -> int
    decreases n,
{
    if n == 0 {
        0
    } else {
        spec_add_fx(spec_dot_upto(a, b, (n - 1) as nat), spec_mul_fx(a[n - 1], b[n - 1]))
    }
}

/// Saturating fixed-point dot product.
pub open spec fn spec_dot(a: Seq<int>, b: Seq<int>) -> int {
    spec_dot_upto(a, b, a.len())
}

/// Fixed-point dot product of two equally long vectors.
pub fn dot_fx(a: &Vec<i64>, b: &Vec<i64>) -> (r: i64)
    requires
        a@.len() == b@.len(),
        vec_in_range(a@),
        vec_in_range(b@),
    ensures
        r as int == spec_dot(view_int(a@), view_int(b@)),
        fx_in_range(r as int),
{
    let ghost av = view_int(a@);
    let ghost bv = view_int(b@);
    let mut acc: i64 = 0;
    let mut i: usize = 0;
    while i < a.len()
        invariant
            i <= a@.len(),
            a@.len() == b@.len(),
            vec_in_range(a@),
            vec_in_range(b@),
            av == view_int(a@),
            bv == view_int(b@),
            acc as int == spec_dot_upto(av, bv, i as nat),
            fx_in_range(acc as int),
        decreases a@.len() - i,
    {
        let p = mul_fx(a[i], b[i]);
        acc = add_fx(acc, p);
        i += 1;
    }
    acc
}

/// Spec-level matrix view of a list of cached vectors.
pub open spec fn mat_view(m: Seq<Vec<i64>>) -> Seq<Seq<int>> {
    Seq::new(m.len(), |j: int| view_int(m[j]@))
}

/// Scaled attention scores of a query against each cached key.
pub open spec fn spec_scores(q: Seq<int>, keys: Seq<Seq<int>>, scale: int) -> Seq<int> {
    Seq::new(keys.len(), |j: int| spec_mul_fx(spec_dot_upto(q, keys[j], q.len()), scale))
}

/// Softmax weights: the exponential of each score's distance to the
/// maximum score.
pub open spec fn spec_attn_weights(sc: Seq<int>) -> Seq<int> {
    Seq::new(sc.len(), |j: int| spec_exp_fx(sc[j] - sc[spec_argmax(sc)]))
}

/// Raw weighted accumulation of one output coordinate over the first n
/// cached values.
pub open spec fn spec_wv_upto(w: Seq<int>, vals: Seq<Seq<int>>, d: int, n: nat) -> int
    decreases n,
{
    if n == 0 {
        0
    } else {
        spec_wv_upto(w, vals, d, (n - 1) as nat) + w[n - 1] * vals[n - 1][d]
    }
}

/// The attention output: the softmax-weighted average of the cached value
/// vectors, coordinate by coordinate.
pub open spec fn spec_attend(q: Seq<int>, keys: Seq<Seq<int>>, vals: Seq<Seq<int>>, scale: int, dim: int) -> Seq<int> {
    let sc = spec_scores(q, keys, scale);
    let w = spec_attn_weights(sc);
    let total = spec_sum(w);
    Seq::new(dim as nat, |d: int| spec_clamp_fx(spec_div_trunc(spec_wv_upto(w, vals, d, keys.len()), total)))
}

/// One causal attention step: score the query against every cached key,
/// softmax, and average the cached values. The keys and values are the
/// per-position history handed out of the cache; the result is pinned to
/// `spec_attend` over exactly those entries, and the cached keys are read
/// verbatim, never re-rotated.
pub fn attend(q: &Vec<i64>, keys: &Vec<Vec<i64>>, vals: &Vec<Vec<i64>>, scale: i64, vdim: usize) -> (r: Vec<i64>)
    requires
        keys@.len() == vals@.len(),
        1 <= keys@.len() <= MAX_POSITIONS,
        forall|j: int| 0 <= j < keys@.len() ==> (#[trigger] keys@[j])@.len() == q@.len(),
        forall|j: int| 0 <= j < keys@.len() ==> vec_in_range((#[trigger] keys@[j])@),
        forall|j: int| 0 <= j < vals@.len() ==> (#[trigger] vals@[j])@.len() == vdim,
        forall|j: int| 0 <= j < vals@.len() ==> vec_in_range((#[trigger] vals@[j])@),
        vec_in_range(q@),
        fx_in_range(scale as int),
    ensures
        r@.len() == vdim,
        vec_in_range(r@),
        view_int(r@) =~= spec_attend(
            view_int(q@), mat_view(keys@), mat_view(vals@), scale as int, vdim as int),
{
    let ghost qv = view_int(q@);
    let ghost km = mat_view(keys@);
    let ghost vm = mat_view(vals@);
    let n = keys.len();

    // Scores against each cached key.
    let mut scores: Vec<i64> = Vec::new();
    let mut j: usize = 0;
    while j < n
        invariant
            j <= n,
            n == keys@.len(),
            forall|t: int| 0 <= t < keys@.len() ==> (#[trigger] keys@[t])@.len() == q@.len(),
            forall|t: int| 0 <= t < keys@.len() ==> vec_in_range((#[trigger] keys@[t])@),
            vec_in_range(q@),
            fx_in_range(scale as int),
            qv == view_int(q@),
            km == mat_view(keys@),
            scores@.len() == j,
            forall|t: int| 0 <= t < j ==> #[trigger] scores@[t] as int == spec_scores(qv, km, scale as int)[t],
            vec_in_range(scores@),
        decreases n - j,
    {
        let d = dot_fx(q, &keys[j]);
        proof {
            assert(km[j as int] == view_int(keys@[j as int]@));
        }
        scores.push(mul_fx(d, scale));
        j += 1;
    }
    let ghost sc = spec_scores(qv, km, scale as int);
    proof {
        assert(view_int(scores@) =~= sc);
    }

    // Softmax weights.
    let m = argmax_fx(&scores);
    let mut weights: Vec<i64> = Vec::new();
    let mut j2: usize = 0;
    while j2 < n
        invariant
            j2 <= n,
            n == scores@.len(),
            m < n,
            m as int == spec_argmax(sc),
            sc == view_int(scores@),
            vec_in_range(scores@),
            weights@.len() == j2,
            forall|t: int| 0 <= t < j2 ==> #[trigger] weights@[t] as int == spec_attn_weights(sc)[t],
            forall|t: int| 0 <= t < j2 ==> 0 < #[trigger] weights@[t] <= FX_ONE,
        decreases n - j2,
    {
        proof {
            assert(sc[j2 as int] == scores@[j2 as int] as int);
            assert(sc[m as int] == scores@[m as int] as int);
        }
        weights.push(exp_fx(scores[j2] - scores[m]));
        j2 += 1;
    }
    let ghost w = spec_attn_weights(sc);
    proof {
        assert(view_int(weights@) =~= w);
    }

    // Total weight; positive because every weight is.
    let mut total: i64 = 0;
    let mut j3: usize = 0;
    while j3 < n
        invariant
            j3 <= n,
            n == weights@.len(),
            n <= MAX_POSITIONS,
            forall|t: int| 0 <= t < n ==> 0 < #[trigger] weights@[t] <= FX_ONE,
            total as int == spec_sum(view_int(weights@).take(j3 as int)),
            0 <= total <= j3 * FX_ONE,
        decreases n - j3,
    {
        proof {
            assert((j3 + 1) * FX_ONE == j3 * FX_ONE + FX_ONE) by (nonlinear_arith);
            assert(view_int(weights@).take(j3 as int).push(view_int(weights@)[j3 as int])
                =~= view_int(weights@).take(j3 as int + 1));
            lemma_sum_snoc(view_int(weights@).take(j3 as int), view_int(weights@)[j3 as int]);
        }
        total = total + weights[j3];
        j3 += 1;
    }
    proof {
        assert(view_int(weights@).take(n as int) =~= w);
        assert(forall|t: int| 0 <= t < w.len() ==> #[trigger] w[t] >= 0);
        lemma_sum_element(w, 0);
        assert(w[0] > 0);
        assert(total as int == spec_sum(w));
        assert(total > 0);
    }

    // Weighted average of the cached values, coordinate by coordinate.
    let dim = vdim;
    let mut out: Vec<i64> = Vec::new();
    let mut d: usize = 0;
    while d < dim
        invariant
            d <= dim,
            n == vals@.len(),
            n == weights@.len(),
            1 <= n <= MAX_POSITIONS,
            forall|t: int| 0 <= t < vals@.len() ==> (#[trigger] vals@[t])@.len() == dim,
            forall|t: int| 0 <= t < vals@.len() ==> vec_in_range((#[trigger] vals@[t])@),
            vm == mat_view(vals@),
            w == view_int(weights@),
            forall|t: int| 0 <= t < n ==> 0 < #[trigger] weights@[t] <= FX_ONE,
            total as int == spec_sum(w),
            total > 0,
            out@.len() == d,
            forall|t: int| 0 <= t < d ==> #[trigger] out@[t] as int
                == spec_clamp_fx(spec_div_trunc(spec_wv_upto(w, vm, t, n as nat), total as int)),
            vec_in_range(out@),
        decreases dim - d,
    {
        let mut acc: i64 = 0;
        let mut jj: usize = 0;
        while jj < n
            invariant
                jj <= n,
                n == vals@.len(),
                n == weights@.len(),
                n <= MAX_POSITIONS,
                forall|t: int| 0 <= t < vals@.len() ==> (#[trigger] vals@[t])@.len() == dim,
                forall|t: int| 0 <= t < vals@.len() ==> vec_in_range((#[trigger] vals@[t])@),
                d < dim,
                vm == mat_view(vals@),
                w == view_int(weights@),
                forall|t: int| 0 <= t < n ==> 0 < #[trigger] weights@[t] <= FX_ONE,
                acc as int == spec_wv_upto(w, vm, d as int, jj as nat),
                spec_abs(acc as int) <= (jj as int) * (FX_ONE * FX_MAX),
            decreases n - jj,
        {
            let wv = weights[jj];
            let vd = vals[jj][d];
            proof {
                assert(vm[jj as int] == view_int(vals@[jj as int]@));
                assert(vm[jj as int][d as int] == vd as int);
                assert(vec_in_range(vals@[jj as int]@));
                assert(fx_in_range(vd as int));
                assert(-(FX_ONE * FX_MAX) <= wv as int * vd as int <= FX_ONE * FX_MAX)
                    by (nonlinear_arith)
                    requires
                        0 < wv as int <= FX_ONE,
                        -FX_MAX <= vd as int <= FX_MAX;
                assert((jj as int + 1) * (FX_ONE * FX_MAX)
                    == (jj as int) * (FX_ONE * FX_MAX) + (FX_ONE * FX_MAX)) by (nonlinear_arith);
                assert((jj as int + 1) * (FX_ONE * FX_MAX)
                    <= (MAX_POSITIONS as int) * (FX_ONE * FX_MAX)) by (nonlinear_arith)
                    requires jj as int + 1 <= MAX_POSITIONS as int;
            }
            acc = acc + wv * vd;
            jj += 1;
        }
        proof {
            assert((n as int) * (FX_ONE * FX_MAX) <= (MAX_POSITIONS as int) * (FX_ONE * FX_MAX))
                by (nonlinear_arith)
                requires n as int <= MAX_POSITIONS as int;
            assert(spec_abs(acc as int) <= (MAX_POSITIONS as int) * (FX_ONE * FX_MAX));
        }
        out.push(clamp_fx(div_trunc(acc, total)));
        d += 1;
    }
    proof {
        assert(view_int(out@) =~= spec_attend(qv, km, vm, scale as int, dim as int));
    }
    out
}

/// The incremental-equals-from-scratch law: take a cache that was filled
/// position by position and holds exactly positions 0..p of the key/value
/// history (the append contract's state). Appending position p's entries
/// reproduces the history prefix 0..=p, and attention over the appended
/// cache is exactly attention recomputed from scratch over that prefix —
/// identical, not merely within tolerance, in this exact arithmetic.
pub proof fn lemma_cached_attention_matches_scratch(
    q: Seq<int>, all_k: Seq<Seq<int>>, all_v: Seq<Seq<int>>,
    cache_k: Seq<Seq<int>>, cache_v: Seq<Seq<int>>, p: int, scale: int, dim: int)
    requires
        0 <= p < all_k.len(),
        all_k.len() == all_v.len(),
        cache_k == all_k.take(p),
        cache_v == all_v.take(p),
    ensures
        cache_k.push(all_k[p]) == all_k.take(p + 1),
        cache_v.push(all_v[p]) == all_v.take(p + 1),
        spec_attend(q, cache_k.push(all_k[p]), cache_v.push(all_v[p]), scale, dim)
            == spec_attend(q, all_k.take(p + 1), all_v.take(p + 1), scale, dim),
{
    assert(cache_k.push(all_k[p]) =~= all_k.take(p + 1));
    assert(cache_v.push(all_v[p]) =~= all_v.take(p + 1));
}

} // verus!
