//! The engine: the sole surface exposed to collaborators. Orchestrates the
//! load-then-generate lifecycle: parse the container once, resolve the
//! hyperparameters, build the tokenizer (or its reported byte-level
//! fallback), the per-layer key/value caches and the seeded sampler, then
//! generate autoregressively token by token.

use vstd::prelude::*;
use crate::errors::BrainError;
use crate::fixed::{FX_ONE, FX_MAX, fx_in_range, isqrt64};
use crate::format::{ModelFile, TensorDescriptor, QuantKind, MetaValue, parse_model_file, spec_header_ok};
use crate::model::{ModelParams, lookup_u32, lookup_str, spec_lookup_str, spec_arch_keys};
use crate::tokenizer::{Tokenizer, MergeRule, spec_concat, spec_encode, lemma_concat_snoc};
use crate::kv_cache::KvCache;
use crate::sampler::{Sampler, SamplerConfig, SamplerState, vec_in_range, view_int};
use crate::kernels::{MAX_DIM, spec_row_bytes, spec_mat_ok, spec_matvec, spec_norm, spec_add_vec, spec_gate_vec, matvec, norm_fx, add_vec, gate_vec};
use crate::quant::{spec_region_ok, spec_dequant_seq, dequantize_region};
use crate::rope::{spec_roped, apply_rope};
use crate::attention::{attend, mat_view, spec_attend, MAX_POSITIONS};
use crate::grammar::{Grammar, GrammarState, allowed_mask, mask_logits};

verus! {

/// Engine configuration; fixed-point fields are scaled by FX_ONE.
#[derive(Clone, Copy, Debug)]
pub struct BrainConfig {
    /// Worker threads the caller may run data-parallel sub-steps on.
    pub threads: u32,
    /// Default generation budget in tokens.
    pub max_tokens: u32,
    /// Requested context length.
    pub context_length: u32,
    /// Sampling temperature; zero means arg-max.
    pub temperature: i64,
    /// Nucleus threshold.
    pub top_p: i64,
    /// Whether structured output is requested by default.
    pub json_mode: bool,
    /// Seed of the sampler's pseudo-random source.
    pub seed: u64,
}

impl BrainConfig {
    /// The ranges the sampler arithmetic needs.
    pub open spec fn wf(self) -> bool {
        &&& 0 <= self.temperature <= FX_MAX
        &&& 0 <= self.top_p <= FX_ONE
    }
}

impl Default for BrainConfig {
    /// The stock configuration: four threads, a 256-token budget, a 2048
    /// position context, temperature 0.7 and nucleus 0.9 in fixed point.
    fn default() -> (r: BrainConfig)
        ensures
            r.threads == 4,
            r.max_tokens == 256,
            r.context_length == 2048,
            r.temperature == 45875,
            r.top_p == 58982,
            !r.json_mode,
            r.seed == 42,
            r.wf(),
    {
        BrainConfig {
            threads: 4,
            max_tokens: 256,
            context_length: 2048,
            temperature: 45875,
            top_p: 58982,
            json_mode: false,
            seed: 42,
        }
    }
}

/// Why generation stopped.
#[derive(Clone, Copy, Debug, PartialEq, Eq, Structural)]
pub enum StopReason {
    /// The token budget was spent.
    Budget,
    /// The end-of-sequence token was sampled.
    Eos,
    /// The key/value cache reached the context limit; the text up to that
    /// point is still returned and a fresh session can continue.
    Capacity,
    /// A terminal grammar state ended constrained generation.
    Terminal,
}

/// The outcome of one generation call: the decoded text, the emitted ids,
/// and why it stopped.
pub struct Generation {
    /// Decoded output bytes.
    pub text: Vec<u8>,
    /// Emitted token ids, in order.
    pub ids: Vec<u32>,
    /// Why generation ended.
    pub stopped: StopReason,
}

/// What `model_info` reports of a loaded model.
pub struct ModelInfo {
    /// Model name from the metadata, empty when absent.
    pub name: Vec<u8>,
    /// File size in bytes.
    pub size_bytes: u64,
    /// Transformer layer count.
    pub layer_count: u32,
    /// Query head count.
    pub head_count: u32,
}

/// A stored row-major matrix inside the mapped bytes.
#[derive(Clone, Copy, Debug)]
pub struct Mat {
    /// Element encoding.
    pub kind: QuantKind,
    /// Absolute byte offset of the first row.
    pub base: usize,
    /// Row count.
    pub rows: usize,
    /// Column count.
    pub cols: usize,
}

/// The matrix lies inside the mapped bytes and fits the kernel bounds.
pub open spec fn mat_wf(m: Mat, blen: int) -> bool {
    &&& 0 < m.rows <= MAX_DIM
    &&& 0 < m.cols <= MAX_DIM
    &&& m.base < 0x4000_0000
    &&& (m.kind is Q8 ==> m.cols % 32 == 0)
    &&& m.base + m.rows * spec_row_bytes(m.kind, m.cols as int) <= blen
}

/// A model loaded and ready for inference, together with one in-flight
/// session (its caches, recent-id window and sampler).
pub struct LoadedModel {
    /// The read-only mapped file contents; tensor views borrow from it.
    pub bytes: Vec<u8>,
    /// Parsed metadata and tensor directory.
    pub file: ModelFile,
    /// Resolved hyperparameters.
    pub params: ModelParams,
    /// The tokenizer, possibly the reported byte-level fallback.
    pub tok: Tokenizer,
    /// Per-layer key/value caches of the current session.
    pub caches: Vec<KvCache>,
    /// The seeded sampler of the current session.
    pub sampler: Sampler,
    /// Recent-id window of the current session.
    pub window: SamplerState,
    /// Token embedding matrix.
    pub emb: Mat,
    /// Query projection.
    pub wq: Mat,
    /// Key projection.
    pub wk: Mat,
    /// Value projection.
    pub wv: Mat,
    /// Attention output projection.
    pub wo: Mat,
    /// Feed-forward gate projection.
    pub w1: Mat,
    /// Feed-forward down projection.
    pub w2: Mat,
    /// Feed-forward up projection.
    pub w3: Mat,
    /// Vocabulary projection.
    pub wout: Mat,
    /// Attention score scale, one over the square root of the head width.
    pub att_scale: i64,
    /// Model name from the metadata.
    pub name: Vec<u8>,
}

impl LoadedModel {
    /// Width of one cached key/value entry.
    pub open spec fn kv_dim(self) -> int {
        self.params.n_kv_heads * self.params.head_dim
    }

    /// Everything the forward pass relies on.
    pub open spec fn wf(self) -> bool {
        &&& self.params.wf()
        &&& self.tok.wf()
        &&& (self.tok.vocab@.len() == self.params.vocab_size
            || (self.tok.degraded && self.tok.vocab@.len() == 259
                && self.params.vocab_size >= 259))
        &&& self.file.wf()
        &&& self.bytes@.len() <= 0x4000_0000
        &&& self.caches@.len() == self.params.n_layers
        &&& forall|l: int| 0 <= l < self.caches@.len() ==> (#[trigger] self.caches@[l]).wf()
        &&& forall|l: int| 0 <= l < self.caches@.len()
            ==> (#[trigger] self.caches@[l]).entry_len == self.kv_dim()
        &&& forall|l: int| 0 <= l < self.caches@.len()
            ==> (#[trigger] self.caches@[l]).max_seq_len == self.params.max_seq_len
        &&& self.sampler.config.wf()
        &&& self.window.wf()
        &&& mat_wf(self.emb, self.bytes@.len() as int)
        &&& self.emb.rows == self.params.vocab_size
        &&& self.emb.cols == self.params.dim
        &&& mat_wf(self.wq, self.bytes@.len() as int)
        &&& self.wq.rows == self.params.dim
        &&& self.wq.cols == self.params.dim
        &&& mat_wf(self.wk, self.bytes@.len() as int)
        &&& self.wk.rows == self.kv_dim()
        &&& self.wk.cols == self.params.dim
        &&& mat_wf(self.wv, self.bytes@.len() as int)
        &&& self.wv.rows == self.kv_dim()
        &&& self.wv.cols == self.params.dim
        &&& mat_wf(self.wo, self.bytes@.len() as int)
        &&& self.wo.rows == self.params.dim
        &&& self.wo.cols == self.params.dim
        &&& mat_wf(self.w1, self.bytes@.len() as int)
        &&& self.w1.cols == self.params.dim
        &&& mat_wf(self.w2, self.bytes@.len() as int)
        &&& self.w2.rows == self.params.dim
        &&& self.w2.cols == self.w1.rows
        &&& mat_wf(self.w3, self.bytes@.len() as int)
        &&& self.w3.rows == self.w1.rows
        &&& self.w3.cols == self.params.dim
        &&& mat_wf(self.wout, self.bytes@.len() as int)
        &&& self.wout.rows == self.params.vocab_size
        &&& self.wout.cols == self.params.dim
        &&& 0 < self.att_scale <= FX_ONE
    }

    /// All per-layer caches stand at the same position.
    pub open spec fn aligned(self, pos: int) -> bool {
        forall|l: int| 0 <= l < self.caches@.len() ==> (#[trigger] self.caches@[l]).cursor() == pos
    }

    /// One matrix of this model decodes cleanly, every row.
    pub open spec fn mat_ok(self, m: Mat) -> bool {
        spec_mat_ok(self.bytes@, m.kind, m.base as int, m.rows as int, m.cols as int)
    }

    /// The embedding row of one token decodes cleanly.
    pub open spec fn emb_row_ok(self, token: int) -> bool {
        spec_region_ok(self.bytes@, self.emb.kind,
            self.emb.base + token * spec_row_bytes(self.emb.kind, self.emb.cols as int),
            self.emb.cols as int)
    }

    /// Every projection matrix decodes cleanly.
    pub open spec fn projections_ok(self) -> bool {
        &&& self.mat_ok(self.wq)
        &&& self.mat_ok(self.wk)
        &&& self.mat_ok(self.wv)
        &&& self.mat_ok(self.wo)
        &&& self.mat_ok(self.w1)
        &&& self.mat_ok(self.w2)
        &&& self.mat_ok(self.w3)
        &&& self.mat_ok(self.wout)
    }

    /// Every stored weight of the model decodes cleanly, embedding rows
    /// included; under this condition generation never fails.
    pub open spec fn weights_ok(self) -> bool {
        &&& self.mat_ok(self.emb)
        &&& self.projections_ok()
    }

    /// Product of a stored matrix with a vector, as a value.
    pub open spec fn spec_mv(self, m: Mat, x: Seq<int>) -> Seq<int> {
        spec_matvec(self.bytes@, m.kind, m.base as int, m.rows as int, m.cols as int, x)
    }

    /// The dequantized embedding row of a token.
    pub open spec fn spec_emb_row(self, token: int) -> Seq<int> {
        spec_dequant_seq(self.bytes@, self.emb.kind,
            self.emb.base + token * spec_row_bytes(self.emb.kind, self.emb.cols as int),
            self.emb.cols as int)
    }

    /// The rotated key this position writes into a layer's cache, from the
    /// layer's input activation.
    pub open spec fn spec_kproj(self, x: Seq<int>, pos: int) -> Seq<int> {
        spec_roped(self.spec_mv(self.wk, spec_norm(x)), pos, self.params.head_dim as int)
    }

    /// The value this position writes into a layer's cache.
    pub open spec fn spec_vproj(self, x: Seq<int>) -> Seq<int> {
        self.spec_mv(self.wv, spec_norm(x))
    }

    /// Which cached key/value head a query head reads.
    pub open spec fn spec_group(self, h: int) -> int {
        let group = self.params.n_heads as int / self.params.n_kv_heads as int;
        let g0 = h / group;
        if g0 >= self.params.n_kv_heads as int {
            self.params.n_kv_heads as int - 1
        } else {
            g0
        }
    }

    /// Concatenated attention outputs of the first h query heads over a
    /// layer's key/value history.
    pub open spec fn spec_heads(self, qr: Seq<int>, kh: Seq<Seq<int>>, vh: Seq<Seq<int>>, h: nat) -> Seq<int>
        decreases h,
    {
        if h == 0 {
            Seq::empty()
        } else {
            let hd = self.params.head_dim as int;
            let hi = h - 1;
            let g = self.spec_group(hi as int);
            let qh = qr.subrange(hi as int * hd, hi as int * hd + hd);
            let keys_h = Seq::new(kh.len(), |j: int| kh[j].subrange(g * hd, g * hd + hd));
            let vals_h = Seq::new(vh.len(), |j: int| vh[j].subrange(g * hd, g * hd + hd));
            self.spec_heads(qr, kh, vh, (h - 1) as nat)
                + spec_attend(qh, keys_h, vals_h, self.att_scale as int, hd)
        }
    }

    /// One layer's output activation, given its input and the key/value
    /// history including this position's entries.
    pub open spec fn spec_layer(self, x: Seq<int>, kh: Seq<Seq<int>>, vh: Seq<Seq<int>>, pos: int) -> Seq<int> {
        let xn = spec_norm(x);
        let qr = spec_roped(self.spec_mv(self.wq, xn), pos, self.params.head_dim as int);
        let att = self.spec_heads(qr, kh, vh, self.params.n_heads as nat);
        let x1 = spec_add_vec(x, self.spec_mv(self.wo, att));
        let xn2 = spec_norm(x1);
        let gg = spec_gate_vec(self.spec_mv(self.w1, xn2), self.spec_mv(self.w3, xn2));
        spec_add_vec(x1, self.spec_mv(self.w2, gg))
    }

    /// The activation after the first l layers of this position's step,
    /// over the pre-call caches.
    pub open spec fn spec_fwd_x(self, token: int, pos: int, l: nat) -> Seq<int>
        decreases l,
    {
        if l == 0 {
            self.spec_emb_row(token)
        } else {
            let x = self.spec_fwd_x(token, pos, (l - 1) as nat);
            let kh = mat_view(self.caches@[l - 1].keys@).push(self.spec_kproj(x, pos));
            let vh = mat_view(self.caches@[l - 1].vals@).push(self.spec_vproj(x));
            self.spec_layer(x, kh, vh, pos)
        }
    }

    /// The logits one position's full forward step produces.
    pub open spec fn spec_logits(self, token: int, pos: int) -> Seq<int> {
        self.spec_mv(self.wout, spec_norm(self.spec_fwd_x(token, pos, self.params.n_layers as nat)))
    }
}

/// Ids emitted by a run that spends its whole budget: one per step from
/// the last prompt position to the budget's end.
pub open spec fn spec_full_run_count(budget: int, prompt_len: int) -> int {
    if budget >= prompt_len - 1 {
        budget - (prompt_len - 1)
    } else {
        0
    }
}

/// The recent-id window after the given ids were recorded in order, each
/// evicting the oldest entry once the capacity is reached.
pub open spec fn spec_window_after(w: Seq<u32>, cap: int, ids: Seq<u32>) -> Seq<u32>
    decreases ids.len(),
{
    if ids.len() == 0 {
        w
    } else {
        let w1 = if cap == 0 {
            w
        } else if w.len() < cap {
            w.push(ids[0])
        } else {
            w.skip(1).push(ids[0])
        };
        spec_window_after(w1, cap, ids.drop_first())
    }
}

/// Recording one more id steps the window fold once at the end.
proof fn lemma_window_snoc(w: Seq<u32>, cap: int, ids: Seq<u32>, x: u32)
    ensures
        spec_window_after(w, cap, ids.push(x)) == (if cap == 0 {
            spec_window_after(w, cap, ids)
        } else if spec_window_after(w, cap, ids).len() < cap {
            spec_window_after(w, cap, ids).push(x)
        } else {
            spec_window_after(w, cap, ids).skip(1).push(x)
        }),
    decreases ids.len(),
{
    if ids.len() == 0 {
        assert(ids.push(x)[0] == x);
        assert(ids.push(x).drop_first() =~= Seq::<u32>::empty());
        let w1 = if cap == 0 {
            w
        } else if w.len() < cap {
            w.push(x)
        } else {
            w.skip(1).push(x)
        };
        assert(spec_window_after(w1, cap, Seq::<u32>::empty()) == w1);
        assert(spec_window_after(w, cap, ids.push(x)) == w1);
        assert(spec_window_after(w, cap, ids) == w);
    } else {
        assert(ids.push(x)[0] == ids[0]);
        assert(ids.push(x).drop_first() =~= ids.drop_first().push(x));
        let w1 = if cap == 0 {
            w
        } else if w.len() < cap {
            w.push(ids[0])
        } else {
            w.skip(1).push(ids[0])
        };
        lemma_window_snoc(w1, cap, ids.drop_first(), x);
    }
}

/// The engine handle: configuration plus the optionally loaded model.
pub struct BrainEngine {
    /// Engine configuration.
    pub config: BrainConfig,
    /// The loaded model, absent until a successful load.
    pub model: Option<LoadedModel>,
}

/// First tensor whose name equals the given bytes.
pub open spec fn spec_find_tensor(ts: Seq<TensorDescriptor>, name: Seq<u8>) -> Option<int>
    decreases ts.len(),
{
    if ts.len() == 0 {
        None
    } else if ts[0].name@ == name {
        Some(0)
    } else {
        match spec_find_tensor(ts.drop_first(), name) {
            Some(i) => Some(i + 1),
            None => None,
        }
    }
}

/// Find a tensor by name.
fn find_tensor(ts: &Vec<TensorDescriptor>, name: &Vec<u8>) -> (r: Option<usize>)
    ensures
        r matches Some(i) ==> (i < ts@.len() && ts@[i as int].name@ == name@),
        r is None ==> spec_find_tensor(ts@, name@) is None,
{
    let mut i: usize = 0;
    while i < ts.len()
        invariant
            i <= ts@.len(),
            forall|t: int| 0 <= t < i ==> (#[trigger] ts@[t]).name@ != name@,
        decreases ts@.len() - i,
    {
        if crate::tokenizer::bytes_eq(&ts[i].name, name) {
            return Some(i);
        }
        i += 1;
    }
    proof {
        lemma_find_tensor_none(ts@, name@);
    }
    None
}

/// A name absent from every descriptor is not found.
proof fn lemma_find_tensor_none(ts: Seq<TensorDescriptor>, name: Seq<u8>)
    requires
        forall|t: int| 0 <= t < ts.len() ==> (#[trigger] ts[t]).name@ != name,
    ensures
        spec_find_tensor(ts, name) is None,
    decreases ts.len(),
{
    if ts.len() > 0 {
        assert(forall|t: int| 0 <= t < ts.drop_first().len()
            ==> (#[trigger] ts.drop_first()[t]).name@ != name);
        lemma_find_tensor_none(ts.drop_first(), name);
    }
}

/// Check a descriptor against an expected two-dimensional shape and turn
/// it into a matrix handle; anything off is a format error.
fn mat_from_desc(d: &TensorDescriptor, want_rows: u32, want_cols: u32, blen: usize) -> (r: Result<Mat, BrainError>)
    requires
        crate::format::spec_desc_ok(*d, blen as int),
        blen <= 0x4000_0000,
        0 < want_rows,
        0 < want_cols,
    ensures
        r matches Ok(m) ==> (mat_wf(m, blen as int) && m.rows == want_rows && m.cols == want_cols
            && m.kind == d.kind && m.base == d.offset),
        r is Err ==> r === Err::<Mat, BrainError>(BrainError::Format),
{
    if want_rows > MAX_DIM as u32 || want_cols > MAX_DIM as u32 {
        return Err(BrainError::Format);
    }
    if d.shape.len() != 2 {
        return Err(BrainError::Format);
    }
    if d.shape[0] != want_rows || d.shape[1] != want_cols {
        return Err(BrainError::Format);
    }
    match d.kind {
        QuantKind::Q8 => {
            if want_cols as usize % 32 != 0 {
                return Err(BrainError::Format);
            }
        },
        QuantKind::Fx64 => {},
    }
    let rows = want_rows as usize;
    let cols = want_cols as usize;
    proof {
        let s0 = d.shape@[0];
        let s1 = d.shape@[1];
        assert(d.shape@.last() == s1);
        assert(d.shape@.drop_last() =~= seq![s0]);
        assert(seq![s0].last() == s0);
        assert(seq![s0].len() == 1);
        assert(seq![s0].drop_last() =~= Seq::<u32>::empty());
        assert(crate::format::spec_shape_product(Seq::<u32>::empty()) == 1);
        assert(crate::format::spec_shape_product(seq![s0]) == 1 * s0);
        assert(crate::format::spec_shape_product(d.shape@) == (1 * s0) * s1);
        let prod = rows as int * cols as int;
        assert(crate::format::spec_shape_product(d.shape@) == prod) by (nonlinear_arith)
            requires
                crate::format::spec_shape_product(d.shape@)
                    == (1 * d.shape@[0] as int) * d.shape@[1] as int,
                d.shape@[0] as int == rows as int,
                d.shape@[1] as int == cols as int,
                prod == rows as int * cols as int;
        match d.kind {
            QuantKind::Fx64 => {
                assert(prod * 8 == rows as int * (8 * cols as int)) by (nonlinear_arith)
                    requires prod == rows as int * cols as int;
            },
            QuantKind::Q8 => {
                assert(cols as int == 32 * (cols as int / 32)) by (nonlinear_arith)
                    requires cols as int % 32 == 0;
                assert(prod == 32 * (rows as int * (cols as int / 32))) by (nonlinear_arith)
                    requires
                        prod == rows as int * cols as int,
                        cols as int == 32 * (cols as int / 32);
                vstd::arithmetic::div_mod::lemma_mod_multiples_basic(
                    rows as int * (cols as int / 32), 32);
                assert(prod % 32 == 0);
                vstd::arithmetic::div_mod::lemma_div_multiples_vanish(
                    rows as int * (cols as int / 32), 32);
                assert(prod / 32 == rows as int * (cols as int / 32));
                assert((prod / 32) * 36 == rows as int * ((cols as int / 32) * 36))
                    by (nonlinear_arith)
                    requires prod / 32 == rows as int * (cols as int / 32);
            },
        }
        match d.kind {
            QuantKind::Fx64 => {
                assert(spec_row_bytes(d.kind, cols as int) == 8 * cols as int);
                assert(d.length as int == prod * 8);
                assert(d.length as int == rows as int * spec_row_bytes(d.kind, cols as int));
            },
            QuantKind::Q8 => {
                assert(spec_row_bytes(d.kind, cols as int) == (cols as int / 32) * 36);
                assert(d.length as int == (prod / 32) * 36);
                assert(d.length as int == rows as int * ((cols as int / 32) * 36))
                    by (nonlinear_arith)
                    requires
                        d.length as int == (prod / 32) * 36,
                        prod / 32 == rows as int * (cols as int / 32);
            },
        }
        assert(rows as int * spec_row_bytes(d.kind, cols as int) == d.length as int);
        assert(d.offset + rows as int * spec_row_bytes(d.kind, cols as int) <= blen);
        assert(spec_row_bytes(d.kind, cols as int) > 0) by (nonlinear_arith)
            requires
                0 < cols as int,
                d.kind is Q8 ==> cols as int == 32 * (cols as int / 32),
                spec_row_bytes(d.kind, cols as int)
                    == (if d.kind is Q8 { (cols as int / 32) * 36 } else { 8 * cols as int });
        assert(d.length as int > 0) by (nonlinear_arith)
            requires
                d.length as int == rows as int * spec_row_bytes(d.kind, cols as int),
                0 < rows as int,
                0 < spec_row_bytes(d.kind, cols as int);
        assert((d.offset as int) < blen as int);
    }
    Ok(Mat { kind: d.kind, base: d.offset as usize, rows, cols })
}

/// Copy a contiguous stretch out of a vector.
fn subvec(v: &Vec<i64>, from: usize, width: usize) -> (r: Vec<i64>)
    requires
        from + width <= v@.len(),
        vec_in_range(v@),
    ensures
        r@.len() == width,
        vec_in_range(r@),
        r@ == v@.subrange(from as int, from as int + width),
{
    let n = v.len();
    let mut out: Vec<i64> = Vec::new();
    let mut i: usize = 0;
    while i < width
        invariant
            i <= width,
            n == v@.len(),
            from + width <= n,
            vec_in_range(v@),
            out@ == v@.subrange(from as int, from as int + i),
        decreases width - i,
    {
        proof {
            assert(v@.subrange(from as int, from as int + i).push(v@[from as int + i])
                =~= v@.subrange(from as int, from as int + i + 1));
            assert(fx_in_range(v@[from as int + i] as int));
        }
        out.push(v[from + i]);
        i += 1;
    }
    proof {
        assert(vec_in_range(out@)) by {
            assert(forall|t: int| 0 <= t < out@.len()
                ==> fx_in_range(#[trigger] out@[t] as int));
        }
    }
    out
}

/// Copy one head's stretch out of every cached entry.
fn slice_entries(m: &Vec<Vec<i64>>, from: usize, width: usize) -> (r: Vec<Vec<i64>>)
    requires
        forall|j: int| 0 <= j < m@.len() ==> from + width <= (#[trigger] m@[j])@.len(),
        forall|j: int| 0 <= j < m@.len() ==> vec_in_range((#[trigger] m@[j])@),
    ensures
        r@.len() == m@.len(),
        forall|j: int| 0 <= j < r@.len() ==> (#[trigger] r@[j])@.len() == width,
        forall|j: int| 0 <= j < r@.len() ==> vec_in_range((#[trigger] r@[j])@),
        forall|j: int| 0 <= j < r@.len() ==> (#[trigger] r@[j])@
            == m@[j]@.subrange(from as int, from as int + width),
    decreases m@.len(),
{
    let mut out: Vec<Vec<i64>> = Vec::new();
    let mut j: usize = 0;
    while j < m.len()
        invariant
            j <= m@.len(),
            forall|t: int| 0 <= t < m@.len() ==> from + width <= (#[trigger] m@[t])@.len(),
            forall|t: int| 0 <= t < m@.len() ==> vec_in_range((#[trigger] m@[t])@),
            out@.len() == j,
            forall|t: int| 0 <= t < j ==> (#[trigger] out@[t])@.len() == width,
            forall|t: int| 0 <= t < j ==> vec_in_range((#[trigger] out@[t])@),
            forall|t: int| 0 <= t < j ==> (#[trigger] out@[t])@
                == m@[t]@.subrange(from as int, from as int + width),
        decreases m@.len() - j,
    {
        let s = subvec(&m[j], from, width);
        out.push(s);
        j += 1;
    }
    out
}

impl LoadedModel {
    /// One position through the transformer: embedding lookup, then per
    /// layer normalization, query/key/value projections, rotary encoding
    /// of query and key, cache append, grouped-query causal attention and
    /// the gated feed-forward, then the final normalization and the
    /// vocabulary projection. Advances every layer's cache by one
    /// position; a malformed weight is a format error. Public as the
    /// resumable per-token step: a caller driving generation itself can
    /// stop between any two calls, and the cache is left consistent at
    /// every token boundary.
    #[verifier::rlimit(80)]
    pub fn forward(&mut self, token: u32, pos: usize) -> (r: Result<Vec<i64>, BrainError>)
        requires
            old(self).wf(),
            token < old(self).params.vocab_size,
            old(self).aligned(pos as int),
            pos < old(self).params.max_seq_len,
        ensures
            final(self).wf(),
            final(self).params == old(self).params,
            final(self).tok == old(self).tok,
            final(self).sampler == old(self).sampler,
            final(self).window == old(self).window,
            final(self).bytes == old(self).bytes,
            final(self).file == old(self).file,
            final(self).name == old(self).name,
            final(self).emb == old(self).emb,
            final(self).wq == old(self).wq,
            final(self).wk == old(self).wk,
            final(self).wv == old(self).wv,
            final(self).wo == old(self).wo,
            final(self).w1 == old(self).w1,
            final(self).w2 == old(self).w2,
            final(self).w3 == old(self).w3,
            final(self).wout == old(self).wout,
            final(self).att_scale == old(self).att_scale,
            r matches Ok(v) ==> (v@.len() == old(self).params.vocab_size && vec_in_range(v@)
                && view_int(v@) == old(self).spec_logits(token as int, pos as int)
                && final(self).aligned(pos + 1)),
            r is Ok ==> (forall|l: int| 0 <= l < old(self).caches@.len()
                ==> (mat_view((#[trigger] final(self).caches@[l]).keys@)
                        == mat_view(old(self).caches@[l].keys@).push(old(self).spec_kproj(
                            old(self).spec_fwd_x(token as int, pos as int, l as nat),
                            pos as int))
                    && mat_view(final(self).caches@[l].vals@)
                        == mat_view(old(self).caches@[l].vals@).push(old(self).spec_vproj(
                            old(self).spec_fwd_x(token as int, pos as int, l as nat))))),
            r is Ok ==> (forall|l: int| 0 <= l < old(self).caches@.len()
                ==> ((#[trigger] final(self).caches@[l]).keys@.len()
                        == old(self).caches@[l].keys@.len() + 1
                    && final(self).caches@[l].vals@.len()
                        == old(self).caches@[l].vals@.len() + 1
                    && final(self).caches@[l].keys@.take(
                        old(self).caches@[l].keys@.len() as int)
                        == old(self).caches@[l].keys@
                    && final(self).caches@[l].vals@.take(
                        old(self).caches@[l].vals@.len() as int)
                        == old(self).caches@[l].vals@)),
            r is Ok <==> (old(self).emb_row_ok(token as int) && old(self).projections_ok()),
            r is Err ==> r === Err::<Vec<i64>, BrainError>(BrainError::Format),
    {
        let dim = self.params.dim as usize;
        let hd = self.params.head_dim as usize;
        let nh = self.params.n_heads as usize;
        let kvh = self.params.n_kv_heads as usize;
        let kvd = kvh * hd;
        let layers = self.params.n_layers as usize;
        proof {
            assert(kvd == self.kv_dim());
            assert(nh * hd == dim);
        }

        // Embedding lookup: dequantize the token's row.
        let erb: usize = match self.emb.kind {
            QuantKind::Fx64 => 8 * self.emb.cols,
            QuantKind::Q8 => (self.emb.cols / 32) * 36,
        };
        proof {
            assert(erb as int == spec_row_bytes(self.emb.kind, self.emb.cols as int));
            assert((token as int + 1) * erb as int <= self.emb.rows as int * erb as int)
                by (nonlinear_arith)
                requires (token as int) < self.emb.rows as int, 0 <= erb as int;
            assert((token as int + 1) * erb as int == token as int * erb as int + erb as int)
                by (nonlinear_arith);
            assert(0 <= token as int * erb as int) by (nonlinear_arith)
                requires 0 <= token as int, 0 <= erb as int;
        }
        let ebase = self.emb.base + (token as usize) * erb;
        let mut x = match dequantize_region(&self.bytes, self.emb.kind, ebase, self.emb.cols) {
            Ok(v) => v,
            Err(e) => {
                proof {
                    assert(!self.emb_row_ok(token as int));
                }
                return Err(e);
            },
        };
        proof {
            assert(self.emb_row_ok(token as int));
            assert(view_int(x@) =~= self.spec_emb_row(token as int));
            assert(view_int(x@) == old(self).spec_fwd_x(token as int, pos as int, 0));
        }

        let mut l: usize = 0;
        while l < layers
            invariant
                l <= layers,
                self.wf(),
                self.params == old(self).params,
                self.tok == old(self).tok,
                self.sampler == old(self).sampler,
                self.window == old(self).window,
                self.bytes == old(self).bytes,
                self.file == old(self).file,
                self.name == old(self).name,
                self.att_scale == old(self).att_scale,
                self.emb == old(self).emb,
                self.wq == old(self).wq,
                self.wk == old(self).wk,
                self.wv == old(self).wv,
                self.wo == old(self).wo,
                self.w1 == old(self).w1,
                self.w2 == old(self).w2,
                self.w3 == old(self).w3,
                self.wout == old(self).wout,
                layers == self.params.n_layers,
                dim == self.params.dim,
                hd == self.params.head_dim,
                nh == self.params.n_heads,
                kvh == self.params.n_kv_heads,
                kvd == self.kv_dim(),
                pos < self.params.max_seq_len,
                old(self).aligned(pos as int),
                self.emb_row_ok(token as int),
                l > 0 ==> (self.mat_ok(self.wq) && self.mat_ok(self.wk) && self.mat_ok(self.wv)
                    && self.mat_ok(self.wo) && self.mat_ok(self.w1) && self.mat_ok(self.w2)
                    && self.mat_ok(self.w3)),
                x@.len() == dim,
                vec_in_range(x@),
                view_int(x@) == old(self).spec_fwd_x(token as int, pos as int, l as nat),
                forall|t: int| 0 <= t < l
                    ==> (mat_view((#[trigger] self.caches@[t]).keys@)
                            == mat_view(old(self).caches@[t].keys@).push(old(self).spec_kproj(
                                old(self).spec_fwd_x(token as int, pos as int, t as nat),
                                pos as int))
                        && mat_view(self.caches@[t].vals@)
                            == mat_view(old(self).caches@[t].vals@).push(old(self).spec_vproj(
                                old(self).spec_fwd_x(token as int, pos as int, t as nat)))),
                self.caches@.len() == old(self).caches@.len(),
                forall|t: int| 0 <= t < l ==> (#[trigger] self.caches@[t]).cursor() == pos + 1,
                forall|t: int| l <= t < self.caches@.len()
                    ==> #[trigger] self.caches@[t] == old(self).caches@[t],
                forall|t: int| 0 <= t < l
                    ==> ((#[trigger] self.caches@[t]).keys@.len()
                            == old(self).caches@[t].keys@.len() + 1
                        && self.caches@[t].vals@.len()
                            == old(self).caches@[t].vals@.len() + 1
                        && self.caches@[t].keys@.take(
                            old(self).caches@[t].keys@.len() as int)
                            == old(self).caches@[t].keys@
                        && self.caches@[t].vals@.take(
                            old(self).caches@[t].vals@.len() as int)
                            == old(self).caches@[t].vals@),
            decreases layers - l,
        {
            let ghost x_l = view_int(x@);
            let xn = norm_fx(&x);
            let q = match matvec(&self.bytes, self.wq.kind, self.wq.base, self.wq.rows, self.wq.cols, &xn) {
                Ok(v) => v,
                Err(e) => {
                    proof {
                        assert(!self.mat_ok(self.wq));
                    }
                    return Err(e);
                },
            };
            let k = match matvec(&self.bytes, self.wk.kind, self.wk.base, self.wk.rows, self.wk.cols, &xn) {
                Ok(v) => v,
                Err(e) => {
                    proof {
                        assert(!self.mat_ok(self.wk));
                    }
                    return Err(e);
                },
            };
            let v = match matvec(&self.bytes, self.wv.kind, self.wv.base, self.wv.rows, self.wv.cols, &xn) {
                Ok(v) => v,
                Err(e) => {
                    proof {
                        assert(!self.mat_ok(self.wv));
                    }
                    return Err(e);
                },
            };
            let qr = apply_rope(&q, pos, hd);
            let kr = apply_rope(&k, pos, hd);
            proof {
                assert(view_int(xn@) == spec_norm(x_l));
                assert(view_int(qr@) == spec_roped(old(self).spec_mv(old(self).wq, spec_norm(x_l)),
                    pos as int, hd as int));
                assert(view_int(kr@) == old(self).spec_kproj(x_l, pos as int));
                assert(view_int(v@) == old(self).spec_vproj(x_l));
            }

            let ghost pre_caches = self.caches@;
            proof {
                assert(self.caches@[l as int] == old(self).caches@[l as int]);
            }
            let mut c = self.caches.remove(l);
            proof {
                assert(c == pre_caches[l as int]);
                assert(c == old(self).caches@[l as int]);
                assert(old(self).caches@[l as int].cursor() == pos);
                assert(c.cursor() == pos);
            }
            let ghost krv = view_int(kr@);
            let ghost vvv = view_int(v@);
            let appended = c.append(kr, v);
            proof {
                assert(appended is Ok);
                assert(mat_view(c.keys@) =~= mat_view(old(self).caches@[l as int].keys@).push(krv));
                assert(mat_view(c.vals@) =~= mat_view(old(self).caches@[l as int].vals@).push(vvv));
            }
            let ghost kh = mat_view(c.keys@);
            let ghost vh = mat_view(c.vals@);
            let ghost qrv = view_int(qr@);

            // Grouped-query attention: each group of query heads shares
            // one cached key/value head.
            let group = nh / kvh;
            proof {
                assert(nh as int / kvh as int >= 1) by (nonlinear_arith)
                    requires 0 < kvh as int <= nh as int;
            }
            let mut att: Vec<i64> = Vec::new();
            let mut h: usize = 0;
            proof {
                assert(old(self).spec_heads(qrv, kh, vh, 0) =~= Seq::<int>::empty());
            }
            while h < nh
                invariant
                    h <= nh,
                    0 < hd,
                    0 < kvh,
                    0 < group,
                    group == nh / kvh,
                    nh == self.params.n_heads,
                    kvh == self.params.n_kv_heads,
                    hd == self.params.head_dim,
                    nh * hd == dim,
                    kvd == kvh * hd,
                    c.wf(),
                    c.entry_len == kvd,
                    1 <= c.cursor() <= MAX_POSITIONS,
                    qr@.len() == dim,
                    vec_in_range(qr@),
                    qrv == view_int(qr@),
                    kh == mat_view(c.keys@),
                    vh == mat_view(c.vals@),
                    0 < self.att_scale <= FX_ONE,
                    att@.len() == h * hd,
                    vec_in_range(att@),
                    self.params == old(self).params,
                    self.att_scale == old(self).att_scale,
                    view_int(att@) == old(self).spec_heads(qrv, kh, vh, h as nat),
                decreases nh - h,
            {
                proof {
                    assert(h * hd + hd == (h + 1) * hd) by (nonlinear_arith);
                    assert((h + 1) * hd <= nh * hd) by (nonlinear_arith)
                        requires h as int + 1 <= nh as int, 0 <= hd as int;
                    assert(0 <= h * hd) by (nonlinear_arith)
                        requires 0 <= h as int, 0 <= hd as int;
                }
                let qh = subvec(&qr, h * hd, hd);
                let mut g = h / group;
                if g >= kvh {
                    g = kvh - 1;
                }
                proof {
                    assert(g * hd + hd == (g + 1) * hd) by (nonlinear_arith);
                    assert((g + 1) * hd <= kvh * hd) by (nonlinear_arith)
                        requires g as int + 1 <= kvh as int, 0 <= hd as int;
                    assert(0 <= g * hd) by (nonlinear_arith)
                        requires 0 <= g as int, 0 <= hd as int;
                }
                let keys_h = slice_entries(&c.keys, g * hd, hd);
                let vals_h = slice_entries(&c.vals, g * hd, hd);
                let ah = attend(&qh, &keys_h, &vals_h, self.att_scale, hd);
                proof {
                    assert(g as int == old(self).spec_group(h as int));
                    assert(view_int(qh@) =~= qrv.subrange(h as int * hd, h as int * hd + hd));
                    assert(mat_view(keys_h@) =~= Seq::new(kh.len(),
                        |j: int| kh[j].subrange(g as int * hd, g as int * hd + hd))) by {
                        assert forall|j: int| 0 <= j < keys_h@.len() implies
                            #[trigger] mat_view(keys_h@)[j]
                                == kh[j].subrange(g as int * hd, g as int * hd + hd) by {
                            assert(keys_h@[j]@ == c.keys@[j]@.subrange(
                                g as int * hd, g as int * hd + hd));
                            assert(view_int(keys_h@[j]@) =~= kh[j].subrange(
                                g as int * hd, g as int * hd + hd));
                        }
                    }
                    assert(mat_view(vals_h@) =~= Seq::new(vh.len(),
                        |j: int| vh[j].subrange(g as int * hd, g as int * hd + hd))) by {
                        assert forall|j: int| 0 <= j < vals_h@.len() implies
                            #[trigger] mat_view(vals_h@)[j]
                                == vh[j].subrange(g as int * hd, g as int * hd + hd) by {
                            assert(vals_h@[j]@ == c.vals@[j]@.subrange(
                                g as int * hd, g as int * hd + hd));
                            assert(view_int(vals_h@[j]@) =~= vh[j].subrange(
                                g as int * hd, g as int * hd + hd));
                        }
                    }
                    assert(view_int(ah@) == spec_attend(qrv.subrange(h as int * hd, h as int * hd + hd),
                        Seq::new(kh.len(), |j: int| kh[j].subrange(g as int * hd, g as int * hd + hd)),
                        Seq::new(vh.len(), |j: int| vh[j].subrange(g as int * hd, g as int * hd + hd)),
                        self.att_scale as int, hd as int));
                }
                let mut t: usize = 0;
                while t < hd
                    invariant
                        t <= hd,
                        ah@.len() == hd,
                        vec_in_range(ah@),
                        att@.len() == h * hd + t,
                        vec_in_range(att@),
                        view_int(att@) =~= old(self).spec_heads(qrv, kh, vh, h as nat)
                            + view_int(ah@).take(t as int),
                    decreases hd - t,
                {
                    proof {
                        assert(fx_in_range(ah@[t as int] as int));
                        assert((old(self).spec_heads(qrv, kh, vh, h as nat)
                            + view_int(ah@).take(t as int)).push(view_int(ah@)[t as int])
                            =~= old(self).spec_heads(qrv, kh, vh, h as nat)
                                + view_int(ah@).take(t as int + 1));
                    }
                    att.push(ah[t]);
                    t += 1;
                }
                proof {
                    assert(view_int(ah@).take(hd as int) =~= view_int(ah@));
                    assert(view_int(att@) == old(self).spec_heads(qrv, kh, vh, (h + 1) as nat));
                }
                h += 1;
            }
            proof {
                assert(att@.len() == nh * hd);
                assert(view_int(att@) == old(self).spec_heads(qrv, kh, vh, nh as nat));
            }
            self.caches.insert(l, c);
            proof {
                assert(self.caches@.len() == pre_caches.len());
                assert(self.caches@[l as int] == c);
                assert forall|t: int| 0 <= t < self.caches@.len() && t != l implies
                    #[trigger] self.caches@[t] == pre_caches[t] by {
                    if t < l {
                        assert(self.caches@[t] == pre_caches.remove(l as int)[t]);
                        assert(pre_caches.remove(l as int)[t] == pre_caches[t]);
                    } else {
                        assert(self.caches@[t] == pre_caches.remove(l as int)[t - 1]);
                        assert(pre_caches.remove(l as int)[t - 1] == pre_caches[t]);
                    }
                }
                assert(c.keys@.take(old(self).caches@[l as int].keys@.len() as int)
                    =~= old(self).caches@[l as int].keys@);
                assert(c.vals@.take(old(self).caches@[l as int].vals@.len() as int)
                    =~= old(self).caches@[l as int].vals@);
            }

            let ao = match matvec(&self.bytes, self.wo.kind, self.wo.base, self.wo.rows, self.wo.cols, &att) {
                Ok(v) => v,
                Err(e) => {
                    proof {
                        assert(!self.mat_ok(self.wo));
                    }
                    return Err(e);
                },
            };
            x = add_vec(&x, &ao);
            let ghost x1v = view_int(x@);
            proof {
                assert(x1v == spec_add_vec(x_l, old(self).spec_mv(old(self).wo,
                    old(self).spec_heads(qrv, kh, vh, nh as nat))));
            }

            let xn2 = norm_fx(&x);
            let g1 = match matvec(&self.bytes, self.w1.kind, self.w1.base, self.w1.rows, self.w1.cols, &xn2) {
                Ok(v) => v,
                Err(e) => {
                    proof {
                        assert(!self.mat_ok(self.w1));
                    }
                    return Err(e);
                },
            };
            let u3 = match matvec(&self.bytes, self.w3.kind, self.w3.base, self.w3.rows, self.w3.cols, &xn2) {
                Ok(v) => v,
                Err(e) => {
                    proof {
                        assert(!self.mat_ok(self.w3));
                    }
                    return Err(e);
                },
            };
            let gg = gate_vec(&g1, &u3);
            let dn = match matvec(&self.bytes, self.w2.kind, self.w2.base, self.w2.rows, self.w2.cols, &gg) {
                Ok(v) => v,
                Err(e) => {
                    proof {
                        assert(!self.mat_ok(self.w2));
                    }
                    return Err(e);
                },
            };
            x = add_vec(&x, &dn);
            proof {
                assert(self.mat_ok(self.wq) && self.mat_ok(self.wk) && self.mat_ok(self.wv)
                    && self.mat_ok(self.wo) && self.mat_ok(self.w1) && self.mat_ok(self.w2)
                    && self.mat_ok(self.w3));
                assert(view_int(gg@) == spec_gate_vec(
                    old(self).spec_mv(old(self).w1, spec_norm(x1v)),
                    old(self).spec_mv(old(self).w3, spec_norm(x1v))));
                assert(view_int(x@) == spec_add_vec(x1v,
                    old(self).spec_mv(old(self).w2, view_int(gg@))));
                assert(view_int(x@) == old(self).spec_layer(x_l, kh, vh, pos as int));
                assert(kh == mat_view(old(self).caches@[l as int].keys@).push(
                    old(self).spec_kproj(x_l, pos as int)));
                assert(vh == mat_view(old(self).caches@[l as int].vals@).push(
                    old(self).spec_vproj(x_l)));
                assert(view_int(x@) == old(self).spec_fwd_x(token as int, pos as int,
                    (l + 1) as nat));
            }
            l += 1;
        }

        let xf = norm_fx(&x);
        let logits = match matvec(&self.bytes, self.wout.kind, self.wout.base, self.wout.rows, self.wout.cols, &xf) {
            Ok(v) => v,
            Err(e) => {
                proof {
                    assert(!self.mat_ok(self.wout));
                }
                return Err(e);
            },
        };
        proof {
            assert(self.mat_ok(self.wout));
            assert(self.projections_ok());
            assert(view_int(logits@) == old(self).spec_logits(token as int, pos as int));
        }
        Ok(logits)
    }
}

/// Fresh per-layer caches for a new session.
fn make_caches(n_layers: usize, max_seq_len: usize, entry_len: usize) -> (r: Vec<KvCache>)
    ensures
        r@.len() == n_layers,
        forall|l: int| 0 <= l < r@.len() ==> (#[trigger] r@[l]).wf(),
        forall|l: int| 0 <= l < r@.len() ==> (#[trigger] r@[l]).entry_len == entry_len,
        forall|l: int| 0 <= l < r@.len() ==> (#[trigger] r@[l]).max_seq_len == max_seq_len,
        forall|l: int| 0 <= l < r@.len() ==> (#[trigger] r@[l]).cursor() == 0,
{
    let mut out: Vec<KvCache> = Vec::new();
    let mut l: usize = 0;
    while l < n_layers
        invariant
            l <= n_layers,
            out@.len() == l,
            forall|t: int| 0 <= t < l ==> (#[trigger] out@[t]).wf(),
            forall|t: int| 0 <= t < l ==> (#[trigger] out@[t]).entry_len == entry_len,
            forall|t: int| 0 <= t < l ==> (#[trigger] out@[t]).max_seq_len == max_seq_len,
            forall|t: int| 0 <= t < l ==> (#[trigger] out@[t]).cursor() == 0,
        decreases n_layers - l,
    {
        out.push(KvCache::new(max_seq_len, entry_len));
        l += 1;
    }
    out
}

/// Build the tokenizer from the file's tokenizer section, if one is
/// present and valid: a string-array of token strings under one key, a
/// flat integer array of ranked merge triples under another, and the three
/// special ids.
fn build_tokenizer(f: &ModelFile) -> (r: Option<Tokenizer>)
    ensures
        r matches Some(t) ==> (t.wf() && !t.degraded),
{
    let ktok: Vec<u8> = vec![116u8, 111u8, 107u8, 101u8, 110u8, 115u8];
    let kmrg: Vec<u8> = vec![109u8, 101u8, 114u8, 103u8, 101u8, 115u8];
    let kbos: Vec<u8> = vec![98u8, 111u8, 115u8];
    let keos: Vec<u8> = vec![101u8, 111u8, 115u8];
    let kunk: Vec<u8> = vec![117u8, 110u8, 107u8];
    let mut tokens: Option<Vec<Vec<u8>>> = None;
    let mut merges_raw: Option<Vec<u32>> = None;
    let mut i: usize = 0;
    while i < f.metadata.len()
        decreases f.metadata@.len() - i,
    {
        if crate::tokenizer::bytes_eq(&f.metadata[i].key, &ktok) {
            match &f.metadata[i].value {
                MetaValue::StrArr(v) => {
                    if tokens.is_none() {
                        tokens = Some(clone_strs(v));
                    }
                },
                _ => {},
            }
        }
        if crate::tokenizer::bytes_eq(&f.metadata[i].key, &kmrg) {
            match &f.metadata[i].value {
                MetaValue::U32Arr(v) => {
                    if merges_raw.is_none() {
                        merges_raw = Some(clone_u32s(v));
                    }
                },
                _ => {},
            }
        }
        i += 1;
    }
    let vocab = match tokens {
        Some(v) => v,
        None => {
            return None;
        },
    };
    let flat = match merges_raw {
        Some(v) => v,
        None => Vec::new(),
    };
    if flat.len() % 3 != 0 {
        return None;
    }
    let mut merges: Vec<MergeRule> = Vec::new();
    let mut j: usize = 0;
    let nflat = flat.len();
    while nflat - j >= 3
        invariant
            j <= nflat,
            nflat == flat@.len(),
        decreases nflat - j,
    {
        merges.push(MergeRule { left: flat[j], right: flat[j + 1], result: flat[j + 2] });
        j += 3;
    }
    let bos = match lookup_u32(&f.metadata, &kbos) {
        Some(v) => v,
        None => {
            return None;
        },
    };
    let eos = match lookup_u32(&f.metadata, &keos) {
        Some(v) => v,
        None => {
            return None;
        },
    };
    let unk = match lookup_u32(&f.metadata, &kunk) {
        Some(v) => v,
        None => {
            return None;
        },
    };
    match Tokenizer::from_parts(vocab, merges, bos, eos, unk) {
        Ok(t) => Some(t),
        Err(_) => None,
    }
}

/// Copy a list of byte strings.
fn clone_strs(v: &Vec<Vec<u8>>) -> (r: Vec<Vec<u8>>)
    ensures
        r@.len() == v@.len(),
        forall|i: int| 0 <= i < v@.len() ==> (#[trigger] r@[i])@ == v@[i]@,
{
    let mut out: Vec<Vec<u8>> = Vec::new();
    let mut i: usize = 0;
    while i < v.len()
        invariant
            i <= v@.len(),
            out@.len() == i,
            forall|t: int| 0 <= t < i ==> (#[trigger] out@[t])@ == v@[t]@,
        decreases v@.len() - i,
    {
        let mut s: Vec<u8> = Vec::new();
        let mut j: usize = 0;
        while j < v[i].len()
            invariant
                i < v@.len(),
                j <= v@[i as int]@.len(),
                s@ == v@[i as int]@.take(j as int),
            decreases v@[i as int]@.len() - j,
        {
            proof {
                assert(v@[i as int]@.take(j as int).push(v@[i as int]@[j as int])
                    =~= v@[i as int]@.take(j as int + 1));
            }
            s.push(v[i][j]);
            j += 1;
        }
        proof {
            assert(v@[i as int]@.take(v@[i as int]@.len() as int) =~= v@[i as int]@);
        }
        out.push(s);
        i += 1;
    }
    out
}

/// Copy a list of integers.
fn clone_u32s(v: &Vec<u32>) -> (r: Vec<u32>)
    ensures
        r@ == v@,
{
    let mut out: Vec<u32> = Vec::new();
    let mut i: usize = 0;
    while i < v.len()
        invariant
            i <= v@.len(),
            out@ == v@.take(i as int),
        decreases v@.len() - i,
    {
        proof {
            assert(v@.take(i as int).push(v@[i as int]) =~= v@.take(i as int + 1));
        }
        out.push(v[i]);
        i += 1;
    }
    proof {
        assert(v@.take(v@.len() as int) =~= v@);
    }
    out
}

impl BrainEngine {
    /// A fresh engine with no model loaded.
    pub fn new(config: BrainConfig) -> (r: BrainEngine)
        ensures
            r.config == config,
            r.model is None,
    {
        BrainEngine { config, model: None }
    }

    /// Whether a model is loaded.
    pub fn is_loaded(&self) -> (r: bool)
        ensures
            r == self.model is Some,
    {
        self.model.is_some()
    }

    /// The engine configuration.
    pub fn config(&self) -> (r: &BrainConfig)
        ensures
            r == self.config,
    {
        &self.config
    }

    /// Load a model from the raw container bytes under the stock
    /// configuration.
    pub fn load(data: Vec<u8>) -> (r: Result<BrainEngine, BrainError>)
        ensures
            r matches Ok(e) ==> ((e.model matches Some(m) && m.wf() && m.aligned(0))
                && e.config.threads == 4 && e.config.max_tokens == 256
                && e.config.context_length == 2048 && e.config.temperature == 45875
                && e.config.top_p == 58982 && !e.config.json_mode && e.config.seed == 42),
            !spec_header_ok(data@) ==> r is Err,
    {
        let mut engine = BrainEngine::new(BrainConfig::default());
        match engine.load_model(data) {
            Ok(()) => Ok(engine),
            Err(e) => Err(e),
        }
    }

    /// Load a model from the raw container bytes: parse and validate the
    /// container, resolve the hyperparameters, build the tokenizer (or
    /// fall back to the reported byte-level one), resolve every weight
    /// matrix, and set up a fresh seeded session. A corrupted header is a
    /// format error and the engine keeps its previous state.
    pub fn load_model(&mut self, data: Vec<u8>) -> (r: Result<(), BrainError>)
        requires
            old(self).config.wf(),
        ensures
            final(self).config == old(self).config,
            r is Ok ==> (final(self).model matches Some(m) && m.wf() && m.aligned(0)
                && m.bytes@ == data@ && m.file.wf() && m.file.file_len == data@.len()
                && (spec_arch_keys(m.file.metadata@) matches Some(k)
                    && m.params.dim == k.0 && m.params.n_layers == k.1
                    && m.params.n_heads == k.2 && m.params.n_kv_heads == k.3
                    && m.params.vocab_size == k.4 && m.params.max_seq_len == k.5)
                && m.name@ == (match spec_lookup_str(m.file.metadata@,
                    seq![110u8, 97u8, 109u8, 101u8]) {
                    Some(v) => v,
                    None => Seq::<u8>::empty(),
                })
                && m.window.view_ids() == Seq::<u32>::empty()
                && m.sampler.rng.view_state() == (if old(self).config.seed == 0 {
                    0x9e3779b97f4a7c15u64
                } else {
                    old(self).config.seed
                })),
            r is Err ==> final(self).model == old(self).model,
            !spec_header_ok(data@) ==> r === Err::<(), BrainError>(BrainError::Format),
    {
        let file = match parse_model_file(&data) {
            Ok(f) => f,
            Err(e) => {
                return Err(e);
            },
        };
        let params = match ModelParams::from_metadata(&file) {
            Ok(p) => p,
            Err(e) => {
                return Err(e);
            },
        };
        let tok = match build_tokenizer(&file) {
            Some(t) => t,
            None => Tokenizer::fallback(),
        };
        if tok.degraded {
            // The byte-level fallback carries its own 259-token vocabulary;
            // the model must be able to host at least those ids.
            if (params.vocab_size as usize) < 259 {
                return Err(BrainError::Config);
            }
        } else {
            if tok.vocab_size() != params.vocab_size as usize {
                return Err(BrainError::Config);
            }
        }
        let dim = params.dim;
        proof {
            assert(params.n_kv_heads * params.head_dim <= 1024 * 16384) by (nonlinear_arith)
                requires
                    0 < params.n_kv_heads <= 1024,
                    0 < params.head_dim <= 16384;
            assert(0 < params.n_kv_heads * params.head_dim) by (nonlinear_arith)
                requires
                    0 < params.n_kv_heads,
                    0 < params.head_dim;
        }
        let kvd32: u32 = params.n_kv_heads * params.head_dim;
        let blen = data.len();

        let n_emb: Vec<u8> = vec![101u8, 109u8, 98u8];
        let n_wq: Vec<u8> = vec![119u8, 113u8];
        let n_wk: Vec<u8> = vec![119u8, 107u8];
        let n_wv: Vec<u8> = vec![119u8, 118u8];
        let n_wo: Vec<u8> = vec![119u8, 111u8];
        let n_w1: Vec<u8> = vec![119u8, 49u8];
        let n_w2: Vec<u8> = vec![119u8, 50u8];
        let n_w3: Vec<u8> = vec![119u8, 51u8];
        let n_out: Vec<u8> = vec![111u8, 117u8, 116u8];

        let emb = match self.resolve_mat(&file, &data, &n_emb, params.vocab_size, dim) {
            Ok(m) => m,
            Err(e) => {
                return Err(e);
            },
        };
        let wq = match self.resolve_mat(&file, &data, &n_wq, dim, dim) {
            Ok(m) => m,
            Err(e) => {
                return Err(e);
            },
        };
        let wk = match self.resolve_mat(&file, &data, &n_wk, kvd32, dim) {
            Ok(m) => m,
            Err(e) => {
                return Err(e);
            },
        };
        let wv = match self.resolve_mat(&file, &data, &n_wv, kvd32, dim) {
            Ok(m) => m,
            Err(e) => {
                return Err(e);
            },
        };
        let wo = match self.resolve_mat(&file, &data, &n_wo, dim, dim) {
            Ok(m) => m,
            Err(e) => {
                return Err(e);
            },
        };
        // The hidden width comes from the stored shape of the first
        // feed-forward matrix.
        let hidden: u32 = match find_tensor(&file.tensors, &n_w1) {
            Some(i) => {
                if file.tensors[i].shape.len() == 2 {
                    file.tensors[i].shape[0]
                } else {
                    return Err(BrainError::Format);
                }
            },
            None => {
                return Err(BrainError::Format);
            },
        };
        if hidden == 0 {
            return Err(BrainError::Format);
        }
        let w1 = match self.resolve_mat(&file, &data, &n_w1, hidden, dim) {
            Ok(m) => m,
            Err(e) => {
                return Err(e);
            },
        };
        let w2 = match self.resolve_mat(&file, &data, &n_w2, dim, hidden) {
            Ok(m) => m,
            Err(e) => {
                return Err(e);
            },
        };
        let w3 = match self.resolve_mat(&file, &data, &n_w3, hidden, dim) {
            Ok(m) => m,
            Err(e) => {
                return Err(e);
            },
        };
        let wout = match self.resolve_mat(&file, &data, &n_out, params.vocab_size, dim) {
            Ok(m) => m,
            Err(e) => {
                return Err(e);
            },
        };

        // Attention scale: one over the square root of the head width.
        let hdi: i64 = params.head_dim as i64;
        let s = isqrt64(hdi * (FX_ONE * FX_ONE));
        proof {
            assert(hdi * (FX_ONE * FX_ONE) >= FX_ONE * FX_ONE) by (nonlinear_arith)
                requires hdi >= 1;
            assert(s >= FX_ONE) by (nonlinear_arith)
                requires
                    (s + 1) * (s + 1) > hdi as int * (FX_ONE * FX_ONE),
                    hdi as int * (FX_ONE * FX_ONE) >= FX_ONE * FX_ONE,
                    s >= 0;
            assert((FX_ONE as int * FX_ONE) / (s as int) <= FX_ONE) by (nonlinear_arith)
                requires s as int >= FX_ONE;
            assert((FX_ONE as int * FX_ONE) / (s as int) >= 1) by (nonlinear_arith)
                requires
                    FX_ONE <= s as int,
                    s as int * s as int <= hdi as int * (FX_ONE * FX_ONE),
                    hdi as int <= 16384,
                    0 < s as int;
        }
        let att_scale: i64 = (FX_ONE * FX_ONE) / s;

        let caches = make_caches(params.n_layers as usize, params.max_seq_len as usize, (kvd32) as usize);
        let sc = SamplerConfig {
            temperature: self.config.temperature,
            top_p: self.config.top_p,
            top_k: 40,
            repeat_penalty: 72090,
            repeat_last_n: 64,
        };
        let sampler = Sampler::new(sc, self.config.seed);
        let window = SamplerState::new(64);
        let kname: Vec<u8> = vec![110u8, 97u8, 109u8, 101u8];
        proof {
            assert(kname@ =~= seq![110u8, 97u8, 109u8, 101u8]);
        }
        let name: Vec<u8> = match lookup_str(&file.metadata, &kname) {
            Some(v) => v,
            None => Vec::new(),
        };

        self.model = Some(LoadedModel {
            bytes: data,
            file,
            params,
            tok,
            caches,
            sampler,
            window,
            emb,
            wq,
            wk,
            wv,
            wo,
            w1,
            w2,
            w3,
            wout,
            att_scale,
            name,
        });
        Ok(())
    }

    /// Resolve one named tensor to a matrix handle of the wanted shape.
    fn resolve_mat(&self, file: &ModelFile, data: &Vec<u8>, name: &Vec<u8>, rows: u32, cols: u32)
        -> (r: Result<Mat, BrainError>)
        requires
            file.wf(),
            file.file_len == data@.len(),
            data@.len() <= 0x4000_0000,
            0 < rows,
            0 < cols,
        ensures
            r matches Ok(m) ==> (mat_wf(m, data@.len() as int) && m.rows == rows && m.cols == cols),
            r is Err ==> r === Err::<Mat, BrainError>(BrainError::Format),
    {
        match find_tensor(&file.tensors, name) {
            Some(i) => {
                proof {
                    assert(crate::format::spec_desc_ok(file.tensors@[i as int], file.file_len as int));
                }
                mat_from_desc(&file.tensors[i], rows, cols, data.len())
            },
            None => Err(BrainError::Format),
        }
    }

    /// Start a fresh session on the loaded model: empty caches, an empty
    /// recent-id window, and the sampler re-seeded from the configuration.
    /// The loaded weights stay untouched.
    pub fn reset_session(&mut self) -> (r: Result<(), BrainError>)
        requires
            old(self).model matches Some(m0) ==> m0.wf(),
        ensures
            final(self).config == old(self).config,
            old(self).model is None ==> r === Err::<(), BrainError>(BrainError::ModelNotLoaded),
            old(self).model matches Some(m0) ==> (r is Ok
                && (final(self).model matches Some(m) && m.wf() && m.aligned(0)
                    && m.window.view_ids() == Seq::<u32>::empty()
                    && m.sampler.config == m0.sampler.config
                    && m.sampler.rng.view_state() == (if old(self).config.seed == 0 {
                        0x9e3779b97f4a7c15u64
                    } else {
                        old(self).config.seed
                    })
                    && m.tok == m0.tok && m.params == m0.params && m.bytes == m0.bytes
                    && m.file == m0.file && m.name == m0.name && m.emb == m0.emb
                    && m.wq == m0.wq && m.wk == m0.wk && m.wv == m0.wv && m.wo == m0.wo
                    && m.w1 == m0.w1 && m.w2 == m0.w2 && m.w3 == m0.w3
                    && m.wout == m0.wout && m.att_scale == m0.att_scale)),
    {
        let seed = self.config.seed;
        match &mut self.model {
            None => Err(BrainError::ModelNotLoaded),
            Some(m) => {
                let n_layers = m.params.n_layers as usize;
                let max_seq = m.params.max_seq_len as usize;
                proof {
                    assert(m.params.n_kv_heads * m.params.head_dim <= 1024 * 16384)
                        by (nonlinear_arith)
                        requires
                            0 < m.params.n_kv_heads <= 1024,
                            0 < m.params.head_dim <= 16384;
                }
                let kvd = (m.params.n_kv_heads * m.params.head_dim) as usize;
                proof {
                    assert(kvd == m.kv_dim());
                }
                m.caches = make_caches(n_layers, max_seq, kvd);
                m.window = SamplerState::new(64);
                m.sampler = Sampler::new(m.sampler.config, seed);
                Ok(())
            },
        }
    }

    /// Generate a completion for the prompt, at most `max_tokens` tokens
    /// (further capped by the configured budget). The returned text is
    /// exactly the decoding of the returned ids, each of which is a valid
    /// vocabulary id; exhausting the context mid-generation still returns
    /// the partial text, marked with the capacity stop reason, and a fresh
    /// session on the same engine can continue.
    pub fn generate(&mut self, prompt: &Vec<u8>, max_tokens: u32) -> (r: Result<Generation, BrainError>)
        requires
            old(self).model matches Some(m) ==> (m.wf() && m.aligned(
                m.caches@[0].cursor() as int)),
        ensures
            final(self).config == old(self).config,
            old(self).model is None <==> r === Err::<Generation, BrainError>(
                BrainError::ModelNotLoaded),
            r matches Ok(g) ==> (final(self).model matches Some(m)
                && g.text@ == spec_concat(m.tok.vocab_view(), g.ids@)
                && (forall|i: int| 0 <= i < g.ids@.len()
                    ==> (#[trigger] g.ids@[i]) < m.params.vocab_size)
                && (forall|i: int| 0 <= i < g.ids@.len()
                    ==> (#[trigger] g.ids@[i]) != m.tok.eos_id)
                && g.ids@.len() <= max_tokens
                && g.ids@.len() <= old(self).config.max_tokens
                && (g.stopped is Capacity ==> m.caches@[0].cursor()
                    == m.params.max_seq_len)
                && (g.stopped is Budget ==> g.ids@.len() == spec_full_run_count(
                    (if max_tokens < old(self).config.max_tokens { max_tokens } else {
                        old(self).config.max_tokens
                    }) as int,
                    1 + spec_encode(m.tok, prompt@).len() as int))
                && m.window.view_ids() == spec_window_after(
                    old(self).model.unwrap().window.view_ids(),
                    old(self).model.unwrap().window.cap as int, g.ids@)),
            final(self).model matches Some(m2) ==> m2.wf(),
            old(self).model matches Some(m0) ==> (final(self).model matches Some(m2)
                ==> (m2.tok == m0.tok && m2.params == m0.params && m2.bytes == m0.bytes
                    && m2.file == m0.file && m2.name == m0.name && m2.emb == m0.emb
                    && m2.wq == m0.wq && m2.wk == m0.wk && m2.wv == m0.wv && m2.wo == m0.wo
                    && m2.w1 == m0.w1 && m2.w2 == m0.w2 && m2.w3 == m0.w3
                    && m2.wout == m0.wout && m2.att_scale == m0.att_scale)),
            old(self).model matches Some(m0) ==> (m0.weights_ok() ==> r is Ok),
            r is Ok ==> (final(self).model matches Some(m2) && m2.wf()
                && m2.aligned(m2.caches@[0].cursor() as int)),
            r is Err ==> (r === Err::<Generation, BrainError>(BrainError::ModelNotLoaded)
                || r === Err::<Generation, BrainError>(BrainError::Format)),
            old(self).model is Some ==> final(self).model is Some,
    {
        let budget: usize = if max_tokens < self.config.max_tokens {
            max_tokens as usize
        } else {
            self.config.max_tokens as usize
        };
        let taken = self.model.take();
        match taken {
            None => Err(BrainError::ModelNotLoaded),
            Some(mut m) => {
                let mut input: Vec<u32> = Vec::new();
                input.push(m.tok.bos_id);
                let encoded = m.tok.encode(prompt);
                let mut ei: usize = 0;
                proof {
                    assert(m.tok.vocab@.len() <= m.params.vocab_size);
                }
                proof {
                    assert(input@ =~= seq![m.tok.bos_id] + encoded@.take(0));
                }
                while ei < encoded.len()
                    invariant
                        ei <= encoded@.len(),
                        m.tok.vocab@.len() <= m.params.vocab_size,
                        input@ == seq![m.tok.bos_id] + encoded@.take(ei as int),
                        forall|t: int| 0 <= t < encoded@.len()
                            ==> (#[trigger] encoded@[t]) < m.tok.vocab@.len(),
                        forall|t: int| 0 <= t < input@.len()
                            ==> (#[trigger] input@[t]) < m.params.vocab_size,
                    decreases encoded@.len() - ei,
                {
                    proof {
                        assert((seq![m.tok.bos_id] + encoded@.take(ei as int)).push(
                            encoded@[ei as int])
                            =~= seq![m.tok.bos_id] + encoded@.take(ei as int + 1));
                    }
                    input.push(encoded[ei]);
                    ei += 1;
                }
                proof {
                    assert(encoded@.take(encoded@.len() as int) =~= encoded@);
                }

                let mut out_ids: Vec<u32> = Vec::new();
                let mut stopped = StopReason::Budget;
                let mut step: usize = 0;
                let mut done = false;
                let ghost w0 = m.window.view_ids();
                let ghost cap0 = m.window.cap as int;
                proof {
                    assert(input@ =~= seq![m.tok.bos_id] + encoded@);
                }
                while step < budget && !done
                    invariant
                        old(self).model is Some,
                        self.config == old(self).config,
                        self.model is None,
                        step <= budget,
                        budget <= max_tokens,
                        budget <= old(self).config.max_tokens,
                        budget == (if max_tokens < old(self).config.max_tokens { max_tokens } else {
                            old(self).config.max_tokens
                        }) as int,
                        input@.len() == 1 + spec_encode(m.tok, prompt@).len(),
                        input@.len() >= 1,
                        !done ==> stopped is Budget,
                        done ==> (stopped is Capacity || stopped is Eos),
                        !done ==> out_ids@.len() == spec_full_run_count(step as int, input@.len() as int),
                        !done && step >= input@.len() ==> out_ids@.len() > 0,
                        w0 == old(self).model.unwrap().window.view_ids(),
                        cap0 == old(self).model.unwrap().window.cap as int,
                        m.window.cap as int == cap0,
                        m.window.view_ids() == spec_window_after(w0, cap0, out_ids@),
                        m.wf(),
                        m.aligned(m.caches@[0].cursor() as int),
                        m.tok == old(self).model.unwrap().tok,
                        m.params == old(self).model.unwrap().params,
                        m.bytes == old(self).model.unwrap().bytes,
                        m.file == old(self).model.unwrap().file,
                        m.name == old(self).model.unwrap().name,
                        m.emb == old(self).model.unwrap().emb,
                        m.wq == old(self).model.unwrap().wq,
                        m.wk == old(self).model.unwrap().wk,
                        m.wv == old(self).model.unwrap().wv,
                        m.wo == old(self).model.unwrap().wo,
                        m.w1 == old(self).model.unwrap().w1,
                        m.w2 == old(self).model.unwrap().w2,
                        m.w3 == old(self).model.unwrap().w3,
                        m.wout == old(self).model.unwrap().wout,
                        m.att_scale == old(self).model.unwrap().att_scale,
                        m.caches@.len() > 0,
                        out_ids@.len() <= step,
                        forall|t: int| 0 <= t < input@.len()
                            ==> (#[trigger] input@[t]) < m.params.vocab_size,
                        forall|t: int| 0 <= t < out_ids@.len()
                            ==> (#[trigger] out_ids@[t]) < m.params.vocab_size,
                        forall|t: int| 0 <= t < out_ids@.len()
                            ==> (#[trigger] out_ids@[t]) != m.tok.eos_id,
                        stopped is Capacity ==> m.caches@[0].cursor()
                            == m.params.max_seq_len,
                    decreases budget - step, (if done { 0int } else { 1int }),
                {
                    let pos = m.caches[0].len();
                    if pos >= m.params.max_seq_len as usize {
                        proof {
                            assert(m.caches@[0].cursor() <= m.params.max_seq_len);
                        }
                        stopped = StopReason::Capacity;
                        done = true;
                        continue;
                    }
                    let have_token: bool = step < input.len() || out_ids.len() > 0;
                    if !have_token {
                        proof {
                            assert(false);
                        }
                        done = true;
                        continue;
                    }
                    let token: u32 = if step < input.len() {
                        input[step]
                    } else {
                        out_ids[out_ids.len() - 1]
                    };
                    let logits = match m.forward(token, pos) {
                        Ok(v) => v,
                        Err(e) => {
                            proof {
                                if old(self).model.unwrap().weights_ok() {
                                    assert(m.emb_row_ok(token as int));
                                    assert(m.projections_ok());
                                    assert(false);
                                }
                            }
                            self.model = Some(m);
                            return Err(e);
                        },
                    };
                    if step + 1 >= input.len() {
                        let next = m.sampler.sample(&logits, &m.window);
                        if next == m.tok.eos_id {
                            stopped = StopReason::Eos;
                            done = true;
                        } else {
                            proof {
                                lemma_window_snoc(w0, cap0, out_ids@, next);
                            }
                            out_ids.push(next);
                            m.window.push(next);
                            step += 1;
                        }
                    } else {
                        step += 1;
                    }
                }
                let text = m.tok.decode(&out_ids);
                self.model = Some(m);
                Ok(Generation { text, ids: out_ids, stopped })
            },
        }
    }

    /// Grammar-constrained generation: before each sampling step the ids
    /// whose token strings would reject the automaton are masked to the
    /// lowest logit; every token entering the output is accepted by the
    /// automaton, so the state after each step is the automaton run over
    /// the decoded output, which therefore revalidates standalone as
    /// non-rejecting. A state from which no vocabulary id is acceptable
    /// is an unrecoverable deadlock and aborts with the grammar error; a
    /// terminal state ends generation regardless of remaining budget.
    pub fn generate_structured(&mut self, prompt: &Vec<u8>, g: &Grammar, max_tokens: u32) -> (r: Result<Generation, BrainError>)
        requires
            g.wf(),
            old(self).model matches Some(m) ==> (m.wf() && m.aligned(
                m.caches@[0].cursor() as int)),
        ensures
            final(self).config == old(self).config,
            old(self).model is None <==> r === Err::<Generation, BrainError>(
                BrainError::ModelNotLoaded),
            final(self).model matches Some(m2) ==> m2.wf(),
            old(self).model is Some ==> final(self).model is Some,
            r matches Ok(gen) ==> (final(self).model matches Some(m)
                && gen.text@ == spec_concat(m.tok.vocab_view(), gen.ids@)
                && (forall|i: int| 0 <= i < gen.ids@.len()
                    ==> (#[trigger] gen.ids@[i]) < m.params.vocab_size)
                && gen.ids@.len() <= max_tokens
                && gen.ids@.len() <= old(self).config.max_tokens
                && g.spec_run(g.start, spec_concat(m.tok.vocab_view(), gen.ids@))
                    < g.n_states
                && (gen.stopped is Budget ==> gen.ids@.len() == spec_full_run_count(
                    (if max_tokens < old(self).config.max_tokens { max_tokens } else {
                        old(self).config.max_tokens
                    }) as int,
                    1 + spec_encode(m.tok, prompt@).len() as int))
                && (gen.stopped is Capacity ==> m.caches@[0].cursor()
                    == m.params.max_seq_len)
                && (gen.stopped is Terminal ==> g.terminal@[g.spec_run(g.start,
                    spec_concat(m.tok.vocab_view(), gen.ids@)) as int])),
            r is Err ==> (r === Err::<Generation, BrainError>(BrainError::ModelNotLoaded)
                || r === Err::<Generation, BrainError>(BrainError::Format)
                || r === Err::<Generation, BrainError>(BrainError::Grammar)),
    {
        let budget: usize = if max_tokens < self.config.max_tokens {
            max_tokens as usize
        } else {
            self.config.max_tokens as usize
        };
        let taken = self.model.take();
        match taken {
            None => Err(BrainError::ModelNotLoaded),
            Some(mut m) => {
                let ghost vv = m.tok.vocab_view();
                let mut input: Vec<u32> = Vec::new();
                input.push(m.tok.bos_id);
                let encoded = m.tok.encode(prompt);
                let mut ei: usize = 0;
                proof {
                    assert(m.tok.vocab@.len() <= m.params.vocab_size);
                }
                proof {
                    assert(input@ =~= seq![m.tok.bos_id] + encoded@.take(0));
                }
                while ei < encoded.len()
                    invariant
                        ei <= encoded@.len(),
                        m.tok.vocab@.len() <= m.params.vocab_size,
                        input@ == seq![m.tok.bos_id] + encoded@.take(ei as int),
                        forall|t: int| 0 <= t < encoded@.len()
                            ==> (#[trigger] encoded@[t]) < m.tok.vocab@.len(),
                        forall|t: int| 0 <= t < input@.len()
                            ==> (#[trigger] input@[t]) < m.params.vocab_size,
                    decreases encoded@.len() - ei,
                {
                    proof {
                        assert((seq![m.tok.bos_id] + encoded@.take(ei as int)).push(
                            encoded@[ei as int])
                            =~= seq![m.tok.bos_id] + encoded@.take(ei as int + 1));
                    }
                    input.push(encoded[ei]);
                    ei += 1;
                }
                proof {
                    assert(encoded@.take(encoded@.len() as int) =~= encoded@);
                }

                let mut gs = GrammarState::new(g);
                let mut out_ids: Vec<u32> = Vec::new();
                let mut stopped = StopReason::Budget;
                let mut step: usize = 0;
                let mut done = false;
                proof {
                    assert(spec_concat(vv, Seq::<u32>::empty()) =~= Seq::<u8>::empty());
                }
                while step < budget && !done
                    invariant
                        old(self).model is Some,
                        self.config == old(self).config,
                        self.model is None,
                        step <= budget,
                        budget <= max_tokens,
                        budget <= old(self).config.max_tokens,
                        budget == (if max_tokens < old(self).config.max_tokens { max_tokens } else {
                            old(self).config.max_tokens
                        }) as int,
                        input@.len() == 1 + spec_encode(m.tok, prompt@).len(),
                        input@.len() >= 1,
                        !done ==> stopped is Budget,
                        done ==> (stopped is Capacity || stopped is Eos
                            || stopped is Terminal),
                        !done ==> out_ids@.len() == spec_full_run_count(step as int, input@.len() as int),
                        !done && step >= input@.len() ==> out_ids@.len() > 0,
                        stopped is Capacity ==> m.caches@[0].cursor()
                            == m.params.max_seq_len,
                        done && stopped is Terminal ==> g.terminal@[gs.state as int],
                        g.wf(),
                        m.wf(),
                        m.aligned(m.caches@[0].cursor() as int),
                        m.tok == old(self).model.unwrap().tok,
                        m.params == old(self).model.unwrap().params,
                        m.caches@.len() > 0,
                        vv == m.tok.vocab_view(),
                        out_ids@.len() <= step,
                        forall|t: int| 0 <= t < input@.len()
                            ==> (#[trigger] input@[t]) < m.params.vocab_size,
                        forall|t: int| 0 <= t < out_ids@.len()
                            ==> (#[trigger] out_ids@[t]) < m.params.vocab_size,
                        gs.state < g.n_states,
                        gs.state == g.spec_run(g.start, spec_concat(vv, out_ids@)),
                    decreases budget - step, (if done { 0int } else { 1int }),
                {
                    let pos = m.caches[0].len();
                    if pos >= m.params.max_seq_len as usize {
                        proof {
                            assert(m.caches@[0].cursor() <= m.params.max_seq_len);
                        }
                        stopped = StopReason::Capacity;
                        done = true;
                        continue;
                    }
                    let have_token: bool = step < input.len() || out_ids.len() > 0;
                    if !have_token {
                        proof {
                            assert(false);
                        }
                        done = true;
                        continue;
                    }
                    let token: u32 = if step < input.len() {
                        input[step]
                    } else {
                        out_ids[out_ids.len() - 1]
                    };
                    let logits = match m.forward(token, pos) {
                        Ok(v) => v,
                        Err(e) => {
                            self.model = Some(m);
                            return Err(e);
                        },
                    };
                    if step + 1 >= input.len() {
                        // Which ids keep the automaton non-rejecting; ids
                        // beyond the tokenizer's vocabulary never do, and
                        // empty token strings are excluded so constrained
                        // decoding always makes progress.
                        let base_allowed = allowed_mask(g, gs.state, &m.tok.vocab);
                        let mut allowed: Vec<bool> = Vec::new();
                        let mut aj: usize = 0;
                        while aj < logits.len()
                            invariant
                                aj <= logits@.len(),
                                g.wf(),
                                allowed@.len() == aj,
                                base_allowed@.len() == m.tok.vocab@.len(),
                                forall|t: int| 0 <= t < m.tok.vocab@.len()
                                    ==> #[trigger] base_allowed@[t]
                                        == (g.spec_run(gs.state, m.tok.vocab@[t]@)
                                            < g.n_states),
                                forall|t: int| 0 <= t < aj ==> (#[trigger] allowed@[t]
                                    ==> (t < m.tok.vocab@.len()
                                        && m.tok.vocab@[t]@.len() > 0
                                        && g.spec_run(gs.state, m.tok.vocab@[t]@)
                                            < g.n_states)),
                            decreases logits@.len() - aj,
                        {
                            let ok = aj < m.tok.vocab.len() && m.tok.vocab[aj].len() > 0
                                && base_allowed[aj];
                            allowed.push(ok);
                            aj += 1;
                        }
                        let mut first_allowed: usize = 0;
                        let mut any_allowed = false;
                        let mut sc: usize = 0;
                        while sc < allowed.len()
                            invariant
                                sc <= allowed@.len(),
                                any_allowed ==> (first_allowed < allowed@.len()
                                    && allowed@[first_allowed as int]),
                            decreases allowed@.len() - sc,
                        {
                            if !any_allowed && allowed[sc] {
                                any_allowed = true;
                                first_allowed = sc;
                            }
                            sc += 1;
                        }
                        if !any_allowed {
                            // Deadlock: no vocabulary id is acceptable.
                            self.model = Some(m);
                            return Err(BrainError::Grammar);
                        }
                        let masked = mask_logits(&logits, &allowed);
                        let sampled = m.sampler.sample(&masked, &m.window);
                        if sampled == m.tok.eos_id {
                            stopped = StopReason::Eos;
                            done = true;
                            continue;
                        }
                        // The mask is soft, so fall back to an acceptable id
                        // if the draw escaped it.
                        let next: u32 = if (sampled as usize) < allowed.len()
                            && allowed[sampled as usize]
                            && (sampled as usize) < m.tok.vocab.len() {
                            sampled
                        } else {
                            first_allowed as u32
                        };
                        proof {
                            assert((next as int) < m.tok.vocab@.len());
                            assert(allowed@[next as int]);
                            assert(g.spec_run(gs.state, m.tok.vocab@[next as int]@)
                                < g.n_states);
                        }
                        let tokstr = &m.tok.vocab[next as usize];
                        let ghost pre_state = gs.state;
                        let ghost pre_text = spec_concat(vv, out_ids@);
                        let acc = gs.accept(g, tokstr);
                        proof {
                            assert(acc is Ok);
                            lemma_concat_snoc(vv, out_ids@, next);
                            assert(vv[next as int] == m.tok.vocab@[next as int]@);
                            g.lemma_run_append(g.start, pre_text, vv[next as int]);
                            assert(gs.state == g.spec_run(g.start,
                                spec_concat(vv, out_ids@.push(next))));
                        }
                        out_ids.push(next);
                        m.window.push(next);
                        step += 1;
                        if g.terminal[gs.state as usize] {
                            stopped = StopReason::Terminal;
                            done = true;
                        }
                    } else {
                        step += 1;
                    }
                }
                let text = m.tok.decode(&out_ids);
                proof {
                    assert(text@ == spec_concat(vv, out_ids@));
                }
                self.model = Some(m);
                Ok(Generation { text, ids: out_ids, stopped })
            },
        }
    }

    /// Whether the loaded model runs with the reported byte-level fallback
    /// tokenizer: a warning-level condition, queryable, never an error.
    pub fn degraded_tokenizer(&self) -> (r: bool)
        ensures
            r == (self.model matches Some(m) && m.tok.degraded),
    {
        match &self.model {
            None => false,
            Some(m) => m.tok.degraded,
        }
    }

    /// Report the loaded model: its name, file size, layer count and head
    /// count; absent when nothing is loaded.
    pub fn model_info(&self) -> (r: Option<ModelInfo>)
        ensures
            r is Some <==> self.model is Some,
            r matches Some(i) ==> (self.model matches Some(m)
                && i.name@ == m.name@
                && i.size_bytes == m.file.file_len
                && i.layer_count == m.params.n_layers
                && i.head_count == m.params.n_heads),
    {
        match &self.model {
            None => None,
            Some(m) => {
                let mut name: Vec<u8> = Vec::new();
                let mut i: usize = 0;
                while i < m.name.len()
                    invariant
                        i <= m.name@.len(),
                        name@ == m.name@.take(i as int),
                    decreases m.name@.len() - i,
                {
                    proof {
                        assert(m.name@.take(i as int).push(m.name@[i as int])
                            =~= m.name@.take(i as int + 1));
                    }
                    name.push(m.name[i]);
                    i += 1;
                }
                proof {
                    assert(m.name@.take(m.name@.len() as int) =~= m.name@);
                }
                Some(ModelInfo {
                    name,
                    size_bytes: m.file.file_len,
                    layer_count: m.params.n_layers,
                    head_count: m.params.n_heads,
                })
            },
        }
    }
}

/// One hexadecimal digit, lower case.
pub open spec fn spec_hex_digit(x: int) -> u8 {
    if x < 10 {
        (48 + x) as u8
    } else {
        (87 + x) as u8
    }
}

/// Text escaped for a quoted field: quotes and backslashes prefixed, a
/// newline as its two-character escape, every other control byte as a
/// four-digit unicode escape, so the wrapped output is a valid quoted
/// string.
pub open spec fn spec_json_escaped(s: Seq<u8>) -> Seq<u8>
    decreases s.len(),
{
    if s.len() == 0 {
        Seq::empty()
    } else {
        (if s[0] == 34 {
            seq![92u8, 34u8]
        } else if s[0] == 92 {
            seq![92u8, 92u8]
        } else if s[0] == 10 {
            seq![92u8, 110u8]
        } else if s[0] < 32 {
            seq![92u8, 117u8, 48u8, 48u8, spec_hex_digit(s[0] as int / 16),
                spec_hex_digit(s[0] as int % 16)]
        } else {
            seq![s[0]]
        }) + spec_json_escaped(s.drop_first())
    }
}

/// The structured wrapping of a text: a one-field object holding the
/// escaped text under the fixed response key.
pub open spec fn spec_json_wrap(t: Seq<u8>) -> Seq<u8> {
    seq![123u8, 34u8, 114u8, 101u8, 115u8, 112u8, 111u8, 110u8, 115u8, 101u8, 34u8, 58u8, 34u8]
        + spec_json_escaped(t) + seq![34u8, 125u8]
}

/// Escaping distributes over pushing one byte at the end.
proof fn lemma_json_escaped_snoc(s: Seq<u8>, b: u8)
    ensures
        spec_json_escaped(s.push(b)) == spec_json_escaped(s) + spec_json_escaped(seq![b]),
    decreases s.len(),
{
    if s.len() == 0 {
        assert(s.push(b).drop_first() =~= Seq::<u8>::empty());
        assert(s.push(b)[0] == b);
        assert(spec_json_escaped(Seq::<u8>::empty()) =~= Seq::<u8>::empty());
        assert(seq![b].drop_first() =~= Seq::<u8>::empty());
        assert(seq![b][0] == b);
        assert(spec_json_escaped(s.push(b)) =~= spec_json_escaped(s) + spec_json_escaped(seq![b]));
    } else {
        assert(s.push(b)[0] == s[0]);
        assert(s.push(b).drop_first() =~= s.drop_first().push(b));
        lemma_json_escaped_snoc(s.drop_first(), b);
        assert(spec_json_escaped(s.push(b)) =~= spec_json_escaped(s) + spec_json_escaped(seq![b]));
    }
}

/// Escape a byte string for inclusion in a quoted field.
pub fn json_escape(s: &Vec<u8>) -> (r: Vec<u8>)
    ensures
        r@ == spec_json_escaped(s@),
{
    let mut out: Vec<u8> = Vec::new();
    let mut i: usize = 0;
    proof {
        assert(s@.take(0) =~= Seq::<u8>::empty());
        assert(spec_json_escaped(Seq::<u8>::empty()) =~= Seq::<u8>::empty());
    }
    while i < s.len()
        invariant
            i <= s@.len(),
            out@ == spec_json_escaped(s@.take(i as int)),
        decreases s@.len() - i,
    {
        let b = s[i];
        proof {
            lemma_json_escaped_snoc(s@.take(i as int), b);
            assert(s@.take(i as int).push(b) =~= s@.take(i as int + 1));
            assert(seq![b].drop_first() =~= Seq::<u8>::empty());
            assert(seq![b][0] == b);
            assert(spec_json_escaped(Seq::<u8>::empty()) =~= Seq::<u8>::empty());
            assert(spec_json_escaped(seq![b]) =~= (if b == 34 {
                seq![92u8, 34u8]
            } else if b == 92 {
                seq![92u8, 92u8]
            } else if b == 10 {
                seq![92u8, 110u8]
            } else if b < 32 {
                seq![92u8, 117u8, 48u8, 48u8, spec_hex_digit(b as int / 16),
                    spec_hex_digit(b as int % 16)]
            } else {
                seq![b]
            }));
        }
        if b == 34 {
            out.push(92);
            out.push(34);
        } else if b == 92 {
            out.push(92);
            out.push(92);
        } else if b == 10 {
            out.push(92);
            out.push(110);
        } else if b < 32 {
            let hi = b / 16;
            let lo = b % 16;
            out.push(92);
            out.push(117);
            out.push(48);
            out.push(48);
            out.push(if hi < 10 { 48 + hi } else { 87 + hi });
            out.push(if lo < 10 { 48 + lo } else { 87 + lo });
        } else {
            out.push(b);
        }
        proof {
            assert(out@ =~= spec_json_escaped(s@.take(i as int + 1)));
        }
        i += 1;
    }
    proof {
        assert(s@.take(s@.len() as int) =~= s@);
    }
    out
}

impl BrainEngine {
    /// Generate under the stock budget and wrap the text as a one-field
    /// structured object with the response under a fixed key, escaped:
    /// the returned bytes are exactly the wrapping of the decoding of a
    /// sequence of emitted vocabulary ids.
    pub fn generate_json(&mut self, prompt: &Vec<u8>) -> (r: Result<Vec<u8>, BrainError>)
        requires
            old(self).model matches Some(m) ==> (m.wf() && m.aligned(
                m.caches@[0].cursor() as int)),
        ensures
            final(self).config == old(self).config,
            old(self).model is None <==> r === Err::<Vec<u8>, BrainError>(
                BrainError::ModelNotLoaded),
            final(self).model matches Some(m2) ==> m2.wf(),
            r matches Ok(v) ==> (final(self).model matches Some(m2)
                && (exists|ids: Seq<u32>| v@ == #[trigger] spec_json_wrap(
                    spec_concat(m2.tok.vocab_view(), ids))
                    && (forall|i: int| 0 <= i < ids.len()
                        ==> ids[i] < m2.params.vocab_size && ids[i] != m2.tok.eos_id)
                    && ids.len() <= old(self).config.max_tokens)),
    {
        let max = self.config.max_tokens;
        let g = match self.generate(prompt, max) {
            Ok(g) => g,
            Err(e) => {
                return Err(e);
            },
        };
        let mut out: Vec<u8> = Vec::new();
        // {"response":"
        out.push(123);
        out.push(34);
        out.push(114);
        out.push(101);
        out.push(115);
        out.push(112);
        out.push(111);
        out.push(110);
        out.push(115);
        out.push(101);
        out.push(34);
        out.push(58);
        out.push(34);
        let esc = json_escape(&g.text);
        let ghost prefix = out@;
        let mut i: usize = 0;
        while i < esc.len()
            invariant
                i <= esc@.len(),
                out@ == prefix + esc@.take(i as int),
            decreases esc@.len() - i,
        {
            proof {
                assert((prefix + esc@.take(i as int)).push(esc@[i as int])
                    =~= prefix + esc@.take(i as int + 1));
            }
            out.push(esc[i]);
            i += 1;
        }
        out.push(34);
        out.push(125);
        proof {
            assert(esc@.take(esc@.len() as int) =~= esc@);
            assert(prefix =~= seq![123u8, 34u8, 114u8, 101u8, 115u8, 112u8, 111u8, 110u8,
                115u8, 101u8, 34u8, 58u8, 34u8]);
            assert(out@ =~= spec_json_wrap(g.text@));
        }
        Ok(out)
    }
}

} // verus!
