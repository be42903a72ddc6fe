//! Token sampler: reduces a logits vector plus a window of recently emitted
//! ids to one next token id.
//!
//! Order of operations: repetition penalty, temperature scaling (zero
//! temperature short-circuits to arg-max), top-k filter, nucleus (top-p)
//! filter, then one draw from the resulting categorical distribution using a
//! seeded deterministic pseudo-random source. The result is always a valid id
//! below the vocabulary size.

use vstd::prelude::*;
use crate::fixed::{FX_ONE, FX_MAX, fx_in_range, spec_clamp_fx, spec_mul_fx, spec_div_fx, spec_exp_fx, mul_fx, div_fx, exp_fx};

verus! {

/// Sampling configuration; fixed-point fields are scaled by FX_ONE.
#[derive(Clone, Copy, Debug)]
pub struct SamplerConfig {
    /// Softmax temperature; zero selects pure arg-max.
    pub temperature: i64,
    /// Nucleus threshold; FX_ONE or more keeps every candidate.
    pub top_p: i64,
    /// Number of highest-ranked logits kept; zero keeps all.
    pub top_k: u32,
    /// Divisor applied to the logit of a recently emitted id.
    pub repeat_penalty: i64,
    /// Capacity of the recent-id window.
    pub repeat_last_n: u32,
}

impl SamplerConfig {
    /// The configuration values the sampler arithmetic relies on.
    pub open spec fn wf(self) -> bool {
        &&& 0 <= self.temperature <= FX_MAX
        &&& 0 <= self.top_p <= FX_ONE
        &&& 0 < self.repeat_penalty <= FX_MAX
    }
}

/// Fixed-capacity rolling window of recently emitted token ids; the oldest
/// entry is evicted first. Mutated once per emitted token.
pub struct SamplerState {
    pub ids: Vec<u32>,
    pub cap: usize,
}

impl SamplerState {
    /// The window never exceeds its capacity.
    pub open spec fn wf(self) -> bool {
        self.ids@.len() <= self.cap
    }

    /// The recent ids, oldest first.
    pub open spec fn view_ids(self) -> Seq<u32> {
        self.ids@
    }

    /// An empty window of the given capacity.
    pub fn new(cap: usize) -> (r: SamplerState)
        ensures
            r.wf(),
            r.view_ids() == Seq::<u32>::empty(),
            r.cap == cap,
    {
        SamplerState { ids: Vec::new(), cap }
    }

    /// Record one emitted id, evicting the oldest entry when full.
    pub fn push(&mut self, id: u32)
        requires
            old(self).wf(),
        ensures
            final(self).wf(),
            final(self).cap == old(self).cap,
            old(self).cap == 0 ==> final(self).view_ids() == old(self).view_ids(),
            old(self).ids@.len() < old(self).cap ==> final(self).view_ids() == old(self).view_ids().push(id),
            old(self).cap > 0 && old(self).ids@.len() >= old(self).cap ==> final(self).view_ids()
                == old(self).view_ids().skip(1).push(id),
    {
        if self.cap == 0 {
            return;
        }
        if self.ids.len() >= self.cap {
            self.ids.remove(0);
            assert(self.ids@.len() < self.cap);
        }
        self.ids.push(id);
    }
}

/// Deterministic xorshift pseudo-random source; the seed fully determines
/// the stream.
pub struct Rng64 {
    pub state: u64,
}

/// One xorshift step of the generator state.
pub open spec fn spec_rng_step(s: u64) -> u64 {
    let a = s ^ (s << 13);
    let b = a ^ (a >> 7);
    b ^ (b << 17)
}

impl Rng64 {
    /// The current generator state.
    pub open spec fn view_state(self) -> u64 {
        self.state
    }

    /// Seeded construction; a zero seed is nudged to a fixed nonzero value
    /// so the xorshift state never collapses.
    pub fn new(seed: u64) -> (r: Rng64)
        ensures
            r.view_state() == (if seed == 0 { 0x9e3779b97f4a7c15u64 } else { seed }),
    {
        Rng64 { state: if seed == 0 { 0x9e3779b97f4a7c15u64 } else { seed } }
    }

    /// Draw the next value of the stream.
    pub fn next_u64(&mut self) -> (r: u64)
        ensures
            r == spec_rng_step(old(self).view_state()),
            final(self).view_state() == spec_rng_step(old(self).view_state()),
    {
        let mut s = self.state;
        s = s ^ (s << 13);
        s = s ^ (s >> 7);
        s = s ^ (s << 17);
        self.state = s;
        s
    }
}

/// Penalty applied to one logit: positive logits are divided by the penalty,
/// negative ones multiplied by it, so a repeat is discouraged regardless of
/// sign.
pub open spec fn spec_pen_one(x: int, pen: int) -> int {
    if x >= 0 {
        spec_div_fx(x, pen)
    } else {
        spec_mul_fx(x, pen)
    }
}

/// Logits after the repetition penalty over the recent-id window.
pub open spec fn spec_penalized(l: Seq<i64>, w: Seq<u32>, pen: int) -> Seq<int> {
    Seq::new(l.len(), |i: int| if w.contains(i as u32) { spec_pen_one(l[i] as int, pen) } else { l[i] as int })
}

/// Logits after division by a positive temperature.
pub open spec fn spec_tempered(l: Seq<int>, temp: int) -> Seq<int> {
    Seq::new(l.len(), |i: int| spec_div_fx(l[i], temp))
}

/// j outranks i: strictly larger logit, or an equal logit at a lower index.
pub open spec fn spec_better(s: Seq<int>, j: int, i: int) -> bool {
    s[j] > s[i] || (s[j] == s[i] && j < i)
}

/// Number of indices below n that outrank i.
pub open spec fn spec_rank_upto(s: Seq<int>, i: int, n: nat) -> int
    decreases n,
{
    if n == 0 {
        0
    } else {
        spec_rank_upto(s, i, (n - 1) as nat) + if spec_better(s, n - 1, i) { 1int } else { 0int }
    }
}

/// Rank of index i: how many indices outrank it; the arg-max has rank zero.
pub open spec fn spec_rank(s: Seq<int>, i: int) -> int {
    spec_rank_upto(s, i, s.len())
}

/// First index of the maximum over the prefix of length n.
pub open spec fn spec_argmax_upto(s: Seq<int>, n: nat) -> int
    decreases n,
{
    if n <= 1 {
        0
    } else {
        let p = spec_argmax_upto(s, (n - 1) as nat);
        if s[n - 1] > s[p] {
            n - 1
        } else {
            p
        }
    }
}

/// First index holding the maximum logit.
pub open spec fn spec_argmax(s: Seq<int>) -> int {
    spec_argmax_upto(s, s.len())
}

/// An index passes the top-k filter if fewer than k indices outrank it;
/// k == 0 disables the filter.
pub open spec fn spec_topk_keep(s: Seq<int>, i: int, k: int) -> bool {
    k == 0 || spec_rank(s, i) < k
}

/// Candidate weight before the nucleus filter: the exponential of the
/// distance to the maximum logit for surviving indices, zero elsewhere.
pub open spec fn spec_weight(s: Seq<int>, i: int, k: int) -> int {
    if spec_topk_keep(s, i, k) {
        spec_exp_fx(s[i] - s[spec_argmax(s)])
    } else {
        0
    }
}

/// Sum of the first n candidate weights.
pub open spec fn spec_wsum_upto(s: Seq<int>, k: int, n: nat) -> int
    decreases n,
{
    if n == 0 {
        0
    } else {
        spec_wsum_upto(s, k, (n - 1) as nat) + spec_weight(s, n - 1, k)
    }
}

/// Weight mass of the indices that outrank i (the mass that precedes i in
/// descending probability order).
pub open spec fn spec_mass_before_upto(s: Seq<int>, k: int, i: int, n: nat) -> int
    decreases n,
{
    if n == 0 {
        0
    } else {
        spec_mass_before_upto(s, k, i, (n - 1) as nat)
            + if spec_better(s, n - 1, i) { spec_weight(s, n - 1, k) } else { 0int }
    }
}

/// The nucleus filter keeps the smallest descending-probability prefix whose
/// cumulative weight reaches top_p of the total; the top-ranked index is
/// always kept.
pub open spec fn spec_nucleus_keep(s: Seq<int>, k: int, p: int, i: int) -> bool {
    &&& spec_topk_keep(s, i, k)
    &&& (spec_rank(s, i) == 0
        || spec_mass_before_upto(s, k, i, s.len()) < (p * spec_wsum_upto(s, k, s.len())) / (FX_ONE as int))
}

/// Final categorical weights after both filters.
pub open spec fn spec_final_weight(s: Seq<int>, k: int, p: int, i: int) -> int {
    if spec_nucleus_keep(s, k, p, i) {
        spec_exp_fx(s[i] - s[spec_argmax(s)])
    } else {
        0
    }
}

/// Sum of the first n final weights.
pub open spec fn spec_fsum_upto(s: Seq<int>, k: int, p: int, n: nat) -> int
    decreases n,
{
    if n == 0 {
        0
    } else {
        spec_fsum_upto(s, k, p, (n - 1) as nat) + spec_final_weight(s, k, p, n - 1)
    }
}

/// Walk the weights from index zero, consuming r: the picked index is the
/// first whose weight interval contains what remains of r.
pub open spec fn spec_pick_rec(w: Seq<int>, r: int) -> int
    decreases w.len(),
{
    if w.len() == 0 {
        0
    } else if w[0] > 0 && r < w[0] {
        0
    } else {
        1 + spec_pick_rec(w.drop_first(), r - w[0])
    }
}

/// The mathematical values of a fixed-point vector.
pub open spec fn view_int(v: Seq<i64>) -> Seq<int> {
    Seq::new(v.len(), |i: int| v[i] as int)
}

/// Every entry lies in the representable fixed-point range.
pub open spec fn all_in_range(s: Seq<int>) -> bool {
    forall|i: int| 0 <= i < s.len() ==> fx_in_range(#[trigger] s[i])
}

/// Every entry of a fixed-point vector lies in the representable range.
pub open spec fn vec_in_range(v: Seq<i64>) -> bool {
    forall|i: int| 0 <= i < v.len() ==> fx_in_range(#[trigger] v[i] as int)
}

/// Vocabulary sizes the sampler accepts; keeps every weight sum in range.
pub const MAX_VOCAB: usize = 1073741824;

/// Membership of an id in the recent window.
fn contains_id(w: &Vec<u32>, id: u32) -> (r: bool)
    ensures
        r == w@.contains(id),
{
    let mut j: usize = 0;
    while j < w.len()
        invariant
            j <= w@.len(),
            forall|t: int| 0 <= t < j ==> w@[t] != id,
        decreases w@.len() - j,
    {
        if w[j] == id {
            return true;
        }
        j += 1;
    }
    false
}

/// Apply the repetition penalty to every logit whose id sits in the window.
fn penalize(l: &Vec<i64>, w: &Vec<u32>, pen: i64) -> (r: Vec<i64>)
    requires
        vec_in_range(l@),
        l@.len() <= MAX_VOCAB,
        0 < pen <= FX_MAX,
    ensures
        view_int(r@) =~= spec_penalized(l@, w@, pen as int),
        vec_in_range(r@),
{
    let mut out: Vec<i64> = Vec::new();
    let mut i: usize = 0;
    while i < l.len()
        invariant
            i <= l@.len(),
            l@.len() <= MAX_VOCAB,
            out@.len() == i,
            vec_in_range(l@),
            0 < pen <= FX_MAX,
            forall|t: int| 0 <= t < i ==> #[trigger] out@[t] as int == spec_penalized(l@, w@, pen as int)[t],
            vec_in_range(out@),
        decreases l@.len() - i,
    {
        let x = l[i];
        let y: i64 = if contains_id(w, i as u32) {
            if x >= 0 {
                div_fx(x, pen)
            } else {
                mul_fx(x, pen)
            }
        } else {
            x
        };
        out.push(y);
        i += 1;
    }
    out
}

/// Divide every logit by a positive temperature.
fn temper(l: &Vec<i64>, temp: i64) -> (r: Vec<i64>)
    requires
        vec_in_range(l@),
        0 < temp,
    ensures
        view_int(r@) =~= spec_tempered(view_int(l@), temp as int),
        vec_in_range(r@),
{
    let mut out: Vec<i64> = Vec::new();
    let mut i: usize = 0;
    while i < l.len()
        invariant
            i <= l@.len(),
            out@.len() == i,
            vec_in_range(l@),
            0 < temp,
            forall|t: int| 0 <= t < i ==> #[trigger] out@[t] as int == spec_tempered(view_int(l@), temp as int)[t],
            vec_in_range(out@),
        decreases l@.len() - i,
    {
        let x = l[i];
        out.push(div_fx(x, temp));
        i += 1;
    }
    out
}

/// First index of the maximum logit.
pub fn argmax_fx(l: &Vec<i64>) -> (r: usize)
    requires
        l@.len() > 0,
    ensures
        r as int == spec_argmax(view_int(l@)),
        r < l@.len(),
{
    let ghost s = view_int(l@);
    let mut best: usize = 0;
    let mut i: usize = 1;
    while i < l.len()
        invariant
            1 <= i <= l@.len(),
            best < i,
            l@.len() > 0,
            best as int == spec_argmax_upto(s, i as nat),
            s == view_int(l@),
        decreases l@.len() - i,
    {
        if l[i] > l[best] {
            best = i;
        }
        i += 1;
    }
    best
}

/// Number of indices that outrank i.
fn rank_of(l: &Vec<i64>, i: usize) -> (r: usize)
    requires
        i < l@.len(),
    ensures
        r as int == spec_rank(view_int(l@), i as int),
        r <= l@.len(),
{
    let ghost s = view_int(l@);
    let mut cnt: usize = 0;
    let mut j: usize = 0;
    while j < l.len()
        invariant
            j <= l@.len(),
            i < l@.len(),
            cnt as int == spec_rank_upto(s, i as int, j as nat),
            cnt <= j,
            s == view_int(l@),
        decreases l@.len() - j,
    {
        if l[j] > l[i] || (l[j] == l[i] && j < i) {
            cnt += 1;
        }
        j += 1;
    }
    cnt
}

/// The arg-max outranks everything else, so nothing outranks it.
pub proof fn lemma_argmax_is_best(s: Seq<int>, n: nat)
    requires
        0 < n <= s.len(),
    ensures
        0 <= spec_argmax_upto(s, n) < n,
        forall|j: int| 0 <= j < n ==> #[trigger] s[j] <= s[spec_argmax_upto(s, n)],
        forall|j: int| 0 <= j < spec_argmax_upto(s, n) ==> #[trigger] s[j] < s[spec_argmax_upto(s, n)],
    decreases n,
{
    if n > 1 {
        lemma_argmax_is_best(s, (n - 1) as nat);
    }
}

/// No index outranks one that nothing is better than.
pub proof fn lemma_rank_zero(s: Seq<int>, i: int, n: nat)
    requires
        forall|j: int| 0 <= j < n ==> !spec_better(s, j, i),
    ensures
        spec_rank_upto(s, i, n) == 0,
    decreases n,
{
    if n > 0 {
        lemma_rank_zero(s, i, (n - 1) as nat);
    }
}

/// The first index of the maximum has rank zero.
pub proof fn lemma_argmax_rank_zero(s: Seq<int>)
    requires
        s.len() > 0,
    ensures
        spec_rank(s, spec_argmax(s)) == 0,
        0 <= spec_argmax(s) < s.len(),
{
    lemma_argmax_is_best(s, s.len());
    let m = spec_argmax(s);
    assert forall|j: int| 0 <= j < s.len() implies !spec_better(s, j, m) by {
        assert(s[j] <= s[m]);
    }
    lemma_rank_zero(s, m, s.len());
}

/// Sum of a weight sequence, from the front.
pub open spec fn spec_sum(w: Seq<int>) -> int
    decreases w.len(),
{
    if w.len() == 0 {
        0
    } else {
        w[0] + spec_sum(w.drop_first())
    }
}

/// Appending one weight adds it to the sum.
pub proof fn lemma_sum_snoc(w: Seq<int>, x: int)
    ensures
        spec_sum(w.push(x)) == spec_sum(w) + x,
    decreases w.len(),
{
    if w.len() == 0 {
        assert(w.push(x).drop_first() =~= Seq::<int>::empty());
        assert(w.push(x)[0] == x);
        assert(spec_sum(Seq::<int>::empty()) == 0);
        assert(spec_sum(w.push(x)) == x + spec_sum(Seq::<int>::empty()));
    } else {
        assert(w.push(x)[0] == w[0]);
        assert(w.push(x).drop_first() =~= w.drop_first().push(x));
        lemma_sum_snoc(w.drop_first(), x);
        assert(spec_sum(w.push(x)) == w[0] + spec_sum(w.drop_first().push(x)));
        assert(spec_sum(w) == w[0] + spec_sum(w.drop_first()));
    }
}

/// A sum of nonnegative weights is nonnegative.
pub proof fn lemma_sum_nonneg(w: Seq<int>)
    requires
        forall|j: int| 0 <= j < w.len() ==> #[trigger] w[j] >= 0,
    ensures
        spec_sum(w) >= 0,
    decreases w.len(),
{
    if w.len() > 0 {
        assert(forall|j: int| 0 <= j < w.drop_first().len() ==> #[trigger] w.drop_first()[j] >= 0);
        lemma_sum_nonneg(w.drop_first());
    }
}

/// A sum of entries bounded by [0, b] lies in [0, len * b].
pub proof fn lemma_sum_bounded(w: Seq<int>, b: int)
    requires
        b >= 0,
        forall|i: int| 0 <= i < w.len() ==> 0 <= #[trigger] w[i] <= b,
    ensures
        0 <= spec_sum(w) <= w.len() * b,
    decreases w.len(),
{
    if w.len() == 0 {
    } else {
        assert(forall|i: int| 0 <= i < w.drop_first().len() ==> 0 <= #[trigger] w.drop_first()[i] <= b);
        lemma_sum_bounded(w.drop_first(), b);
        assert((w.len() - 1) * b + b == w.len() * b) by (nonlinear_arith);
    }
}

/// A sum of nonnegative weights is at least any one of them.
pub proof fn lemma_sum_element(w: Seq<int>, i: int)
    requires
        0 <= i < w.len(),
        forall|j: int| 0 <= j < w.len() ==> #[trigger] w[j] >= 0,
    ensures
        spec_sum(w) >= w[i],
    decreases w.len(),
{
    assert(forall|j: int| 0 <= j < w.drop_first().len() ==> #[trigger] w.drop_first()[j] >= 0);
    if i == 0 {
        lemma_sum_nonneg(w.drop_first());
    } else {
        lemma_sum_element(w.drop_first(), i - 1);
    }
}

/// Final categorical weights after both filters, as a sequence.
pub open spec fn spec_final_weights(s: Seq<int>, k: int, p: int) -> Seq<int> {
    Seq::new(s.len(), |i: int| spec_final_weight(s, k, p, i))
}

/// The prefix-style final-weight sum equals the front-recursive sum.
pub proof fn lemma_fsum_eq_sum(s: Seq<int>, k: int, p: int, n: nat)
    requires
        n <= s.len(),
    ensures
        spec_fsum_upto(s, k, p, n) == spec_sum(spec_final_weights(s, k, p).take(n as int)),
    decreases n,
{
    let fw = spec_final_weights(s, k, p);
    if n == 0 {
        assert(fw.take(0) =~= Seq::<int>::empty());
    } else {
        lemma_fsum_eq_sum(s, k, p, (n - 1) as nat);
        assert(fw.take(n as int) =~= fw.take(n - 1).push(fw[n - 1]));
        lemma_sum_snoc(fw.take(n - 1), fw[n - 1]);
    }
}

/// On a draw below the total weight, the pick lands on an index carrying
/// positive weight.
pub proof fn lemma_pick_in_range(w: Seq<int>, r: int)
    requires
        forall|i: int| 0 <= i < w.len() ==> #[trigger] w[i] >= 0,
        0 <= r < spec_sum(w),
    ensures
        0 <= spec_pick_rec(w, r) < w.len(),
        w[spec_pick_rec(w, r)] > 0,
    decreases w.len(),
{
    if w.len() == 0 {
    } else if w[0] > 0 && r < w[0] {
    } else {
        assert(forall|i: int| 0 <= i < w.drop_first().len() ==> #[trigger] w.drop_first()[i] >= 0);
        lemma_pick_in_range(w.drop_first(), r - w[0]);
    }
}

/// Pick one index by walking the weights and consuming the draw.
fn pick_weighted(fw: &Vec<i64>, r: i64) -> (idx: usize)
    requires
        forall|i: int| 0 <= i < fw@.len() ==> #[trigger] fw@[i] >= 0,
        0 <= r,
        (r as int) < spec_sum(view_int(fw@)),
    ensures
        idx < fw@.len(),
        idx as int == spec_pick_rec(view_int(fw@), r as int),
        fw@[idx as int] > 0,
{
    let ghost w = view_int(fw@);
    proof {
        assert(forall|i: int| 0 <= i < w.len() ==> #[trigger] w[i] >= 0);
        lemma_pick_in_range(w, r as int);
        assert(w.take(0) =~= Seq::<int>::empty());
        assert(w.skip(0) =~= w);
    }
    let mut i: usize = 0;
    let mut acc: i64 = 0;
    while i < fw.len()
        invariant
            i <= w.len(),
            w == view_int(fw@),
            forall|t: int| 0 <= t < fw@.len() ==> #[trigger] fw@[t] >= 0,
            0 <= acc <= r,
            (r as int) < spec_sum(w),
            acc as int == spec_sum(w.take(i as int)),
            spec_pick_rec(w, r as int) == i + spec_pick_rec(w.skip(i as int), r - acc),
        decreases fw@.len() - i,
    {
        let x = fw[i];
        assert(w.skip(i as int)[0] == w[i as int]);
        if x > 0 && r - acc < x {
            return i;
        }
        proof {
            assert(w.skip(i as int).drop_first() =~= w.skip(i as int + 1));
            assert(w.take(i as int).push(w[i as int]) =~= w.take(i as int + 1));
            lemma_sum_snoc(w.take(i as int), w[i as int]);
        }
        acc = acc + x;
        i += 1;
    }
    proof {
        assert(w.take(i as int) =~= w);
        assert(false);
    }
    0
}

/// The id `sample` returns, as a function of the logits, the recent-id
/// window, the configuration, and the generator state. Repeated calls on
/// identical inputs therefore return identical ids.
pub open spec fn spec_sample(l: Seq<i64>, w: Seq<u32>, cfg: SamplerConfig, st: u64) -> int {
    let s = spec_penalized(l, w, cfg.repeat_penalty as int);
    if cfg.temperature == 0 {
        spec_argmax(s)
    } else {
        let t = spec_tempered(s, cfg.temperature as int);
        let fw = spec_final_weights(t, cfg.top_k as int, cfg.top_p as int);
        let r = (spec_rng_step(st) as int) % spec_sum(fw);
        spec_pick_rec(fw, r)
    }
}

/// The sampler: a configuration plus the seeded pseudo-random source.
pub struct Sampler {
    pub config: SamplerConfig,
    pub rng: Rng64,
}

impl Sampler {
    /// A sampler with the given configuration, seeded for reproducibility.
    pub fn new(config: SamplerConfig, seed: u64) -> (r: Sampler)
        ensures
            r.config == config,
            r.rng.view_state() == (if seed == 0 { 0x9e3779b97f4a7c15u64 } else { seed }),
    {
        Sampler { config, rng: Rng64::new(seed) }
    }

    /// Reduce a logits vector and the recent-id window to one token id.
    /// The result is pinned to `spec_sample` and always lies below the
    /// vocabulary size; with zero temperature the random source is not
    /// consulted, so the id is the arg-max of the penalized logits whatever
    /// the seed.
    pub fn sample(&mut self, logits: &Vec<i64>, state: &SamplerState) -> (r: u32)
        requires
            old(self).config.wf(),
            0 < logits@.len() <= MAX_VOCAB,
            vec_in_range(logits@),
        ensures
            (r as int) < logits@.len(),
            r as int == spec_sample(logits@, state.view_ids(), old(self).config, old(self).rng.view_state()),
            final(self).config == old(self).config,
            old(self).config.temperature == 0 ==> final(self).rng.view_state() == old(self).rng.view_state(),
            old(self).config.temperature != 0 ==> final(self).rng.view_state()
                == spec_rng_step(old(self).rng.view_state()),
    {
        let ghost st0 = self.rng.view_state();
        let pen = penalize(logits, &state.ids, self.config.repeat_penalty);
        let ghost s = spec_penalized(logits@, state.view_ids(), self.config.repeat_penalty as int);
        proof {
            assert(view_int(pen@) == s);
        }
        if self.config.temperature == 0 {
            let m = argmax_fx(&pen);
            return m as u32;
        }
        let t = temper(&pen, self.config.temperature);
        let ghost ts = spec_tempered(s, self.config.temperature as int);
        proof {
            assert(view_int(t@) == ts);
        }
        let k: u32 = self.config.top_k;
        let p: i64 = self.config.top_p;
        let n = t.len();
        let m = argmax_fx(&t);

        // Candidate weights after the top-k filter.
        let mut wv: Vec<i64> = Vec::new();
        let mut i: usize = 0;
        while i < n
            invariant
                i <= n,
                n == t@.len(),
                n == ts.len(),
                0 < n <= MAX_VOCAB,
                wv@.len() == i,
                ts == view_int(t@),
                vec_in_range(t@),
                m < n,
                m as int == spec_argmax(ts),
                forall|q: int| 0 <= q < i ==> #[trigger] wv@[q] as int == spec_weight(ts, q, k as int),
                forall|q: int| 0 <= q < i ==> 0 <= #[trigger] wv@[q] <= FX_ONE,
            decreases n - i,
        {
            let keep: bool = if k == 0 {
                true
            } else {
                rank_of(&t, i) < k as usize
            };
            let x: i64 = if keep {
                exp_fx(t[i] - t[m])
            } else {
                0
            };
            proof {
                assert(ts[i as int] == t@[i as int] as int);
                assert(ts[m as int] == t@[m as int] as int);
            }
            wv.push(x);
            i += 1;
        }

        // Total candidate mass and the nucleus target.
        let mut total: i64 = 0;
        let mut i2: usize = 0;
        while i2 < n
            invariant
                i2 <= n,
                n == wv@.len(),
                n <= MAX_VOCAB,
                forall|q: int| 0 <= q < n ==> #[trigger] wv@[q] as int == spec_weight(ts, q, k as int),
                forall|q: int| 0 <= q < n ==> 0 <= #[trigger] wv@[q] <= FX_ONE,
                total as int == spec_wsum_upto(ts, k as int, i2 as nat),
                0 <= total <= i2 * FX_ONE,
            decreases n - i2,
        {
            proof {
                assert((i2 + 1) * FX_ONE == i2 * FX_ONE + FX_ONE) by (nonlinear_arith);
            }
            total = total + wv[i2];
            i2 += 1;
        }
        proof {
            assert(n as int * FX_ONE <= MAX_VOCAB as int * FX_ONE) by (nonlinear_arith)
                requires n as int <= MAX_VOCAB as int;
            assert(0 <= p as int * total as int <= FX_ONE as int * (MAX_VOCAB as int * FX_ONE))
                by (nonlinear_arith)
                requires
                    0 <= p as int <= FX_ONE,
                    0 <= total as int <= MAX_VOCAB as int * FX_ONE;
        }
        let target: i64 = (p * total) / FX_ONE;

        // Final weights after the nucleus filter.
        let mut fwv: Vec<i64> = Vec::new();
        let mut i3: usize = 0;
        while i3 < n
            invariant
                i3 <= n,
                n == t@.len(),
                n == ts.len(),
                n == wv@.len(),
                0 < n <= MAX_VOCAB,
                fwv@.len() == i3,
                ts == view_int(t@),
                vec_in_range(t@),
                m < n,
                m as int == spec_argmax(ts),
                0 <= p <= FX_ONE,
                total as int == spec_wsum_upto(ts, k as int, n as nat),
                target as int == (p * spec_wsum_upto(ts, k as int, n as nat)) / (FX_ONE as int),
                forall|q: int| 0 <= q < n ==> #[trigger] wv@[q] as int == spec_weight(ts, q, k as int),
                forall|q: int| 0 <= q < n ==> 0 <= #[trigger] wv@[q] <= FX_ONE,
                forall|q: int| 0 <= q < i3 ==> #[trigger] fwv@[q] as int
                    == spec_final_weight(ts, k as int, p as int, q),
                forall|q: int| 0 <= q < i3 ==> 0 <= #[trigger] fwv@[q] <= FX_ONE,
            decreases n - i3,
        {
            let keep_k: bool = if k == 0 {
                true
            } else {
                rank_of(&t, i3) < k as usize
            };
            let rank_i = rank_of(&t, i3);
            let mut mass: i64 = 0;
            let mut j: usize = 0;
            while j < n
                invariant
                    j <= n,
                    i3 < n,
                    n == t@.len(),
                    n == ts.len(),
                    n == wv@.len(),
                    n <= MAX_VOCAB,
                    ts == view_int(t@),
                    forall|q: int| 0 <= q < n ==> #[trigger] wv@[q] as int == spec_weight(ts, q, k as int),
                    forall|q: int| 0 <= q < n ==> 0 <= #[trigger] wv@[q] <= FX_ONE,
                    mass as int == spec_mass_before_upto(ts, k as int, i3 as int, j as nat),
                    0 <= mass <= j * FX_ONE,
                decreases n - j,
            {
                proof {
                    assert((j + 1) * FX_ONE == j * FX_ONE + FX_ONE) by (nonlinear_arith);
                    assert(ts[j as int] == t@[j as int] as int);
                    assert(ts[i3 as int] == t@[i3 as int] as int);
                }
                if t[j] > t[i3] || (t[j] == t[i3] && j < i3) {
                    mass = mass + wv[j];
                }
                j += 1;
            }
            let x: i64 = if keep_k && (rank_i == 0 || mass < target) {
                exp_fx(t[i3] - t[m])
            } else {
                0
            };
            proof {
                assert(ts[i3 as int] == t@[i3 as int] as int);
                assert(ts[m as int] == t@[m as int] as int);
            }
            fwv.push(x);
            i3 += 1;
        }
        let ghost fws = spec_final_weights(ts, k as int, p as int);
        proof {
            assert(view_int(fwv@) =~= fws);
        }

        // The total of the final weights is positive: the arg-max survives
        // both filters with the full weight of one.
        let mut fsum: i64 = 0;
        let mut i4: usize = 0;
        while i4 < n
            invariant
                i4 <= n,
                n == fwv@.len(),
                n <= MAX_VOCAB,
                forall|q: int| 0 <= q < n ==> 0 <= #[trigger] fwv@[q] <= FX_ONE,
                fsum as int == spec_sum(view_int(fwv@).take(i4 as int)),
                0 <= fsum <= i4 * FX_ONE,
            decreases n - i4,
        {
            proof {
                assert((i4 + 1) * FX_ONE == i4 * FX_ONE + FX_ONE) by (nonlinear_arith);
                assert(view_int(fwv@).take(i4 as int).push(view_int(fwv@)[i4 as int])
                    =~= view_int(fwv@).take(i4 as int + 1));
                lemma_sum_snoc(view_int(fwv@).take(i4 as int), view_int(fwv@)[i4 as int]);
            }
            fsum = fsum + fwv[i4];
            i4 += 1;
        }
        proof {
            assert(view_int(fwv@).take(n as int) =~= fws);
            lemma_argmax_rank_zero(ts);
            assert(spec_topk_keep(ts, m as int, k as int));
            assert(spec_nucleus_keep(ts, k as int, p as int, m as int));
            assert(fws[m as int] == spec_exp_fx(0));
            assert((0int * 0int) / (2 * FX_ONE as int) == 0);
            assert((FX_ONE as int * FX_ONE as int) / (FX_ONE as int) == FX_ONE as int)
                by (nonlinear_arith);
            assert(spec_exp_fx(0) == FX_ONE);
            assert(forall|q: int| 0 <= q < fws.len() ==> #[trigger] fws[q] >= 0);
            lemma_sum_element(fws, m as int);
            assert(fsum as int == spec_sum(fws));
            assert(fsum >= FX_ONE);
        }

        // One draw from the remaining categorical distribution.
        let rv = self.rng.next_u64();
        let rr: i64 = (rv % (fsum as u64)) as i64;
        proof {
            assert(fsum as u64 as int == fsum as int);
            assert((rv % (fsum as u64)) as int == (rv as int) % (fsum as int));
            assert(0 <= rr as int);
            assert((rr as int) < fsum as int);
        }
        let idx = pick_weighted(&fwv, rr);
        idx as u32
    }
}

/// With zero temperature the sampled id is the arg-max of the penalized
/// logits, whatever generator state the sampler holds: the draw is never
/// consulted, so two sessions with different seeds agree.
pub proof fn lemma_zero_temperature_argmax(l: Seq<i64>, w: Seq<u32>, cfg: SamplerConfig, st1: u64, st2: u64)
    requires
        cfg.temperature == 0,
    ensures
        spec_sample(l, w, cfg, st1) == spec_argmax(spec_penalized(l, w, cfg.repeat_penalty as int)),
        spec_sample(l, w, cfg, st1) == spec_sample(l, w, cfg, st2),
{
}


} // verus!
