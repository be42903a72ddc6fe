//! Reversible byte-level tokenizer with ranked byte-pair merges.
//!
//! Encoding starts from one token per byte and repeatedly applies the
//! lowest-ranked merge rule whose pair of adjacent tokens occurs, at its
//! first occurrence, until no rule applies. Decoding concatenates the token
//! strings. Because every merge rule produces a token whose string is the
//! concatenation of its parts, decoding an encoding always returns the
//! original bytes.

use vstd::prelude::*;

verus! {

/// One ranked merge rule: the adjacent pair (left, right) is replaced by
/// result; a lower index in the rule list means a higher rank.
#[derive(Clone, Copy, Debug, PartialEq, Eq, Structural)]
pub struct MergeRule {
    pub left: u32,
    pub right: u32,
    pub result: u32,
}

/// Bijective token string <-> id vocabulary with ranked merge rules and the
/// designated begin / end / unknown ids; immutable after load.
pub struct Tokenizer {
    /// Token id to its byte string.
    pub vocab: Vec<Vec<u8>>,
    /// Byte value to the id of its single-byte token.
    pub byte_tok: Vec<u32>,
    /// Ranked merge rules, best rank first.
    pub merges: Vec<MergeRule>,
    /// Begin-of-sequence id.
    pub bos_id: u32,
    /// End-of-sequence id.
    pub eos_id: u32,
    /// Fallback id for unknown input.
    pub unk_id: u32,
    /// True when the model file carried no usable tokenizer section and the
    /// minimal byte-level fallback is active; reported, never silent.
    pub degraded: bool,
}

/// Concatenation of the token strings of a sequence of ids; an id outside
/// the vocabulary contributes nothing.
pub open spec fn spec_concat(vocab: Seq<Seq<u8>>, ids: Seq<u32>) -> Seq<u8>
    decreases ids.len(),
{
    if ids.len() == 0 {
        Seq::empty()
    } else {
        (if ids[0] < vocab.len() {
            vocab[ids[0] as int]
        } else {
            Seq::empty()
        }) + spec_concat(vocab, ids.drop_first())
    }
}

/// Appending an id appends its token string.
pub proof fn lemma_concat_snoc(vocab: Seq<Seq<u8>>, ids: Seq<u32>, t: u32)
    ensures
        spec_concat(vocab, ids.push(t)) == spec_concat(vocab, ids)
            + (if t < vocab.len() { vocab[t as int] } else { Seq::<u8>::empty() }),
    decreases ids.len(),
{
    if ids.len() == 0 {
        assert(ids.push(t).drop_first() =~= Seq::<u32>::empty());
        assert(ids.push(t)[0] == t);
        assert(spec_concat(vocab, Seq::<u32>::empty()) =~= Seq::<u8>::empty());
        assert(spec_concat(vocab, ids) =~= Seq::<u8>::empty());
        assert(spec_concat(vocab, ids.push(t))
            =~= (if t < vocab.len() { vocab[t as int] } else { Seq::<u8>::empty() }));
    } else {
        assert(ids.push(t)[0] == ids[0]);
        assert(ids.push(t).drop_first() =~= ids.drop_first().push(t));
        lemma_concat_snoc(vocab, ids.drop_first(), t);
        assert(spec_concat(vocab, ids.push(t))
            =~= spec_concat(vocab, ids)
                + (if t < vocab.len() { vocab[t as int] } else { Seq::<u8>::empty() }));
    }
}

/// Concatenation splits over sequence concatenation.
pub proof fn lemma_concat_append(vocab: Seq<Seq<u8>>, a: Seq<u32>, b: Seq<u32>)
    ensures
        spec_concat(vocab, a + b) == spec_concat(vocab, a) + spec_concat(vocab, b),
    decreases a.len(),
{
    if a.len() == 0 {
        assert(a + b =~= b);
        assert(spec_concat(vocab, a) =~= Seq::<u8>::empty());
        assert(spec_concat(vocab, a + b) =~= spec_concat(vocab, a) + spec_concat(vocab, b));
    } else {
        assert((a + b)[0] == a[0]);
        assert((a + b).drop_first() =~= a.drop_first() + b);
        lemma_concat_append(vocab, a.drop_first(), b);
        assert(spec_concat(vocab, a + b) =~= spec_concat(vocab, a) + spec_concat(vocab, b));
    }
}

impl Tokenizer {
    /// Token strings by id.
    pub open spec fn vocab_view(self) -> Seq<Seq<u8>> {
        Seq::new(self.vocab@.len(), |i: int| self.vocab@[i]@)
    }

    /// Structural soundness: every byte has its single-byte token, and every
    /// merge rule produces the concatenation of its parts, so decoding
    /// inverts encoding.
    pub open spec fn wf(self) -> bool {
        &&& self.byte_tok@.len() == 256
        &&& self.vocab@.len() <= 0xffff_ffff
        &&& forall|b: int| 0 <= b < 256 ==> (#[trigger] self.byte_tok@[b]) < self.vocab@.len()
        &&& forall|b: int| 0 <= b < 256 ==> self.vocab_view()[#[trigger] self.byte_tok@[b] as int]
            =~= seq![b as u8]
        &&& forall|r: int| 0 <= r < self.merges@.len() ==> (#[trigger] self.merges@[r]).left
            < self.vocab@.len()
        &&& forall|r: int| 0 <= r < self.merges@.len() ==> (#[trigger] self.merges@[r]).right
            < self.vocab@.len()
        &&& forall|r: int| 0 <= r < self.merges@.len() ==> (#[trigger] self.merges@[r]).result
            < self.vocab@.len()
        &&& forall|r: int| 0 <= r < self.merges@.len() ==> self.vocab_view()[(
            #[trigger] self.merges@[r]).result as int]
            =~= self.vocab_view()[self.merges@[r].left as int]
                + self.vocab_view()[self.merges@[r].right as int]
        &&& self.bos_id < self.vocab@.len()
        &&& self.eos_id < self.vocab@.len()
        &&& self.unk_id < self.vocab@.len()
    }

    /// Number of known tokens.
    pub fn vocab_size(&self) -> (r: usize)
        ensures
            r == self.vocab@.len(),
    {
        self.vocab.len()
    }
}

/// Some token of the vocabulary is exactly the single byte b.
pub open spec fn spec_has_byte_token(vocab: Seq<Vec<u8>>, b: int) -> bool {
    exists|i: int| 0 <= i < vocab.len() && (#[trigger] vocab[i])@ == seq![b as u8]
}

/// The parts a tokenizer can be built from: sizes inside range, the
/// special ids valid, every byte value represented by some single-byte
/// token, and every merge rule in range with its result token carrying
/// the concatenation of its parts.
pub open spec fn spec_tokenizer_parts_ok(vocab: Seq<Vec<u8>>, merges: Seq<MergeRule>, bos_id: u32, eos_id: u32, unk_id: u32) -> bool {
    &&& vocab.len() <= 0xffff_ffff
    &&& bos_id < vocab.len()
    &&& eos_id < vocab.len()
    &&& unk_id < vocab.len()
    &&& forall|b: int| 0 <= b < 256 ==> #[trigger] spec_has_byte_token(vocab, b)
    &&& forall|q: int| 0 <= q < merges.len() ==> (#[trigger] merges[q]).left < vocab.len()
    &&& forall|q: int| 0 <= q < merges.len() ==> (#[trigger] merges[q]).right < vocab.len()
    &&& forall|q: int| 0 <= q < merges.len() ==> (#[trigger] merges[q]).result < vocab.len()
    &&& forall|q: int| 0 <= q < merges.len() ==> vocab[(#[trigger] merges[q]).result as int]@
        == vocab[merges[q].left as int]@ + vocab[merges[q].right as int]@
}

/// First position at or after j where the pair (l, r) occurs.
pub open spec fn spec_first_pos(ids: Seq<u32>, l: u32, r: u32, j: nat) -> Option<int>
    decreases ids.len() - j,
{
    if j + 1 >= ids.len() {
        None
    } else if ids[j as int] == l && ids[j as int + 1] == r {
        Some(j as int)
    } else {
        spec_first_pos(ids, l, r, j + 1)
    }
}

/// Lowest-ranked rule at or after ri that occurs in ids, with its first
/// position.
pub open spec fn spec_find_rule(merges: Seq<MergeRule>, ids: Seq<u32>, ri: nat) -> Option<(int, int)>
    decreases merges.len() - ri,
{
    if ri >= merges.len() {
        None
    } else {
        match spec_first_pos(ids, merges[ri as int].left, merges[ri as int].right, 0) {
            Some(p) => Some((ri as int, p)),
            None => spec_find_rule(merges, ids, ri + 1),
        }
    }
}

/// Replace the pair at p by the merged token c.
pub open spec fn spec_apply_merge(ids: Seq<u32>, p: int, c: u32) -> Seq<u32> {
    ids.take(p).push(c) + ids.skip(p + 2)
}

/// Exhaustive greedy merging: apply the best-ranked applicable rule at its
/// first occurrence, repeatedly, until none applies.
pub open spec fn spec_merge_all(merges: Seq<MergeRule>, ids: Seq<u32>) -> Seq<u32>
    decreases ids.len(),
{
    match spec_find_rule(merges, ids, 0) {
        None => ids,
        Some((ri, p)) => {
            if 0 <= p && p + 2 <= ids.len() && spec_apply_merge(ids, p, merges[ri].result).len() < ids.len() {
                spec_merge_all(merges, spec_apply_merge(ids, p, merges[ri].result))
            } else {
                ids
            }
        },
    }
}

/// The ids a supported byte string starts from: one single-byte token per
/// byte.
pub open spec fn spec_byte_ids(byte_tok: Seq<u32>, s: Seq<u8>) -> Seq<u32> {
    Seq::new(s.len(), |i: int| byte_tok[s[i] as int])
}

/// What `encode` returns: greedy ranked merging over the byte-level ids.
pub open spec fn spec_encode(t: Tokenizer, s: Seq<u8>) -> Seq<u32> {
    spec_merge_all(t.merges@, spec_byte_ids(t.byte_tok@, s))
}

/// Merging a pair into the token carrying the concatenation of their
/// strings leaves the decoded bytes unchanged.
pub proof fn lemma_merge_preserves_concat(vocab: Seq<Seq<u8>>, ids: Seq<u32>, p: int, a: u32, b: u32, c: u32)
    requires
        0 <= p,
        p + 2 <= ids.len(),
        ids[p] == a,
        ids[p + 1] == b,
        a < vocab.len(),
        b < vocab.len(),
        c < vocab.len(),
        vocab[c as int] == vocab[a as int] + vocab[b as int],
    ensures
        spec_concat(vocab, spec_apply_merge(ids, p, c)) == spec_concat(vocab, ids),
{
    let pre = ids.take(p);
    let mid = ids.subrange(p, p + 2);
    let post = ids.skip(p + 2);
    assert(ids =~= (pre + mid) + post);
    lemma_concat_append(vocab, pre + mid, post);
    lemma_concat_append(vocab, pre, mid);
    assert(mid.len() == 2);
    assert(mid[0] == a);
    assert(mid[1] == b);
    assert(mid.drop_first() =~= seq![b]);
    assert(seq![b].drop_first() =~= Seq::<u32>::empty());
    assert(spec_concat(vocab, Seq::<u32>::empty()) =~= Seq::<u8>::empty());
    assert(seq![b][0] == b);
    assert(spec_concat(vocab, seq![b]) =~= vocab[b as int]);
    assert(spec_concat(vocab, mid) =~= vocab[a as int] + vocab[b as int]);
    lemma_concat_append(vocab, pre.push(c), post);
    lemma_concat_snoc(vocab, pre, c);
    assert(spec_concat(vocab, spec_apply_merge(ids, p, c)) =~= spec_concat(vocab, ids));
}

/// First position of the pair (l, r).
fn find_pair(ids: &Vec<u32>, l: u32, r: u32) -> (res: Option<usize>)
    ensures
        match res {
            Some(p) => spec_first_pos(ids@, l, r, 0) == Some(p as int) && p + 1 < ids@.len()
                && ids@[p as int] == l && ids@[p as int + 1] == r,
            None => spec_first_pos(ids@, l, r, 0) is None,
        },
{
    if ids.len() < 2 {
        return None;
    }
    let mut j: usize = 0;
    while j < ids.len() - 1
        invariant
            j + 1 <= ids@.len(),
            ids@.len() >= 2,
            spec_first_pos(ids@, l, r, 0) == spec_first_pos(ids@, l, r, j as nat),
        decreases ids@.len() - j,
    {
        if ids[j] == l && ids[j + 1] == r {
            return Some(j);
        }
        j += 1;
    }
    None
}

impl Tokenizer {
    /// Lowest-ranked merge rule occurring in ids, with its first position.
    fn find_merge(&self, ids: &Vec<u32>) -> (res: Option<(usize, usize)>)
        ensures
            match res {
                Some((ri, p)) => spec_find_rule(self.merges@, ids@, 0) == Some((ri as int, p as int))
                    && ri < self.merges@.len() && p + 1 < ids@.len()
                    && ids@[p as int] == self.merges@[ri as int].left
                    && ids@[p as int + 1] == self.merges@[ri as int].right,
                None => spec_find_rule(self.merges@, ids@, 0) is None,
            },
    {
        let mut ri: usize = 0;
        while ri < self.merges.len()
            invariant
                ri <= self.merges@.len(),
                spec_find_rule(self.merges@, ids@, 0) == spec_find_rule(self.merges@, ids@, ri as nat),
            decreases self.merges@.len() - ri,
        {
            let rule = self.merges[ri];
            match find_pair(ids, rule.left, rule.right) {
                Some(p) => {
                    return Some((ri, p));
                },
                None => {},
            }
            ri += 1;
        }
        None
    }

    /// Encode bytes into token ids by byte-level pre-tokenization followed
    /// by exhaustive greedy ranked merging. The concatenation of the token
    /// strings of the result is exactly the input, so decoding inverts it.
    pub fn encode(&self, s: &Vec<u8>) -> (r: Vec<u32>)
        requires
            self.wf(),
        ensures
            r@ == spec_encode(*self, s@),
            spec_concat(self.vocab_view(), r@) == s@,
            forall|i: int| 0 <= i < r@.len() ==> (#[trigger] r@[i]) < self.vocab@.len(),
    {
        let ghost vv = self.vocab_view();
        let mut ids: Vec<u32> = Vec::new();
        let mut i: usize = 0;
        proof {
            assert(spec_concat(vv, Seq::<u32>::empty()) =~= Seq::<u8>::empty());
            assert(s@.take(0) =~= Seq::<u8>::empty());
        }
        while i < s.len()
            invariant
                i <= s@.len(),
                self.wf(),
                vv == self.vocab_view(),
                ids@ =~= spec_byte_ids(self.byte_tok@, s@.take(i as int)),
                spec_concat(vv, ids@) == s@.take(i as int),
                forall|q: int| 0 <= q < ids@.len() ==> (#[trigger] ids@[q]) < self.vocab@.len(),
            decreases s@.len() - i,
        {
            let b = s[i];
            let t = self.byte_tok[b as usize];
            proof {
                lemma_concat_snoc(vv, ids@, t);
                assert(vv[t as int] =~= seq![b]);
                assert(s@.take(i as int).push(b) =~= s@.take(i as int + 1));
                assert(ids@.push(t) =~= spec_byte_ids(self.byte_tok@, s@.take(i as int + 1)));
            }
            ids.push(t);
            i += 1;
        }
        proof {
            assert(s@.take(s@.len() as int) =~= s@);
            assert(ids@ =~= spec_byte_ids(self.byte_tok@, s@));
        }

        let ghost start = ids@;
        let mut more = true;
        while more
            invariant
                self.wf(),
                vv == self.vocab_view(),
                spec_concat(vv, ids@) == s@,
                forall|q: int| 0 <= q < ids@.len() ==> (#[trigger] ids@[q]) < self.vocab@.len(),
                spec_merge_all(self.merges@, ids@) == spec_merge_all(self.merges@, start),
                !more ==> spec_find_rule(self.merges@, ids@, 0) is None,
            decreases ids@.len(), (if more { 1int } else { 0int }),
        {
            match self.find_merge(&ids) {
                Some((ri, p)) => {
                    let ghost pre_ids = ids@;
                    let rule = self.merges[ri];
                    let c = rule.result;
                    ids.remove(p);
                    ids.remove(p);
                    ids.insert(p, c);
                    proof {
                        assert(ids@ =~= spec_apply_merge(pre_ids, p as int, c));
                        lemma_merge_preserves_concat(vv, pre_ids, p as int, rule.left, rule.right, c);
                        assert(spec_merge_all(self.merges@, pre_ids)
                            == spec_merge_all(self.merges@, ids@));
                    }
                },
                None => {
                    more = false;
                },
            }
        }
        proof {
            assert(spec_merge_all(self.merges@, ids@) == ids@);
        }
        ids
    }

    /// Decode token ids into bytes by concatenating their token strings in
    /// order; an id outside the vocabulary contributes nothing.
    pub fn decode(&self, ids: &Vec<u32>) -> (r: Vec<u8>)
        ensures
            r@ == spec_concat(self.vocab_view(), ids@),
    {
        let ghost vv = self.vocab_view();
        let mut out: Vec<u8> = Vec::new();
        let mut i: usize = 0;
        proof {
            assert(spec_concat(vv, ids@.take(0)) =~= Seq::<u8>::empty());
        }
        while i < ids.len()
            invariant
                i <= ids@.len(),
                vv == self.vocab_view(),
                out@ == spec_concat(vv, ids@.take(i as int)),
            decreases ids@.len() - i,
        {
            let id = ids[i];
            if (id as usize) < self.vocab.len() {
                let mut j: usize = 0;
                let ghost base = out@;
                while j < self.vocab[id as usize].len()
                    invariant
                        i < ids@.len(),
                        id == ids@[i as int],
                        (id as usize) < self.vocab@.len(),
                        j <= self.vocab@[id as int]@.len(),
                        vv == self.vocab_view(),
                        out@ == base + self.vocab@[id as int]@.take(j as int),
                    decreases self.vocab@[id as int]@.len() - j,
                {
                    let byte = self.vocab[id as usize][j];
                    proof {
                        assert(base + self.vocab@[id as int]@.take(j as int).push(byte)
                            =~= base + self.vocab@[id as int]@.take(j as int + 1));
                    }
                    out.push(byte);
                    j += 1;
                }
                proof {
                    assert(self.vocab@[id as int]@.take(self.vocab@[id as int]@.len() as int)
                        =~= self.vocab@[id as int]@);
                }
            }
            proof {
                lemma_concat_snoc(vv, ids@.take(i as int), id);
                assert(ids@.take(i as int).push(id) =~= ids@.take(i as int + 1));
                if (id as int) < vv.len() {
                    assert(vv[id as int] == self.vocab@[id as int]@);
                } else {
                    assert(out@ + Seq::<u8>::empty() =~= out@);
                }
            }
            i += 1;
        }
        proof {
            assert(ids@.take(ids@.len() as int) =~= ids@);
        }
        out
    }
}

/// Bytewise equality of two byte vectors.
pub fn bytes_eq(a: &Vec<u8>, b: &Vec<u8>) -> (r: bool)
    ensures
        r == (a@ == b@),
{
    if a.len() != b.len() {
        return false;
    }
    let mut i: usize = 0;
    while i < a.len()
        invariant
            i <= a@.len(),
            a@.len() == b@.len(),
            forall|t: int| 0 <= t < i ==> a@[t] == b@[t],
        decreases a@.len() - i,
    {
        if a[i] != b[i] {
            return false;
        }
        i += 1;
    }
    proof {
        assert(a@ =~= b@);
    }
    true
}

/// Concatenation of two byte vectors.
fn concat_bytes(a: &Vec<u8>, b: &Vec<u8>) -> (r: Vec<u8>)
    ensures
        r@ == a@ + b@,
{
    let mut out: Vec<u8> = Vec::new();
    let mut i: usize = 0;
    while i < a.len()
        invariant
            i <= a@.len(),
            out@ == a@.take(i as int),
        decreases a@.len() - i,
    {
        proof {
            assert(a@.take(i as int).push(a@[i as int]) =~= a@.take(i as int + 1));
        }
        out.push(a[i]);
        i += 1;
    }
    proof {
        assert(a@.take(a@.len() as int) =~= a@);
    }
    let mut j: usize = 0;
    while j < b.len()
        invariant
            j <= b@.len(),
            out@ == a@ + b@.take(j as int),
        decreases b@.len() - j,
    {
        proof {
            assert((a@ + b@.take(j as int)).push(b@[j as int]) =~= a@ + b@.take(j as int + 1));
        }
        out.push(b[j]);
        j += 1;
    }
    proof {
        assert(a@ + b@.take(b@.len() as int) =~= a@ + b@);
    }
    out
}

impl Tokenizer {
    /// The minimal byte-level fallback: one token per byte plus the three
    /// special ids, no merges. Active only when the file's tokenizer
    /// section is absent or malformed; always flagged as degraded.
    pub fn fallback() -> (r: Tokenizer)
        ensures
            r.wf(),
            r.degraded,
            r.vocab@.len() == 259,
            r.merges@.len() == 0,
    {
        let mut vocab: Vec<Vec<u8>> = Vec::new();
        let mut byte_tok: Vec<u32> = Vec::new();
        let mut b: usize = 0;
        while b < 256
            invariant
                b <= 256,
                vocab@.len() == b,
                byte_tok@.len() == b,
                forall|i: int| 0 <= i < b ==> #[trigger] byte_tok@[i] == i as u32,
                forall|i: int| 0 <= i < b ==> #[trigger] vocab@[i]@ =~= seq![i as u8],
            decreases 256 - b,
        {
            let mut tok: Vec<u8> = Vec::new();
            tok.push(b as u8);
            proof {
                assert(tok@ =~= seq![b as u8]);
            }
            vocab.push(tok);
            byte_tok.push(b as u32);
            b += 1;
        }
        let bos: Vec<u8> = Vec::new();
        let eos: Vec<u8> = Vec::new();
        let unk: Vec<u8> = Vec::new();
        vocab.push(bos);
        vocab.push(eos);
        vocab.push(unk);
        let t = Tokenizer {
            vocab,
            byte_tok,
            merges: Vec::new(),
            bos_id: 256,
            eos_id: 257,
            unk_id: 258,
            degraded: true,
        };
        proof {
            assert forall|bb: int| 0 <= bb < 256 implies t.vocab_view()[#[trigger] t.byte_tok@[bb] as int]
                =~= seq![bb as u8] by {
                assert(t.byte_tok@[bb] == bb as u32);
                assert(t.vocab@[bb]@ =~= seq![bb as u8]);
            }
        }
        t
    }

    /// Build a tokenizer from a parsed vocabulary, ranked merge rules and
    /// special ids, validating everything the round-trip rests on. The
    /// build succeeds exactly when the parts are well formed; any
    /// violation is a format error, and the caller then falls back to the
    /// degraded byte-level tokenizer.
    pub fn from_parts(vocab: Vec<Vec<u8>>, merges: Vec<MergeRule>, bos_id: u32, eos_id: u32, unk_id: u32)
        -> (r: Result<Tokenizer, crate::errors::BrainError>)
        ensures
            r matches Ok(t) ==> t.wf() && !t.degraded && t.vocab@ == vocab@
                && t.merges@ == merges@ && t.bos_id == bos_id && t.eos_id == eos_id
                && t.unk_id == unk_id,
            r is Ok <==> spec_tokenizer_parts_ok(vocab@, merges@, bos_id, eos_id, unk_id),
            r is Err ==> r == Result::<Tokenizer, crate::errors::BrainError>::Err(
                crate::errors::BrainError::Format),
    {
        if vocab.len() > 0xffff_ffff {
            proof {
                assert(!spec_tokenizer_parts_ok(vocab@, merges@, bos_id, eos_id, unk_id));
            }
            return Err(crate::errors::BrainError::Format);
        }
        if !((bos_id as usize) < vocab.len() && (eos_id as usize) < vocab.len()
            && (unk_id as usize) < vocab.len()) {
            proof {
                assert(!spec_tokenizer_parts_ok(vocab@, merges@, bos_id, eos_id, unk_id));
            }
            return Err(crate::errors::BrainError::Format);
        }
        // A single-byte token for every byte value.
        let mut byte_tok: Vec<u32> = Vec::new();
        let mut b: usize = 0;
        while b < 256
            invariant
                b <= 256,
                byte_tok@.len() == b,
                vocab@.len() <= 0xffff_ffff,
                forall|i: int| 0 <= i < b ==> (#[trigger] byte_tok@[i]) < vocab@.len(),
                forall|i: int| 0 <= i < b ==> vocab@[#[trigger] byte_tok@[i] as int]@ =~= seq![i as u8],
            decreases 256 - b,
        {
            let mut found = false;
            let mut id: usize = 0;
            let mut scan: usize = 0;
            while scan < vocab.len()
                invariant
                    scan <= vocab@.len(),
                    b < 256,
                    found ==> id < vocab@.len() && vocab@[id as int]@ =~= seq![b as u8],
                    !found ==> forall|t: int| 0 <= t < scan
                        ==> (#[trigger] vocab@[t])@ != seq![b as u8],
                decreases vocab@.len() - scan,
            {
                if !found && vocab[scan].len() == 1 && vocab[scan][0] == b as u8 {
                    found = true;
                    id = scan;
                    proof {
                        assert(vocab@[scan as int]@ =~= seq![b as u8]);
                    }
                } else {
                    proof {
                        if !found && vocab@[scan as int]@ == seq![b as u8] {
                            assert(vocab@[scan as int]@.len() == 1);
                            assert(vocab@[scan as int]@[0] == b as u8);
                        }
                    }
                }
                scan += 1;
            }
            if !found {
                proof {
                    assert(forall|t: int| 0 <= t < vocab@.len()
                        ==> (#[trigger] vocab@[t])@ != seq![b as u8]);
                    assert((b as int) as u8 == b as u8);
                    assert(!spec_has_byte_token(vocab@, b as int));
                    assert(!spec_tokenizer_parts_ok(vocab@, merges@, bos_id, eos_id, unk_id));
                }
                return Err(crate::errors::BrainError::Format);
            }
            byte_tok.push(id as u32);
            b += 1;
        }
        // Every merge rule must concatenate.
        let mut ri: usize = 0;
        while ri < merges.len()
            invariant
                ri <= merges@.len(),
                vocab@.len() <= 0xffff_ffff,
                forall|q: int| 0 <= q < ri ==> (#[trigger] merges@[q]).left < vocab@.len(),
                forall|q: int| 0 <= q < ri ==> (#[trigger] merges@[q]).right < vocab@.len(),
                forall|q: int| 0 <= q < ri ==> (#[trigger] merges@[q]).result < vocab@.len(),
                forall|q: int| 0 <= q < ri ==> vocab@[(#[trigger] merges@[q]).result as int]@
                    =~= vocab@[merges@[q].left as int]@ + vocab@[merges@[q].right as int]@,
            decreases merges@.len() - ri,
        {
            let rule = merges[ri];
            if !((rule.left as usize) < vocab.len() && (rule.right as usize) < vocab.len()
                && (rule.result as usize) < vocab.len()) {
                proof {
                    assert(!spec_tokenizer_parts_ok(vocab@, merges@, bos_id, eos_id, unk_id));
                }
                return Err(crate::errors::BrainError::Format);
            }
            let joined = concat_bytes(&vocab[rule.left as usize], &vocab[rule.right as usize]);
            if !bytes_eq(&vocab[rule.result as usize], &joined) {
                proof {
                    assert(vocab@[merges@[ri as int].result as int]@
                        != vocab@[merges@[ri as int].left as int]@
                            + vocab@[merges@[ri as int].right as int]@);
                    assert(!spec_tokenizer_parts_ok(vocab@, merges@, bos_id, eos_id, unk_id));
                }
                return Err(crate::errors::BrainError::Format);
            }
            ri += 1;
        }
        proof {
            assert forall|b: int| 0 <= b < 256 implies #[trigger] spec_has_byte_token(vocab@, b) by {
                assert(vocab@[byte_tok@[b] as int]@ =~= seq![b as u8]);
                assert(0 <= byte_tok@[b] as int);
                assert((byte_tok@[b] as int) < vocab@.len());
                assert(vocab@[byte_tok@[b] as int]@ == seq![b as u8]);
            }
            assert(spec_tokenizer_parts_ok(vocab@, merges@, bos_id, eos_id, unk_id));
        }
        let t = Tokenizer { vocab, byte_tok, merges, bos_id, eos_id, unk_id, degraded: false };
        proof {
            assert forall|bb: int| 0 <= bb < 256 implies t.vocab_view()[#[trigger] t.byte_tok@[bb] as int]
                =~= seq![bb as u8] by {
                assert(t.vocab@[t.byte_tok@[bb] as int]@ =~= seq![bb as u8]);
            }
            assert forall|q: int| 0 <= q < t.merges@.len() implies t.vocab_view()[(
                #[trigger] t.merges@[q]).result as int]
                =~= t.vocab_view()[t.merges@[q].left as int] + t.vocab_view()[t.merges@[q].right as int] by {
                assert(t.vocab@[t.merges@[q].result as int]@
                    =~= t.vocab@[t.merges@[q].left as int]@ + t.vocab@[t.merges@[q].right as int]@);
            }
        }
        Ok(t)
    }
}

/// The round-trip law: decoding any encoding of a supported byte string
/// yields the string again. The hypotheses are exactly the postconditions
/// of `encode` and `decode`.
pub proof fn lemma_decode_encode_round_trip(vocab: Seq<Seq<u8>>, s: Seq<u8>, encoded: Seq<u32>, decoded: Seq<u8>)
    requires
        spec_concat(vocab, encoded) == s,
        decoded == spec_concat(vocab, encoded),
    ensures
        decoded == s,
{
}

} // verus!
