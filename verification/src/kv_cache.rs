//! Per-layer key/value history for incremental attention.
//!
//! The cache is a per-session state machine: empty (cursor zero), filling
//! (one appended entry per processed position), exhausted (cursor at the
//! context limit, further appends fail with a capacity error and leave the
//! cache unchanged). The cursor only ever grows.

use vstd::prelude::*;
use crate::errors::BrainError;
use crate::sampler::vec_in_range;

verus! {

/// Key/value history of one layer; each entry is one position's flattened
/// [kv-heads * head-dim] key or value vector.
pub struct KvCache {
    /// Cached key vectors, one per processed position.
    pub keys: Vec<Vec<i64>>,
    /// Cached value vectors, one per processed position.
    pub vals: Vec<Vec<i64>>,
    /// Context limit: most positions the cache will ever hold.
    pub max_seq_len: usize,
    /// Flattened length of one key or value entry.
    pub entry_len: usize,
}

impl KvCache {
    /// Positions processed so far.
    pub open spec fn cursor(self) -> int {
        self.keys@.len() as int
    }

    /// Keys and values stay aligned, within the limit, and well-shaped.
    pub open spec fn wf(self) -> bool {
        &&& self.keys@.len() == self.vals@.len()
        &&& self.keys@.len() <= self.max_seq_len
        &&& forall|j: int| 0 <= j < self.keys@.len()
            ==> (#[trigger] self.keys@[j])@.len() == self.entry_len
        &&& forall|j: int| 0 <= j < self.keys@.len() ==> vec_in_range((#[trigger] self.keys@[j])@)
        &&& forall|j: int| 0 <= j < self.vals@.len()
            ==> (#[trigger] self.vals@[j])@.len() == self.entry_len
        &&& forall|j: int| 0 <= j < self.vals@.len() ==> vec_in_range((#[trigger] self.vals@[j])@)
    }

    /// No position processed yet.
    pub open spec fn is_empty(self) -> bool {
        self.cursor() == 0
    }

    /// The cache accepts further positions.
    pub open spec fn is_filling(self) -> bool {
        0 < self.cursor() < self.max_seq_len
    }

    /// The context limit is reached; appends now fail.
    pub open spec fn is_exhausted(self) -> bool {
        self.cursor() == self.max_seq_len
    }

    /// A fresh, empty cache.
    pub fn new(max_seq_len: usize, entry_len: usize) -> (r: KvCache)
        ensures
            r.wf(),
            r.is_empty(),
            r.max_seq_len == max_seq_len,
            r.entry_len == entry_len,
    {
        KvCache { keys: Vec::new(), vals: Vec::new(), max_seq_len, entry_len }
    }

    /// Positions processed so far, as a count.
    pub fn len(&self) -> (r: usize)
        ensures
            r as int == self.cursor(),
    {
        self.keys.len()
    }

    /// Write the key/value pair of the next position. Succeeds exactly when
    /// the cache is not exhausted; an exhausted cache reports a capacity
    /// error and is left unchanged, so the caller can still return the
    /// partial output.
    pub fn append(&mut self, k: Vec<i64>, v: Vec<i64>) -> (r: Result<(), BrainError>)
        requires
            old(self).wf(),
            k@.len() == old(self).entry_len,
            v@.len() == old(self).entry_len,
            vec_in_range(k@),
            vec_in_range(v@),
        ensures
            final(self).wf(),
            final(self).max_seq_len == old(self).max_seq_len,
            final(self).entry_len == old(self).entry_len,
            old(self).cursor() < old(self).max_seq_len ==> r is Ok
                && final(self).keys@ == old(self).keys@.push(k)
                && final(self).vals@ == old(self).vals@.push(v)
                && final(self).cursor() == old(self).cursor() + 1,
            old(self).cursor() >= old(self).max_seq_len ==> r === Err(BrainError::Capacity)
                && final(self).keys@ == old(self).keys@
                && final(self).vals@ == old(self).vals@,
    {
        if self.keys.len() >= self.max_seq_len {
            return Err(BrainError::Capacity);
        }
        self.keys.push(k);
        self.vals.push(v);
        Ok(())
    }
}

} // verus!
