//! Grammar-constrained decoding: a byte automaton consumed incrementally
//! by accepted tokens.
//!
//! Before each constrained sampling step the engine computes which
//! vocabulary ids keep the automaton non-rejecting and masks all others
//! to the lowest logit. A terminal automaton state ends generation; a
//! state from which no id is acceptable is an unrecoverable deadlock.

use vstd::prelude::*;
use crate::errors::BrainError;
use crate::fixed::FX_MAX;
use crate::sampler::vec_in_range;

verus! {

/// The rejecting sink, kept out of the state table.
pub const REJECT: u32 = 0xffff_ffff;

/// A deterministic byte automaton.
pub struct Grammar {
    /// Number of live states.
    pub n_states: u32,
    /// Initial state.
    pub start: u32,
    /// States in which the consumed bytes form a complete valid output.
    pub accepting: Vec<bool>,
    /// States that end generation regardless of remaining budget.
    pub terminal: Vec<bool>,
    /// Transition table: per state, per byte, the next state or REJECT.
    pub trans: Vec<Vec<u32>>,
}

impl Grammar {
    /// Tables sized to the state count and every transition in range.
    pub open spec fn wf(self) -> bool {
        &&& 0 < self.n_states < REJECT
        &&& self.start < self.n_states
        &&& self.accepting@.len() == self.n_states
        &&& self.terminal@.len() == self.n_states
        &&& self.trans@.len() == self.n_states
        &&& forall|s: int| 0 <= s < self.trans@.len() ==> (#[trigger] self.trans@[s])@.len() == 256
        &&& forall|s: int, b: int| 0 <= s < self.trans@.len() && 0 <= b < 256
            ==> ((#[trigger] self.trans@[s]@[b]) < self.n_states || self.trans@[s]@[b] == REJECT)
    }

    /// One transition; anything out of range rejects.
    pub open spec fn spec_step(self, s: u32, b: u8) -> u32 {
        if s < self.n_states {
            self.trans@[s as int]@[b as int]
        } else {
            REJECT
        }
    }

    /// Run the automaton over a byte string.
    pub open spec fn spec_run(self, s: u32, bs: Seq<u8>) -> u32
        decreases bs.len(),
    {
        if bs.len() == 0 {
            s
        } else {
            self.spec_run(self.spec_step(s, bs[0]), bs.drop_first())
        }
    }

    /// Advance the automaton over a byte string.
    pub fn advance(&self, s: u32, bs: &Vec<u8>) -> (r: u32)
        requires
            self.wf(),
        ensures
            r == self.spec_run(s, bs@),
    {
        let mut cur = s;
        let mut i: usize = 0;
        proof {
            assert(bs@.skip(0) =~= bs@);
        }
        while i < bs.len()
            invariant
                i <= bs@.len(),
                self.wf(),
                self.spec_run(s, bs@) == self.spec_run(cur, bs@.skip(i as int)),
            decreases bs@.len() - i,
        {
            proof {
                assert(bs@.skip(i as int)[0] == bs@[i as int]);
                assert(bs@.skip(i as int).drop_first() =~= bs@.skip(i as int + 1));
            }
            let b = bs[i];
            cur = if cur < self.n_states {
                self.trans[cur as usize][b as usize]
            } else {
                REJECT
            };
            i += 1;
        }
        proof {
            assert(bs@.skip(bs@.len() as int) =~= Seq::<u8>::empty());
        }
        cur
    }

    /// Running over a concatenation runs over the parts in order.
    pub proof fn lemma_run_append(self, s: u32, a: Seq<u8>, b: Seq<u8>)
        ensures
            self.spec_run(s, a + b) == self.spec_run(self.spec_run(s, a), b),
        decreases a.len(),
    {
        if a.len() == 0 {
            assert(a + b =~= b);
        } else {
            assert((a + b)[0] == a[0]);
            assert((a + b).drop_first() =~= a.drop_first() + b);
            self.lemma_run_append(self.spec_step(s, a[0]), a.drop_first(), b);
        }
    }
}

/// The automaton position of one constrained generation session.
pub struct GrammarState {
    /// Current automaton state; never the rejecting sink.
    pub state: u32,
}

impl GrammarState {
    /// The session starts at the grammar's initial state.
    pub fn new(g: &Grammar) -> (r: GrammarState)
        requires
            g.wf(),
        ensures
            r.state == g.start,
            r.state < g.n_states,
    {
        GrammarState { state: g.start }
    }

    /// Consume one accepted token. Succeeds exactly when the token's bytes
    /// keep the automaton non-rejecting, and then advances the state; a
    /// rejecting token is a grammar error and leaves the state unchanged.
    pub fn accept(&mut self, g: &Grammar, tok: &Vec<u8>) -> (r: Result<(), BrainError>)
        requires
            g.wf(),
            old(self).state < g.n_states,
        ensures
            g.spec_run(old(self).state, tok@) < g.n_states ==> (r is Ok
                && final(self).state == g.spec_run(old(self).state, tok@)
                && final(self).state < g.n_states),
            !(g.spec_run(old(self).state, tok@) < g.n_states) ==> (r === Err::<(), BrainError>(
                BrainError::Grammar) && final(self).state == old(self).state),
    {
        let next = g.advance(self.state, tok);
        if next < g.n_states {
            self.state = next;
            Ok(())
        } else {
            Err(BrainError::Grammar)
        }
    }
}

impl Grammar {
    /// Whether a byte string is a complete valid output: running the
    /// automaton from the start leaves it in an accepting state.
    pub fn validates(&self, bs: &Vec<u8>) -> (r: bool)
        requires
            self.wf(),
        ensures
            r == (self.spec_run(self.start, bs@) < self.n_states
                && self.accepting@[self.spec_run(self.start, bs@) as int]),
    {
        let end = self.advance(self.start, bs);
        end < self.n_states && self.accepting[end as usize]
    }
}

/// For each vocabulary id, whether appending its token string keeps the
/// automaton non-rejecting from the given state.
pub fn allowed_mask(g: &Grammar, s: u32, vocab: &Vec<Vec<u8>>) -> (r: Vec<bool>)
    requires
        g.wf(),
    ensures
        r@.len() == vocab@.len(),
        forall|i: int| 0 <= i < vocab@.len() ==> (#[trigger] r@[i]
            == (g.spec_run(s, vocab@[i]@) < g.n_states)),
{
    let mut out: Vec<bool> = Vec::new();
    let mut i: usize = 0;
    while i < vocab.len()
        invariant
            i <= vocab@.len(),
            g.wf(),
            out@.len() == i,
            forall|t: int| 0 <= t < i ==> (#[trigger] out@[t]
                == (g.spec_run(s, vocab@[t]@) < g.n_states)),
        decreases vocab@.len() - i,
    {
        let next = g.advance(s, &vocab[i]);
        out.push(next < g.n_states);
        i += 1;
    }
    out
}

/// Mask the logits of disallowed ids to the lowest representable value, so
/// the sampler never picks them while at least one id stays allowed.
pub fn mask_logits(logits: &Vec<i64>, allowed: &Vec<bool>) -> (r: Vec<i64>)
    requires
        logits@.len() == allowed@.len(),
        vec_in_range(logits@),
    ensures
        r@.len() == logits@.len(),
        vec_in_range(r@),
        forall|i: int| 0 <= i < logits@.len() ==> #[trigger] r@[i] as int
            == (if allowed@[i] { logits@[i] as int } else { -FX_MAX as int }),
{
    let mut out: Vec<i64> = Vec::new();
    let mut i: usize = 0;
    while i < logits.len()
        invariant
            i <= logits@.len(),
            logits@.len() == allowed@.len(),
            vec_in_range(logits@),
            out@.len() == i,
            forall|t: int| 0 <= t < i ==> #[trigger] out@[t] as int
                == (if allowed@[t] { logits@[t] as int } else { -FX_MAX as int }),
            vec_in_range(out@),
        decreases logits@.len() - i,
    {
        if allowed[i] {
            out.push(logits[i]);
        } else {
            out.push(-FX_MAX);
        }
        i += 1;
    }
    out
}

/// The revalidation law: a sequence of two accepted stretches revalidates
/// as one standalone string. Each `accept` pins the new state to
/// `spec_run` of the old one, so by this composition the state after all
/// accepted tokens is `spec_run` of the start state over the full
/// generated text, and it is non-rejecting.
pub proof fn lemma_accepted_text_revalidates(g: Grammar, s0: u32, a: Seq<u8>, b: Seq<u8>)
    requires
        g.wf(),
        g.spec_run(s0, a) < g.n_states,
        g.spec_run(g.spec_run(s0, a), b) < g.n_states,
    ensures
        g.spec_run(s0, a + b) < g.n_states,
        g.spec_run(s0, a + b) == g.spec_run(g.spec_run(s0, a), b),
{
    g.lemma_run_append(s0, a, b);
}

} // verus!
