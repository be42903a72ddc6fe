//! Resolved model hyperparameters, derived once from the file's metadata
//! and immutable afterwards.

use vstd::prelude::*;
use crate::errors::BrainError;
use crate::format::{MetaEntry, MetaValue, ModelFile};

verus! {

/// The architecture hyperparameters the forward pass relies on.
#[derive(Clone, Copy, Debug, PartialEq, Eq, Structural)]
pub struct ModelParams {
    /// Embedding width.
    pub dim: u32,
    /// Transformer layer count.
    pub n_layers: u32,
    /// Query head count.
    pub n_heads: u32,
    /// Key/value head count; divides the query head count.
    pub n_kv_heads: u32,
    /// Width of one head: dim divided by the head count.
    pub head_dim: u32,
    /// Vocabulary size.
    pub vocab_size: u32,
    /// Context length: most positions one session may process.
    pub max_seq_len: u32,
}

impl ModelParams {
    /// Mutual consistency: everything positive, the embedding width an
    /// exact multiple of the head count, the query heads an exact multiple
    /// of the key/value heads, and every figure inside the engine's
    /// arithmetic bounds.
    pub open spec fn wf(self) -> bool {
        &&& 0 < self.dim <= 16384
        &&& 0 < self.n_layers <= 256
        &&& 0 < self.n_heads <= 1024
        &&& 0 < self.n_kv_heads <= self.n_heads
        &&& self.dim == self.n_heads * self.head_dim
        &&& 0 < self.head_dim <= 16384
        &&& self.head_dim % 2 == 0
        &&& self.n_heads % self.n_kv_heads == 0
        &&& 0 < self.vocab_size <= 4194304
        &&& 0 < self.max_seq_len <= 32768
    }
}

/// First metadata value under the key, when it is a 32-bit integer.
pub open spec fn spec_lookup_u32(m: Seq<MetaEntry>, key: Seq<u8>) -> Option<u32>
    decreases m.len(),
{
    if m.len() == 0 {
        None
    } else if m[0].key@ == key && (m[0].value matches MetaValue::U32(_)) {
        match m[0].value {
            MetaValue::U32(v) => Some(v),
            _ => None,
        }
    } else {
        spec_lookup_u32(m.drop_first(), key)
    }
}

/// Find the first 32-bit integer stored under a key.
pub fn lookup_u32(m: &Vec<MetaEntry>, key: &Vec<u8>) -> (r: Option<u32>)
    ensures
        r == spec_lookup_u32(m@, key@),
{
    let mut i: usize = 0;
    proof {
        assert(m@.skip(0) =~= m@);
    }
    while i < m.len()
        invariant
            i <= m@.len(),
            spec_lookup_u32(m@, key@) == spec_lookup_u32(m@.skip(i as int), key@),
        decreases m@.len() - i,
    {
        proof {
            assert(m@.skip(i as int)[0] == m@[i as int]);
            assert(m@.skip(i as int).drop_first() =~= m@.skip(i as int + 1));
        }
        match &m[i].value {
            MetaValue::U32(v) => {
                if crate::tokenizer::bytes_eq(&m[i].key, key) {
                    return Some(*v);
                }
            },
            _ => {},
        }
        i += 1;
    }
    None
}

/// First metadata value under the key, when it is a byte string.
pub open spec fn spec_lookup_str(m: Seq<MetaEntry>, key: Seq<u8>) -> Option<Seq<u8>>
    decreases m.len(),
{
    if m.len() == 0 {
        None
    } else if m[0].key@ == key && (m[0].value matches MetaValue::Str(_)) {
        match m[0].value {
            MetaValue::Str(v) => Some(v@),
            _ => None,
        }
    } else {
        spec_lookup_str(m.drop_first(), key)
    }
}

/// Find the first byte string stored under a key.
pub fn lookup_str(m: &Vec<MetaEntry>, key: &Vec<u8>) -> (r: Option<Vec<u8>>)
    ensures
        r matches Some(v) ==> spec_lookup_str(m@, key@) == Some(v@),
        r is None <==> spec_lookup_str(m@, key@) is None,
{
    let mut i: usize = 0;
    proof {
        assert(m@.skip(0) =~= m@);
    }
    while i < m.len()
        invariant
            i <= m@.len(),
            spec_lookup_str(m@, key@) == spec_lookup_str(m@.skip(i as int), key@),
        decreases m@.len() - i,
    {
        proof {
            assert(m@.skip(i as int)[0] == m@[i as int]);
            assert(m@.skip(i as int).drop_first() =~= m@.skip(i as int + 1));
        }
        match &m[i].value {
            MetaValue::Str(v) => {
                if crate::tokenizer::bytes_eq(&m[i].key, key) {
                    let mut out: Vec<u8> = Vec::new();
                    let mut j: usize = 0;
                    while j < v.len()
                        invariant
                            j <= v@.len(),
                            out@ == v@.take(j as int),
                        decreases v@.len() - j,
                    {
                        proof {
                            assert(v@.take(j as int).push(v@[j as int])
                                =~= v@.take(j as int + 1));
                        }
                        out.push(v[j]);
                        j += 1;
                    }
                    proof {
                        assert(v@.take(v@.len() as int) =~= v@);
                    }
                    return Some(out);
                }
            },
            _ => {},
        }
        i += 1;
    }
    None
}

/// Metadata key of the embedding width.
pub open spec fn spec_key_dim() -> Seq<u8> {
    seq![100u8, 105u8, 109u8]
}

/// Metadata key of the layer count.
pub open spec fn spec_key_layers() -> Seq<u8> {
    seq![108u8, 97u8, 121u8, 101u8, 114u8, 115u8]
}

/// Metadata key of the head count.
pub open spec fn spec_key_heads() -> Seq<u8> {
    seq![104u8, 101u8, 97u8, 100u8, 115u8]
}

/// Metadata key of the key/value head count.
pub open spec fn spec_key_kvheads() -> Seq<u8> {
    seq![107u8, 118u8, 104u8, 101u8, 97u8, 100u8, 115u8]
}

/// Metadata key of the vocabulary size.
pub open spec fn spec_key_vocab() -> Seq<u8> {
    seq![118u8, 111u8, 99u8, 97u8, 98u8]
}

/// Metadata key of the context length.
pub open spec fn spec_key_ctx() -> Seq<u8> {
    seq![99u8, 116u8, 120u8]
}

/// The raw architecture figures found in the metadata, if all are present.
pub open spec fn spec_arch_keys(m: Seq<MetaEntry>) -> Option<(u32, u32, u32, u32, u32, u32)> {
    let dim = spec_lookup_u32(m, spec_key_dim());
    let layers = spec_lookup_u32(m, spec_key_layers());
    let heads = spec_lookup_u32(m, spec_key_heads());
    let kv = spec_lookup_u32(m, spec_key_kvheads());
    let vocab = spec_lookup_u32(m, spec_key_vocab());
    let ctx = spec_lookup_u32(m, spec_key_ctx());
    if dim is Some && layers is Some && heads is Some && kv is Some && vocab is Some
        && ctx is Some {
        Some((dim.unwrap(), layers.unwrap(), heads.unwrap(), kv.unwrap(), vocab.unwrap(), ctx.unwrap()))
    } else {
        None
    }
}

/// The figures are positive, inside the engine's bounds, and mutually
/// consistent: the head count divides the width evenly into an even head
/// width, and the key/value heads divide the query heads.
pub open spec fn spec_arch_consistent(k: (u32, u32, u32, u32, u32, u32)) -> bool {
    &&& 0 < k.0 <= 16384
    &&& 0 < k.1 <= 256
    &&& 0 < k.2 <= 1024
    &&& 0 < k.3 <= k.2
    &&& 0 < k.4 <= 4194304
    &&& 0 < k.5 <= 32768
    &&& k.0 % k.2 == 0
    &&& k.2 % k.3 == 0
    &&& k.0 / k.2 > 0
    &&& (k.0 / k.2) % 2 == 0
}

impl ModelParams {
    /// Derive and validate the hyperparameters from the parsed metadata.
    /// A missing required key is exactly a format error; keys present but
    /// mutually inconsistent (head count not dividing the width, key/value
    /// heads not dividing the head count, a bound exceeded) are exactly a
    /// configuration error, raised before any tensor access; consistent
    /// keys always load, pinned field by field.
    pub fn from_metadata(f: &ModelFile) -> (r: Result<ModelParams, BrainError>)
        ensures
            r matches Ok(p) ==> (p.wf() && (spec_arch_keys(f.metadata@) matches Some(k)
                && p.dim == k.0 && p.n_layers == k.1 && p.n_heads == k.2
                && p.n_kv_heads == k.3 && p.vocab_size == k.4 && p.max_seq_len == k.5)),
            spec_arch_keys(f.metadata@) is None <==> r === Err::<ModelParams, BrainError>(
                BrainError::Format),
            (spec_arch_keys(f.metadata@) matches Some(k) && !spec_arch_consistent(k))
                <==> r === Err::<ModelParams, BrainError>(BrainError::Config),
            (spec_arch_keys(f.metadata@) matches Some(k) && spec_arch_consistent(k))
                <==> r is Ok,
    {
        let kd: Vec<u8> = vec![100u8, 105u8, 109u8];
        let kl: Vec<u8> = vec![108u8, 97u8, 121u8, 101u8, 114u8, 115u8];
        let kh: Vec<u8> = vec![104u8, 101u8, 97u8, 100u8, 115u8];
        let kk: Vec<u8> = vec![107u8, 118u8, 104u8, 101u8, 97u8, 100u8, 115u8];
        let kv_: Vec<u8> = vec![118u8, 111u8, 99u8, 97u8, 98u8];
        let kc: Vec<u8> = vec![99u8, 116u8, 120u8];
        proof {
            assert(kd@ =~= spec_key_dim());
            assert(kl@ =~= spec_key_layers());
            assert(kh@ =~= spec_key_heads());
            assert(kk@ =~= spec_key_kvheads());
            assert(kv_@ =~= spec_key_vocab());
            assert(kc@ =~= spec_key_ctx());
        }
        let dim = match lookup_u32(&f.metadata, &kd) {
            Some(v) => v,
            None => {
                return Err(BrainError::Format);
            },
        };
        let n_layers = match lookup_u32(&f.metadata, &kl) {
            Some(v) => v,
            None => {
                return Err(BrainError::Format);
            },
        };
        let n_heads = match lookup_u32(&f.metadata, &kh) {
            Some(v) => v,
            None => {
                return Err(BrainError::Format);
            },
        };
        let n_kv_heads = match lookup_u32(&f.metadata, &kk) {
            Some(v) => v,
            None => {
                return Err(BrainError::Format);
            },
        };
        let vocab_size = match lookup_u32(&f.metadata, &kv_) {
            Some(v) => v,
            None => {
                return Err(BrainError::Format);
            },
        };
        let max_seq_len = match lookup_u32(&f.metadata, &kc) {
            Some(v) => v,
            None => {
                return Err(BrainError::Format);
            },
        };
        if dim == 0 || dim > 16384 || n_layers == 0 || n_layers > 256 || n_heads == 0
            || n_heads > 1024 || n_kv_heads == 0 || n_kv_heads > n_heads || vocab_size == 0
            || vocab_size > 4194304 || max_seq_len == 0 || max_seq_len > 32768 {
            return Err(BrainError::Config);
        }
        if dim % n_heads != 0 {
            return Err(BrainError::Config);
        }
        if n_heads % n_kv_heads != 0 {
            return Err(BrainError::Config);
        }
        let head_dim = dim / n_heads;
        if head_dim == 0 || head_dim % 2 != 0 {
            return Err(BrainError::Config);
        }
        proof {
            assert(dim == n_heads * (dim as int / n_heads as int)) by (nonlinear_arith)
                requires
                    0 < n_heads as int,
                    dim as int % n_heads as int == 0;
        }
        Ok(ModelParams { dim, n_layers, n_heads, n_kv_heads, head_dim, vocab_size, max_seq_len })
    }
}

} // verus!
