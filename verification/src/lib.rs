//! Local LLM inference engine: loads a quantized transformer model from a
//! single self-describing binary container and performs autoregressive text
//! generation, with no external inference service.
//!
//! Numeric kernels work on deterministic fixed-point integers so that every
//! computation can be stated and proved exactly.

use vstd::prelude::*;

pub mod errors;
pub mod format;
pub mod fixed;
pub mod sampler;
pub mod tokenizer;
pub mod kv_cache;
pub mod quant;
pub mod rope;
pub mod kernels;
pub mod model;
pub mod grammar;
pub mod engine;
pub mod channels;
pub mod gateway;
pub mod attention;

verus! {

} // verus!
