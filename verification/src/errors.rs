//! Error kinds of the engine.
//!
//! Each failure of loading or generation is reported as one of these
//! variants; no failure is ever masked by a plausible-but-wrong output.

use vstd::prelude::*;

verus! {

/// Why loading or generation failed.
#[derive(Clone, Copy, Debug, PartialEq, Eq, Structural)]
pub enum BrainError {
    /// Malformed or unsupported binary model file; fatal to load.
    Format,
    /// File open or map failure; fatal to load.
    Io,
    /// Inconsistent hyperparameters; fatal before any tensor access.
    Config,
    /// Key/value cache exhausted mid-generation; recoverable by a new session.
    Capacity,
    /// No valid continuation under the active grammar.
    Grammar,
    /// Inference requested before a successful load.
    ModelNotLoaded,
}

impl BrainError {
    /// A short stable description of the error kind.
    pub fn message(&self) -> (r: &'static str)
        ensures
            self is Format ==> r@ == "malformed or unsupported model file"@,
            self is Io ==> r@ == "file open or map failure"@,
            self is Config ==> r@ == "inconsistent model hyperparameters"@,
            self is Capacity ==> r@ == "context window exhausted"@,
            self is Grammar ==> r@ == "no grammar-valid continuation"@,
            self is ModelNotLoaded ==> r@ == "model not loaded"@,
    {
        match self {
            BrainError::Format => "malformed or unsupported model file",
            BrainError::Io => "file open or map failure",
            BrainError::Config => "inconsistent model hyperparameters",
            BrainError::Capacity => "context window exhausted",
            BrainError::Grammar => "no grammar-valid continuation",
            BrainError::ModelNotLoaded => "model not loaded",
        }
    }
}

} // verus!
