//! The error taxonomy of the batch pipeline.
//!
//! Every stage is strict and non-recovering: each failure path carries a
//! distinguishable kind, and no error is downgraded to a default value.

use vstd::prelude::*;

verus! {

/// Failure of a single circuit's synthesis.
#[derive(Clone, Copy, Debug, PartialEq, Eq, Structural)]
pub enum SynthesisError {
    /// A linear combination referenced a variable index that was never
    /// allocated.
    AssignmentMissing,
    /// The circuit's own evaluation failed.
    Unsatisfiable,
}

/// Failure while decoding the external prover's binary proof stream.
#[derive(Clone, Copy, Debug, PartialEq, Eq, Structural)]
pub enum DecodeError {
    /// The stream ended in the middle of a proof record.
    Truncated,
    /// A record held a byte string that is not a valid group element.
    InvalidPoint { record: usize },
    /// The proof file could not be read at all.
    Unreadable,
}

/// A batch-fatal error of the whole handoff pipeline.
#[derive(Debug)]
pub enum DizkError {
    /// One circuit failed synthesis; the whole batch is aborted.
    Synthesis { circuit_index: usize, fault: SynthesisError },
    /// The assignment file could not be written.
    Serialization { message: String },
    /// The external prover failed to launch or exited non-zero; its
    /// captured diagnostic output is attached.
    ExternalProcess { launched: bool, exit_code: Option<i32>, log: String },
    /// The proof stream was malformed or truncated.
    Decode { detail: DecodeError },
}

} // verus!
