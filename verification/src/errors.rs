//! The error taxonomy of the proof system.
//!
//! Verification distinguishes a negative answer, `Ok(false)`, from a failure
//! to evaluate the proof at all, which is one of these errors. Nothing is
//! retried; every error is terminal for the operation that raised it.

use vstd::prelude::*;

use crate::labels::{LcLabel, PolyLabel};

verus! {

/// Everything the prover, verifier and setup can fail with.
#[derive(Clone, Copy, Debug, PartialEq, Eq, Structural)]
pub enum SnarkError {
    /// The universal parameters cannot be grown to the degree a circuit needs:
    /// the degree they support, and the degree needed.
    IndexTooLarge(usize, usize),
    /// No circuits, or no public inputs, were passed.
    EmptyBatch,
    /// The prover state lacks a circuit that the batch names. The batch
    /// prover here derives its state positionally from the keys it is handed,
    /// so it never raises this; the variant stays for callers that key their
    /// batches externally.
    CircuitNotFound,
    /// The count of supplied public inputs differs from the proof's batch size.
    BatchSizeMismatch,
    /// The termination flag was observed set.
    Terminated,
    /// A linear combination expected at evaluation time is absent.
    MissingEval(LcLabel),
    /// A circuit's matrices or counts are malformed.
    InvalidCircuit,
    /// An instance assignment does not fit its circuit.
    InvalidInstance,
    /// The commitment scheme was handed a combination naming an unknown polynomial.
    MissingPolynomial(PolyLabel),
    /// The commitment scheme was handed no claimed value for a combination.
    MissingEvaluation(LcLabel),
}

impl SnarkError {
    /// A short description of the error.
    pub fn describe(&self) -> (r: &'static str) {
        match self {
            SnarkError::IndexTooLarge(_, _) => "the universal parameters are too small for the circuit",
            SnarkError::EmptyBatch => "the batch is empty",
            SnarkError::CircuitNotFound => "a circuit of the batch is not in the prover state",
            SnarkError::BatchSizeMismatch => "the public input count differs from the proof's batch size",
            SnarkError::Terminated => "the operation was terminated",
            SnarkError::MissingEval(_) => "a linear combination lacks its evaluation",
            SnarkError::InvalidCircuit => "the circuit is malformed",
            SnarkError::InvalidInstance => "an instance does not fit its circuit",
            SnarkError::MissingPolynomial(_) => "a combination names an unknown polynomial",
            SnarkError::MissingEvaluation(_) => "a combination has no claimed value",
        }
    }
}

} // verus!
