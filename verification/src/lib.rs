//! A preprocessing zk-SNARK prover and verifier core in the Marlin style.
//!
//! The crate drives a four-round algebraic holographic proof for rank-1
//! constraint systems, compiled into a non-interactive argument by the
//! Fiat-Shamir transform over an algebraic sponge, with polynomials committed
//! and opened through a polynomial commitment scheme. It produces and checks
//! batch proofs covering several circuits with several instances each, and a
//! certificate subprotocol that ties a verifying key to its circuit.

pub mod ahp;
pub mod domain;
pub mod errors;
pub mod field;
pub mod keys;
pub mod labels;
pub mod marlin;
pub mod pcs;
pub mod poly;
pub mod proof_data;
pub mod r1cs;
pub mod rounds;
pub mod rng;
pub mod scalar;
pub mod terminator;
pub mod transaction;
pub mod sponge;

use vstd::prelude::*;

verus! {

} // verus!
