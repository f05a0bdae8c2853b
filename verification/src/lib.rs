//! Commitment and task-ledger library: a Merkle tree over (identity, asset)
//! balance leaves with inclusion proofs, a deterministic binary codec for the
//! persisted proof records, a bounded-retry task execution state machine, and
//! the orchestration that assembles balance-ownership proofs from them.

use vstd::prelude::*;

pub mod codec;
pub mod hashing;
pub mod identity;
pub mod merkle;
pub mod orchestrator;
pub mod proofstore;
pub mod prover;
pub mod records;
pub mod reference;
pub mod store;
pub mod strings;
pub mod tasks;

verus! {

/// The failures that the library's operations surface to callers.
#[derive(Clone, Copy, Debug, PartialEq, Eq, Structural)]
pub enum ProofError {
    /// A reference, proof or leaf key is absent.
    NotFound,
    /// A zero minimum balance, or an identity that does not parse.
    InvalidArgument,
    /// The balance ledger has not produced a root yet.
    Uninitialized,
    /// The oracle reported a balance below the requested minimum.
    InsufficientBalance,
    /// The balance oracle or the prover was unreachable or reported an error.
    ExternalCallFailure,
}

} // verus!
