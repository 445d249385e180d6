//! The faults the core can report. Every one of them is recoverable: a call
//! that fails leaves the state it was given untouched.

use vstd::prelude::*;

verus! {

/// Why a commitment, a rotation, a proof or a batch was turned down.
#[derive(Clone, Copy, Debug, PartialEq, Eq, Structural)]
pub enum Error {
    /// The commitment is not newer than the finalized head.
    StaleCommitment,
    /// The commitment names a validator set that is neither current nor the one before it.
    UnknownValidatorSet,
    /// The voting weight behind the valid signatures is below the quorum threshold.
    InsufficientSignatures,
    /// The rotation names a set id that is not ahead of the current one.
    StaleRotation,
    /// The rotation skips at least one set id.
    RotationGap,
    /// The root recomputed from an inclusion proof differs from the trusted root.
    ProofMismatch,
    /// The sibling path of an inclusion proof is too short for the claimed leaf index.
    MalformedProof,
    /// The bytes are truncated or do not follow the expected encoding.
    DecodeError,
}

impl Error {
    /// Whether the fault can only be resolved by a catch-up sync from outside:
    /// true of a rotation gap and of nothing else.
    pub fn needs_catch_up(&self) -> (needed: bool)
        ensures
            needed == (*self == Error::RotationGap),
    {
        match self {
            Error::RotationGap => true,
            _ => false,
        }
    }
}

} // verus!
