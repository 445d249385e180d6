//! Finality commitments: what the validators attest to, and how it is put into
//! bytes for signing.

use vstd::prelude::*;
use crate::bytes::{le_bytes, lemma_le_bytes_len, push_all, push_le};
use crate::crypto::{keccak256, keccak_256, Digest, Signature};

verus! {

/// The root of the source chain's accumulator. It means nothing without the
/// block number of the commitment that carries it.
#[derive(Clone, Copy, Debug, PartialEq, Eq)]
pub struct Payload {
    pub root: Digest,
}

/// The statement that, at `block_number`, the accumulator root is `payload`,
/// made by the validator set `validator_set_id`.
#[derive(Clone, Copy, Debug, PartialEq, Eq)]
pub struct Commitment {
    pub payload: Payload,
    pub block_number: u32,
    pub validator_set_id: u64,
}

/// A commitment with the signatures gathered for it. The signature at a
/// position belongs to the validator at the same position of the set that
/// signed; a validator that did not sign has `None` there.
#[derive(Clone, Debug, PartialEq, Eq)]
pub struct SignedCommitment {
    pub commitment: Commitment,
    pub signatures: Vec<Option<Signature>>,
}

/// The bytes that validators sign for `commitment`: the root, then the block
/// number in four bytes, then the validator set id in eight, both little-endian.
pub open spec fn commitment_bytes(commitment: Commitment) -> Seq<u8> {
    commitment.payload.root@ + le_bytes(commitment.block_number as nat, 4) + le_bytes(
        commitment.validator_set_id as nat,
        8,
    )
}

/// The digest over which the signatures of `commitment` are made.
pub open spec fn commitment_digest(commitment: Commitment) -> Seq<u8> {
    keccak256(commitment_bytes(commitment))
}

impl Payload {
    /// The payload that holds `root`.
    pub fn new(root: Digest) -> (payload: Payload)
        ensures
            payload.root == root,
    {
        Payload { root }
    }
}

impl Commitment {
    /// The signed body of the commitment, 44 bytes long.
    pub fn encode(&self) -> (bytes: Vec<u8>)
        ensures
            bytes@ == commitment_bytes(*self),
            bytes@.len() == 44,
    {
        let mut bytes: Vec<u8> = Vec::new();
        push_all(&mut bytes, self.payload.root.as_slice());
        push_le(&mut bytes, self.block_number as u128, 4);
        push_le(&mut bytes, self.validator_set_id as u128, 8);
        proof {
            lemma_le_bytes_len(self.block_number as nat, 4);
            lemma_le_bytes_len(self.validator_set_id as nat, 8);
        }
        bytes
    }

    /// The Keccak-256 digest of the signed body.
    pub fn signing_digest(&self) -> (digest: Digest)
        ensures
            digest@ == commitment_digest(*self),
    {
        let bytes = self.encode();
        keccak_256(bytes.as_slice())
    }
}

} // verus!
