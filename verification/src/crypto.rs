//! The two cryptographic primitives the core relies on, Keccak-256 and
//! secp256k1 ECDSA, as provided by `sp_core`. Neither is verified here: each
//! result is given a name, and the rest of the library reasons about that name.

use vstd::prelude::*;

verus! {

/// A 256-bit digest.
pub type Digest = [u8; 32];

/// A compressed secp256k1 public key.
pub type PublicKey = [u8; 33];

/// A recoverable secp256k1 signature: 64 bytes followed by the recovery id.
pub type Signature = [u8; 65];

/// The Keccak-256 digest of `data`.
pub uninterp spec fn keccak256(data: Seq<u8>) -> Seq<u8>;

/// Whether `signature` is a valid ECDSA signature by `public_key` over the
/// 32-byte message digest `digest`.
pub uninterp spec fn ecdsa_valid(signature: Seq<u8>, digest: Seq<u8>, public_key: Seq<u8>) -> bool;

/// Calls `<sp_core::KeccakHasher as sp_core::Hasher>::hash`, which hashes its
/// input with Keccak-256. Assumed, not proved: the outcome depends on the input
/// bytes alone, so it is the named digest of those bytes. The length of the
/// digest is fixed by the return type.
#[verifier::external_body]
pub(crate) fn keccak_256(data: &[u8]) -> (digest: Digest)
    ensures
        digest@ == keccak256(data@),
{
    <sp_core::KeccakHasher as sp_core::Hasher>::hash(data).to_fixed_bytes()
}

/// Calls `sp_core::ecdsa::Pair::verify_prehashed`, which recovers the signer's
/// key from the signature and the digest and reports whether it equals
/// `public_key`; a signature from which no key can be recovered is reported as
/// invalid. Assumed, not proved: the outcome depends on the three arguments
/// alone, so it is the named verdict on them.
#[verifier::external_body]
pub(crate) fn ecdsa_verify_prehashed(
    signature: &Signature,
    digest: &Digest,
    public_key: &PublicKey,
) -> (valid: bool)
    ensures
        valid == ecdsa_valid(signature@, digest@, public_key@),
{
    sp_core::ecdsa::Pair::verify_prehashed(
        &sp_core::ecdsa::Signature::from_raw(*signature),
        digest,
        &sp_core::ecdsa::Public::from_raw(*public_key),
    )
}

} // verus!
