//! What the relay reads off a finalized header: the digest of the commitment
//! that the source chain has put into the header, and the key under which the
//! node keeps the messages of that commitment in its offchain store.

use vstd::prelude::*;
use crate::bytes::push_all;
use crate::error::Error;

verus! {

/// The length of the digest of a commitment.
pub const COMMITMENT_DIGEST_LEN: usize = 32;

/// One entry of the digest of a header, as far as the relay looks at it.
#[derive(Clone, Debug, PartialEq, Eq)]
pub enum DigestItem {
    /// An entry that belongs to no consensus engine. The source chain puts
    /// the digest of a commitment into such an entry.
    Other(Vec<u8>),
    /// An entry of the runtime or of a consensus engine.
    Reserved,
}

/// The bytes of the first entry of `logs` that belongs to no engine.
pub open spec fn first_other(logs: Seq<DigestItem>) -> Option<Seq<u8>>
    decreases logs.len(),
{
    if logs.len() == 0 {
        None
    } else {
        match logs[0] {
            DigestItem::Other(bytes) => Some(bytes@),
            DigestItem::Reserved => first_other(logs.drop_first()),
        }
    }
}

/// The bytes `commitment`, which open every key of the offchain store that
/// leads to the messages of a commitment.
pub open spec fn key_prefix() -> Seq<u8> {
    seq![0x63u8, 0x6fu8, 0x6du8, 0x6du8, 0x69u8, 0x74u8, 0x6du8, 0x65u8, 0x6eu8, 0x74u8]
}

/// The key of the offchain store under which the messages of the commitment
/// with this digest are kept.
pub open spec fn offchain_key(digest: Seq<u8>) -> Seq<u8> {
    key_prefix() + digest
}

/// The digest of the commitment that a header carries: the bytes of the first
/// entry of its digest that belongs to no engine, if there is such an entry.
pub fn commitment_digest_in(logs: &Vec<DigestItem>) -> (found: Option<&Vec<u8>>)
    ensures
        match found {
            Some(bytes) => first_other(logs@) == Some(bytes@),
            None => first_other(logs@) is None,
        },
{
    let mut at: usize = 0;
    proof {
        assert(logs@.skip(0) =~= logs@);
    }
    while at < logs.len()
        invariant
            at <= logs@.len(),
            first_other(logs@) == first_other(logs@.skip(at as int)),
        decreases logs@.len() - at,
    {
        proof {
            assert(logs@.skip(at as int).drop_first() =~= logs@.skip(at + 1));
        }
        match &logs[at] {
            DigestItem::Other(bytes) => {
                return Some(bytes);
            },
            DigestItem::Reserved => {},
        }
        at = at + 1;
    }
    None
}

/// The key under which the node keeps the messages of the commitment with
/// this digest. Fails with `DecodeError` when the digest is not
/// `COMMITMENT_DIGEST_LEN` bytes long.
pub fn storage_key(digest: &[u8]) -> (key: Result<Vec<u8>, Error>)
    ensures
        match key {
            Ok(bytes) => digest@.len() == COMMITMENT_DIGEST_LEN && bytes@ == offchain_key(digest@),
            Err(error) => error == Error::DecodeError && digest@.len() != COMMITMENT_DIGEST_LEN,
        },
{
    if digest.len() != COMMITMENT_DIGEST_LEN {
        return Err(Error::DecodeError);
    }
    let mut key: Vec<u8> = Vec::new();
    key.push(0x63);
    key.push(0x6f);
    key.push(0x6d);
    key.push(0x6d);
    key.push(0x69);
    key.push(0x74);
    key.push(0x6d);
    key.push(0x65);
    key.push(0x6e);
    key.push(0x74);
    push_all(&mut key, digest);
    Ok(key)
}

} // verus!
