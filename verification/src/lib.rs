//! Verification core of a light client that follows the finalized state of a
//! source chain: signed finality commitments are checked against a rotating
//! validator set, leaves are proven included under an accepted root, and the
//! cross-chain messages carried by a proven leaf are decoded and deduplicated.

pub mod bytes;
pub mod commitment;
pub mod crypto;
pub mod error;
pub mod event;
pub mod extractor;
pub mod finality;
pub mod header;
pub mod merkle;
pub mod message;
pub mod pipeline;
pub mod transfer;
pub mod validator_set;
pub mod wire;
