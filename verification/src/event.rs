//! The event that the source chain emits when an asset is burned there for the
//! benefit of an account on the other side.
//!
//! In the data of an event the asset comes first, as a four-byte little-endian
//! integer, then the 32 bytes of the sender's account, then the receiver as a
//! byte string behind its compact length, then the amount as an eight-byte
//! little-endian integer. Bytes after the amount are not looked at.

use vstd::prelude::*;
use crate::error::Error;
use crate::wire::{parse_compact_bytes, parse_le, take_bytes, take_compact_bytes, take_le};

verus! {

/// The length of an account id on the source chain.
pub const ACCOUNT_LEN: usize = 32;

/// A burn of `amount` of the asset `asset_id` by `sender`, in favour of
/// `receiver_id` on the other side.
#[derive(Clone, Debug, PartialEq, Eq)]
pub struct BurnedEvent {
    pub asset_id: u32,
    pub sender: Vec<u8>,
    pub receiver_id: Vec<u8>,
    pub amount: u64,
}

/// A burn event with its byte strings as sequences.
pub struct BurnedEventView {
    pub asset_id: u32,
    pub sender: Seq<u8>,
    pub receiver_id: Seq<u8>,
    pub amount: u64,
}

impl View for BurnedEvent {
    type V = BurnedEventView;

    open spec fn view(&self) -> BurnedEventView {
        BurnedEventView {
            asset_id: self.asset_id,
            sender: self.sender@,
            receiver_id: self.receiver_id@,
            amount: self.amount,
        }
    }
}

/// The event at the front of `bytes`, if there is a whole one.
pub open spec fn parse_burned(bytes: Seq<u8>) -> Option<BurnedEventView> {
    match parse_le(bytes, 4) {
        None => None,
        Some((asset_id, _)) => if bytes.len() < 4 + ACCOUNT_LEN {
            None
        } else {
            match parse_compact_bytes(bytes.skip(4 + ACCOUNT_LEN as int)) {
                None => None,
                Some((receiver_id, used)) => match parse_le(
                    bytes.skip(4 + ACCOUNT_LEN + used),
                    8,
                ) {
                    None => None,
                    Some((amount, _)) => Some(
                        BurnedEventView {
                            asset_id: asset_id as u32,
                            sender: bytes.subrange(4, 4 + ACCOUNT_LEN as int),
                            receiver_id,
                            amount: amount as u64,
                        },
                    ),
                },
            }
        },
    }
}

impl BurnedEvent {
    /// Decodes the data of a burn event. Fails with `DecodeError` when the
    /// bytes end before the event does. The sender of a decoded event is
    /// `ACCOUNT_LEN` bytes long.
    pub fn decode(bytes: &[u8]) -> (decoded: Result<BurnedEvent, Error>)
        ensures
            match decoded {
                Ok(event) => parse_burned(bytes@) == Some(event@) && event.sender@.len()
                    == ACCOUNT_LEN,
                Err(error) => error == Error::DecodeError && parse_burned(bytes@) is None,
            },
    {
        proof {
            assert(bytes@.skip(0) =~= bytes@);
        }
        let (asset_id, first) = match take_le(bytes, 0, 4) {
            None => {
                return Err(Error::DecodeError);
            },
            Some(taken) => taken,
        };
        let (sender, second) = match take_bytes(bytes, first, ACCOUNT_LEN) {
            None => {
                return Err(Error::DecodeError);
            },
            Some(taken) => taken,
        };
        let (receiver_id, third) = match take_compact_bytes(bytes, second) {
            None => {
                return Err(Error::DecodeError);
            },
            Some(taken) => taken,
        };
        let (amount, _) = match take_le(bytes, third, 8) {
            None => {
                return Err(Error::DecodeError);
            },
            Some(taken) => taken,
        };
        Ok(BurnedEvent { asset_id: asset_id as u32, sender, receiver_id, amount: amount as u64 })
    }
}

} // verus!
