//! The payload of a cross-chain transfer, as the application on the source
//! chain writes it into a message.
//!
//! The three byte strings stand behind their lengths as four-byte
//! little-endian integers, in the order token, sender, receiver; the amount
//! follows as a sixteen-byte little-endian integer. Nothing may come after it.

use vstd::prelude::*;
use crate::bytes::{le_bytes, lemma_le_bytes_len, lemma_radix_pow_values};
use crate::error::Error;
use crate::wire::{
    lemma_le_parse_is_canonical,
    lemma_le_round_trip,
    lemma_u32_bytes_parse_is_canonical,
    lemma_u32_bytes_round_trip,
    parse_le,
    parse_u32_bytes,
    take_le,
    take_u32_bytes,
};

verus! {

/// A transfer of `amount` of the token `token_id` from `sender` on the source
/// chain to `receiver_id` on the other side.
#[derive(Clone, Debug, PartialEq, Eq)]
pub struct XTransferPayload {
    pub token_id: Vec<u8>,
    pub sender: Vec<u8>,
    pub receiver_id: Vec<u8>,
    pub amount: u128,
}

/// A transfer with its byte strings as sequences.
pub struct XTransferPayloadView {
    pub token_id: Seq<u8>,
    pub sender: Seq<u8>,
    pub receiver_id: Seq<u8>,
    pub amount: u128,
}

impl View for XTransferPayload {
    type V = XTransferPayloadView;

    open spec fn view(&self) -> XTransferPayloadView {
        XTransferPayloadView {
            token_id: self.token_id@,
            sender: self.sender@,
            receiver_id: self.receiver_id@,
            amount: self.amount,
        }
    }
}

/// The transfer that `bytes` spell, if they spell one from the first byte to
/// the last.
pub open spec fn parse_transfer(bytes: Seq<u8>) -> Option<XTransferPayloadView> {
    match parse_u32_bytes(bytes) {
        None => None,
        Some((token_id, first)) => match parse_u32_bytes(bytes.skip(first as int)) {
            None => None,
            Some((sender, second)) => match parse_u32_bytes(bytes.skip((first + second) as int)) {
                None => None,
                Some((receiver_id, third)) => match parse_le(
                    bytes.skip((first + second + third) as int),
                    16,
                ) {
                    None => None,
                    Some((amount, fourth)) => if first + second + third + fourth == bytes.len() {
                        Some(
                            XTransferPayloadView {
                                token_id,
                                sender,
                                receiver_id,
                                amount: amount as u128,
                            },
                        )
                    } else {
                        None
                    },
                },
            },
        },
    }
}

/// The bytes of a transfer.
pub open spec fn transfer_bytes(transfer: XTransferPayloadView) -> Seq<u8> {
    le_bytes(transfer.token_id.len(), 4) + transfer.token_id + le_bytes(transfer.sender.len(), 4)
        + transfer.sender + le_bytes(transfer.receiver_id.len(), 4) + transfer.receiver_id
        + le_bytes(transfer.amount as nat, 16)
}

/// A transfer whose byte strings are short enough for their length fields is
/// read back as it was written.
pub proof fn lemma_transfer_round_trip(transfer: XTransferPayloadView)
    requires
        transfer.token_id.len() < 0x1_0000_0000,
        transfer.sender.len() < 0x1_0000_0000,
        transfer.receiver_id.len() < 0x1_0000_0000,
    ensures
        parse_transfer(transfer_bytes(transfer)) == Some(transfer),
{
    let token = le_bytes(transfer.token_id.len(), 4) + transfer.token_id;
    let sender = le_bytes(transfer.sender.len(), 4) + transfer.sender;
    let receiver = le_bytes(transfer.receiver_id.len(), 4) + transfer.receiver_id;
    let amount = le_bytes(transfer.amount as nat, 16);
    let bytes = transfer_bytes(transfer);
    lemma_radix_pow_values();
    lemma_le_bytes_len(transfer.token_id.len(), 4);
    lemma_le_bytes_len(transfer.sender.len(), 4);
    lemma_le_bytes_len(transfer.receiver_id.len(), 4);
    lemma_le_bytes_len(transfer.amount as nat, 16);
    assert(bytes =~= token + (sender + receiver + amount));
    lemma_u32_bytes_round_trip(transfer.token_id, sender + receiver + amount);
    assert(bytes.skip(token.len() as int) =~= sender + (receiver + amount));
    lemma_u32_bytes_round_trip(transfer.sender, receiver + amount);
    assert(bytes.skip((token.len() + sender.len()) as int) =~= receiver + amount);
    lemma_u32_bytes_round_trip(transfer.receiver_id, amount);
    assert(bytes.skip((token.len() + sender.len() + receiver.len()) as int) =~= amount
        + Seq::<u8>::empty());
    lemma_le_round_trip(transfer.amount as nat, 16, Seq::<u8>::empty());
}

/// Only the bytes that are written for a transfer are read as that transfer.
pub proof fn lemma_transfer_parse_is_canonical(bytes: Seq<u8>)
    requires
        parse_transfer(bytes) is Some,
    ensures
        bytes == transfer_bytes(parse_transfer(bytes).unwrap()),
{
    let (token_id, first) = parse_u32_bytes(bytes).unwrap();
    let after_token = bytes.skip(first as int);
    let (sender, second) = parse_u32_bytes(after_token).unwrap();
    let after_sender = bytes.skip((first + second) as int);
    let (receiver_id, third) = parse_u32_bytes(after_sender).unwrap();
    let after_receiver = bytes.skip((first + second + third) as int);
    lemma_radix_pow_values();
    lemma_u32_bytes_parse_is_canonical(bytes);
    lemma_u32_bytes_parse_is_canonical(after_token);
    lemma_u32_bytes_parse_is_canonical(after_sender);
    lemma_le_parse_is_canonical(after_receiver, 16);
    assert(bytes =~= bytes.take(first as int) + after_token.take(second as int)
        + after_sender.take(third as int) + after_receiver.take(16));
}

impl XTransferPayload {
    /// Decodes a transfer from the payload of a message. Fails with
    /// `DecodeError` when the bytes are not exactly one transfer.
    pub fn try_from_slice(bytes: &[u8]) -> (decoded: Result<XTransferPayload, Error>)
        ensures
            match decoded {
                Ok(transfer) => parse_transfer(bytes@) == Some(transfer@),
                Err(error) => error == Error::DecodeError && parse_transfer(bytes@) is None,
            },
    {
        proof {
            assert(bytes@.skip(0) =~= bytes@);
        }
        let (token_id, first) = match take_u32_bytes(bytes, 0) {
            None => {
                return Err(Error::DecodeError);
            },
            Some(taken) => taken,
        };
        let (sender, second) = match take_u32_bytes(bytes, first) {
            None => {
                return Err(Error::DecodeError);
            },
            Some(taken) => taken,
        };
        let (receiver_id, third) = match take_u32_bytes(bytes, second) {
            None => {
                return Err(Error::DecodeError);
            },
            Some(taken) => taken,
        };
        let (amount, end) = match take_le(bytes, third, 16) {
            None => {
                return Err(Error::DecodeError);
            },
            Some(taken) => taken,
        };
        if end != bytes.len() {
            return Err(Error::DecodeError);
        }
        Ok(XTransferPayload { token_id, sender, receiver_id, amount })
    }
}

} // verus!
