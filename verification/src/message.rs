//! Cross-chain messages and the batches that carry them.
//!
//! A batch is the compact count of its messages followed by the messages. A
//! message is its nonce as an eight-byte little-endian integer followed by its
//! payload, a byte string behind its compact length. Bytes after the last
//! message of a batch are not looked at.

use vstd::prelude::*;
use crate::bytes::{le_bytes, lemma_le_bytes_len, lemma_radix_pow_values};
use crate::error::Error;
use crate::wire::{
    compact_bytes,
    lemma_compact_bytes_parse_is_canonical,
    lemma_compact_bytes_round_trip,
    lemma_compact_parse_is_canonical,
    lemma_compact_round_trip,
    lemma_le_parse_is_canonical,
    lemma_le_round_trip,
    parse_compact,
    parse_compact_bytes,
    parse_le,
    take_compact,
    take_compact_bytes,
    take_le,
};

verus! {

/// A message from the source chain. Its nonce is its sequence number on the
/// channel it travels on.
#[derive(Clone, Debug, PartialEq, Eq)]
pub struct Message {
    pub nonce: u64,
    pub payload: Vec<u8>,
}

/// A message with its payload as a byte sequence.
pub struct MessageView {
    pub nonce: u64,
    pub payload: Seq<u8>,
}

impl View for Message {
    type V = MessageView;

    open spec fn view(&self) -> MessageView {
        MessageView { nonce: self.nonce, payload: self.payload@ }
    }
}

/// The views of a sequence of messages.
pub open spec fn message_views(messages: Seq<Message>) -> Seq<MessageView> {
    Seq::new(messages.len(), |i: int| messages[i]@)
}

/// A message at the front of `bytes`, and the number of bytes it takes.
pub open spec fn parse_message(bytes: Seq<u8>) -> Option<(MessageView, nat)> {
    match parse_le(bytes, 8) {
        None => None,
        Some((nonce, _)) => match parse_compact_bytes(bytes.skip(8)) {
            None => None,
            Some((payload, used)) => Some((MessageView { nonce: nonce as u64, payload }, 8 + used)),
        },
    }
}

/// `count` messages in a row at the front of `bytes`, and the number of bytes
/// they take.
pub open spec fn parse_messages(bytes: Seq<u8>, count: nat) -> Option<(Seq<MessageView>, nat)>
    decreases count,
{
    if count == 0 {
        Some((Seq::empty(), 0))
    } else {
        match parse_message(bytes) {
            None => None,
            Some((first, used)) => match parse_messages(
                bytes.skip(used as int),
                (count - 1) as nat,
            ) {
                None => None,
                Some((others, more)) => Some((seq![first] + others, used + more)),
            },
        }
    }
}

/// The messages of the batch at the front of `bytes`, if the bytes hold a
/// whole batch.
pub open spec fn parse_batch(bytes: Seq<u8>) -> Option<Seq<MessageView>> {
    match parse_compact(bytes) {
        None => None,
        Some((count, used)) => match parse_messages(bytes.skip(used as int), count) {
            None => None,
            Some((messages, _)) => Some(messages),
        },
    }
}

/// The bytes of one message.
pub open spec fn message_bytes(message: MessageView) -> Seq<u8> {
    le_bytes(message.nonce as nat, 8) + compact_bytes(message.payload.len()) + message.payload
}

/// The bytes of some messages in a row.
pub open spec fn messages_bytes(messages: Seq<MessageView>) -> Seq<u8>
    decreases messages.len(),
{
    if messages.len() == 0 {
        Seq::empty()
    } else {
        message_bytes(messages[0]) + messages_bytes(messages.drop_first())
    }
}

/// The bytes of a batch.
pub open spec fn batch_bytes(messages: Seq<MessageView>) -> Seq<u8> {
    compact_bytes(messages.len()) + messages_bytes(messages)
}

/// Whether a batch of these messages can be written: the number of messages
/// and the length of each payload must fit a compact length.
pub open spec fn encodable(messages: Seq<MessageView>) -> bool {
    &&& messages.len() < 0x1_0000_0000
    &&& forall|i: int| 0 <= i < messages.len() ==> (#[trigger] messages[i]).payload.len()
        < 0x1_0000_0000
}

proof fn lemma_message_round_trip(message: MessageView, rest: Seq<u8>)
    requires
        message.payload.len() < 0x1_0000_0000,
    ensures
        parse_message(message_bytes(message) + rest) == Some(
            (message, message_bytes(message).len()),
        ),
{
    let nonce = le_bytes(message.nonce as nat, 8);
    let tail = compact_bytes(message.payload.len()) + message.payload + rest;
    let bytes = message_bytes(message) + rest;
    lemma_radix_pow_values();
    lemma_le_bytes_len(message.nonce as nat, 8);
    assert(bytes =~= nonce + tail);
    lemma_le_round_trip(message.nonce as nat, 8, tail);
    assert(bytes.skip(8) =~= tail);
    lemma_compact_bytes_round_trip(message.payload, rest);
}

proof fn lemma_messages_round_trip(messages: Seq<MessageView>, rest: Seq<u8>)
    requires
        forall|i: int| 0 <= i < messages.len() ==> (#[trigger] messages[i]).payload.len()
            < 0x1_0000_0000,
    ensures
        parse_messages(messages_bytes(messages) + rest, messages.len()) == Some(
            (messages, messages_bytes(messages).len()),
        ),
    decreases messages.len(),
{
    if messages.len() > 0 {
        let first = messages[0];
        let others = messages.drop_first();
        let bytes = messages_bytes(messages) + rest;
        assert(bytes =~= message_bytes(first) + (messages_bytes(others) + rest));
        lemma_message_round_trip(first, messages_bytes(others) + rest);
        assert(bytes.skip(message_bytes(first).len() as int) =~= messages_bytes(others) + rest);
        lemma_messages_round_trip(others, rest);
    }
}

/// A batch is read back as it was written, whatever follows it.
pub proof fn lemma_batch_round_trip(messages: Seq<MessageView>, rest: Seq<u8>)
    requires
        encodable(messages),
    ensures
        parse_batch(batch_bytes(messages) + rest) == Some(messages),
{
    let count = compact_bytes(messages.len());
    let bytes = batch_bytes(messages) + rest;
    assert(bytes =~= count + (messages_bytes(messages) + rest));
    lemma_compact_round_trip(messages.len(), messages_bytes(messages) + rest);
    assert(bytes.skip(count.len() as int) =~= messages_bytes(messages) + rest);
    lemma_messages_round_trip(messages, rest);
}

proof fn lemma_message_parse_is_canonical(bytes: Seq<u8>)
    requires
        parse_message(bytes) is Some,
    ensures
        ({
            let (message, used) = parse_message(bytes).unwrap();
            &&& used <= bytes.len()
            &&& message.payload.len() < 0x1_0000_0000
            &&& bytes.take(used as int) == message_bytes(message)
        }),
{
    let (message, used) = parse_message(bytes).unwrap();
    lemma_radix_pow_values();
    lemma_le_parse_is_canonical(bytes, 8);
    lemma_compact_bytes_parse_is_canonical(bytes.skip(8));
    assert(bytes.take(used as int) =~= bytes.take(8) + bytes.skip(8).take(used - 8));
}

proof fn lemma_messages_parse_is_canonical(bytes: Seq<u8>, count: nat)
    requires
        parse_messages(bytes, count) is Some,
    ensures
        ({
            let (messages, used) = parse_messages(bytes, count).unwrap();
            &&& used <= bytes.len()
            &&& messages.len() == count
            &&& forall|i: int|
                0 <= i < messages.len() ==> (#[trigger] messages[i]).payload.len() < 0x1_0000_0000
            &&& bytes.take(used as int) == messages_bytes(messages)
        }),
    decreases count,
{
    if count > 0 {
        let (first, first_used) = parse_message(bytes).unwrap();
        let rest = bytes.skip(first_used as int);
        let (others, more) = parse_messages(rest, (count - 1) as nat).unwrap();
        let messages = seq![first] + others;
        lemma_message_parse_is_canonical(bytes);
        lemma_messages_parse_is_canonical(rest, (count - 1) as nat);
        assert(messages.drop_first() =~= others);
        assert(bytes.take((first_used + more) as int) =~= bytes.take(first_used as int)
            + rest.take(more as int));
    } else {
        assert(bytes.take(0) =~= messages_bytes(Seq::empty()));
    }
}

/// Only the bytes that are written for a batch are read as that batch: the
/// bytes of a batch that was read begin with what is written for its messages.
pub proof fn lemma_batch_parse_is_canonical(bytes: Seq<u8>)
    requires
        parse_batch(bytes) is Some,
    ensures
        ({
            let messages = parse_batch(bytes).unwrap();
            let written = batch_bytes(messages);
            &&& encodable(messages)
            &&& written.len() <= bytes.len()
            &&& bytes.take(written.len() as int) == written
        }),
{
    let (count, used) = parse_compact(bytes).unwrap();
    let rest = bytes.skip(used as int);
    let (messages, more) = parse_messages(rest, count).unwrap();
    lemma_compact_parse_is_canonical(bytes);
    lemma_messages_parse_is_canonical(rest, count);
    assert(bytes.take((used + more) as int) =~= bytes.take(used as int) + rest.take(more as int));
}

/// What has been read of a row of messages, followed by what remains to be
/// read of it.
pub open spec fn read_so_far(
    done: Seq<MessageView>,
    used: nat,
    remaining: Option<(Seq<MessageView>, nat)>,
) -> Option<(Seq<MessageView>, nat)> {
    match remaining {
        None => None,
        Some((others, more)) => Some((done + others, used + more)),
    }
}

fn take_message(bytes: &[u8], at: usize) -> (taken: Option<(Message, usize)>)
    requires
        at <= bytes@.len(),
    ensures
        match taken {
            Some((message, next)) => at < next <= bytes@.len() && parse_message(
                bytes@.skip(at as int),
            ) == Some((message@, (next - at) as nat)),
            None => parse_message(bytes@.skip(at as int)) is None,
        },
{
    match take_le(bytes, at, 8) {
        None => None,
        Some((nonce, start)) => {
            proof {
                assert(bytes@.skip(at as int).skip(8) =~= bytes@.skip(start as int));
            }
            match take_compact_bytes(bytes, start) {
                None => None,
                Some((payload, next)) => Some((Message { nonce: nonce as u64, payload }, next)),
            }
        },
    }
}

/// Decodes a batch of messages. Fails with `DecodeError` when the bytes do not
/// hold a whole batch; no message of such a batch is handed out.
pub fn decode_messages(bytes: &[u8]) -> (decoded: Result<Vec<Message>, Error>)
    ensures
        match decoded {
            Ok(messages) => parse_batch(bytes@) == Some(message_views(messages@)),
            Err(error) => error == Error::DecodeError && parse_batch(bytes@) is None,
        },
{
    proof {
        assert(bytes@.skip(0) =~= bytes@);
    }
    let (count, start) = match take_compact(bytes, 0) {
        None => {
            return Err(Error::DecodeError);
        },
        Some(taken) => taken,
    };
    let mut messages: Vec<Message> = Vec::new();
    let mut at: usize = start;
    let mut read: u32 = 0;
    while read < count
        invariant
            read <= count,
            start <= at <= bytes@.len(),
            parse_compact(bytes@) == Some((count as nat, start as nat)),
            parse_messages(bytes@.skip(start as int), count as nat) == read_so_far(
                message_views(messages@),
                (at - start) as nat,
                parse_messages(bytes@.skip(at as int), (count - read) as nat),
            ),
        decreases count - read,
    {
        match take_message(bytes, at) {
            None => {
                return Err(Error::DecodeError);
            },
            Some((message, next)) => {
                proof {
                    assert(bytes@.skip(at as int).skip(next - at) =~= bytes@.skip(next as int));
                }
                messages.push(message);
                at = next;
                read = read + 1;
            },
        }
    }
    Ok(messages)
}

} // verus!
