//! Extraction of messages from a proven leaf, with protection against
//! delivering a message twice.
//!
//! An extractor serves one channel. It keeps the highest nonce it has handed
//! out, its high-water mark, and drops every message whose nonce does not
//! exceed the mark. A dropped message is no error: batches may overlap, and a
//! batch may arrive again.

use vstd::prelude::*;
use crate::bytes::copy_range;
use crate::error::Error;
use crate::message::{decode_messages, message_views, parse_batch, Message, MessageView};
use crate::transfer::{parse_transfer, XTransferPayload, XTransferPayloadView};

verus! {

/// A message that was handed out, with the transfer that its payload spells.
/// Where the payload is no transfer, `transfer` is `None`; the message is
/// handed out all the same.
#[derive(Clone, Debug, PartialEq, Eq)]
pub struct Extracted {
    pub message: Message,
    pub transfer: Option<XTransferPayload>,
}

/// An extracted message with its byte strings as sequences.
pub struct ExtractedView {
    pub message: MessageView,
    pub transfer: Option<XTransferPayloadView>,
}

impl View for Extracted {
    type V = ExtractedView;

    open spec fn view(&self) -> ExtractedView {
        ExtractedView {
            message: self.message@,
            transfer: match self.transfer {
                Some(transfer) => Some(transfer@),
                None => None,
            },
        }
    }
}

/// The views of a sequence of extracted messages.
pub open spec fn extracted_views(extracted: Seq<Extracted>) -> Seq<ExtractedView> {
    Seq::new(extracted.len(), |i: int| extracted[i]@)
}

/// Keeps the high-water mark of one channel.
#[derive(Clone, Copy, Debug, PartialEq, Eq)]
pub struct MessageExtractor {
    mark: Option<u64>,
}

/// Whether a message with this nonce is handed out at this mark.
pub open spec fn is_fresh(mark: Option<u64>, nonce: u64) -> bool {
    match mark {
        None => true,
        Some(highest) => nonce > highest,
    }
}

/// The mark after the messages have been gone through in order.
pub open spec fn mark_after(mark: Option<u64>, messages: Seq<MessageView>) -> Option<u64>
    decreases messages.len(),
{
    if messages.len() == 0 {
        mark
    } else {
        let before = mark_after(mark, messages.drop_last());
        if is_fresh(before, messages.last().nonce) {
            Some(messages.last().nonce)
        } else {
            before
        }
    }
}

/// The messages that are handed out when the messages are gone through in
/// order: each one that is fresh at the mark left by those before it.
pub open spec fn fresh_messages(mark: Option<u64>, messages: Seq<MessageView>) -> Seq<MessageView>
    decreases messages.len(),
{
    if messages.len() == 0 {
        Seq::empty()
    } else {
        let earlier = fresh_messages(mark, messages.drop_last());
        if is_fresh(mark_after(mark, messages.drop_last()), messages.last().nonce) {
            earlier.push(messages.last())
        } else {
            earlier
        }
    }
}

/// A message as it is handed out: with the transfer decoded from its payload.
pub open spec fn handed_out(message: MessageView) -> ExtractedView {
    ExtractedView { message, transfer: parse_transfer(message.payload) }
}

/// What extracting from `leaf` at `mark` yields: the messages handed out and
/// the new mark, or a decode error when the leaf holds no whole batch.
pub open spec fn extraction(mark: Option<u64>, leaf: Seq<u8>) -> Result<
    (Seq<ExtractedView>, Option<u64>),
    Error,
> {
    match parse_batch(leaf) {
        None => Err(Error::DecodeError),
        Some(messages) => Ok(
            (
                fresh_messages(mark, messages).map_values(|message: MessageView| handed_out(message)),
                mark_after(mark, messages),
            ),
        ),
    }
}

/// The mark after the leaves have been extracted from one after the other. A
/// leaf that holds no batch leaves the mark alone.
pub open spec fn mark_after_leaves(mark: Option<u64>, leaves: Seq<Seq<u8>>) -> Option<u64>
    decreases leaves.len(),
{
    if leaves.len() == 0 {
        mark
    } else {
        let before = mark_after_leaves(mark, leaves.drop_last());
        match parse_batch(leaves.last()) {
            None => before,
            Some(messages) => mark_after(before, messages),
        }
    }
}

/// Every message handed out while the leaves are extracted from one after the
/// other, in the order of handing out.
pub open spec fn handed_out_over(mark: Option<u64>, leaves: Seq<Seq<u8>>) -> Seq<MessageView>
    decreases leaves.len(),
{
    if leaves.len() == 0 {
        Seq::empty()
    } else {
        let earlier = handed_out_over(mark, leaves.drop_last());
        match parse_batch(leaves.last()) {
            None => earlier,
            Some(messages) => earlier + fresh_messages(
                mark_after_leaves(mark, leaves.drop_last()),
                messages,
            ),
        }
    }
}

/// Whether `messages` could have been handed out between the marks `from` and
/// `to`: every nonce is fresh at `from` and covered by `to`, the nonces rise,
/// and `to` covers whatever `from` covers.
pub open spec fn rises_between(from: Option<u64>, messages: Seq<MessageView>, to: Option<u64>) -> bool {
    &&& forall|i: int|
        0 <= i < messages.len() ==> is_fresh(from, (#[trigger] messages[i]).nonce) && !is_fresh(
            to,
            messages[i].nonce,
        )
    &&& forall|i: int, j: int|
        0 <= i < j < messages.len() ==> (#[trigger] messages[i]).nonce < (
        #[trigger] messages[j]).nonce
    &&& forall|nonce: u64| !is_fresh(from, nonce) ==> !#[trigger] is_fresh(to, nonce)
}

/// The messages handed out of one batch have rising nonces above the old mark,
/// and the new mark covers them all.
pub proof fn lemma_fresh_messages_rise(mark: Option<u64>, messages: Seq<MessageView>)
    ensures
        rises_between(mark, fresh_messages(mark, messages), mark_after(mark, messages)),
    decreases messages.len(),
{
    if messages.len() > 0 {
        lemma_fresh_messages_rise(mark, messages.drop_last());
    }
}

/// The messages handed out over a series of leaves have rising nonces above
/// the first mark, and the last mark covers them all.
pub proof fn lemma_handed_out_rises(mark: Option<u64>, leaves: Seq<Seq<u8>>)
    ensures
        rises_between(mark, handed_out_over(mark, leaves), mark_after_leaves(mark, leaves)),
    decreases leaves.len(),
{
    if leaves.len() > 0 {
        let before = mark_after_leaves(mark, leaves.drop_last());
        lemma_handed_out_rises(mark, leaves.drop_last());
        if let Some(messages) = parse_batch(leaves.last()) {
            lemma_fresh_messages_rise(before, messages);
        }
    }
}

/// No nonce is handed out twice, however the leaves overlap and however often
/// one of them comes again.
pub proof fn lemma_no_nonce_twice(mark: Option<u64>, leaves: Seq<Seq<u8>>, i: int, j: int)
    requires
        0 <= i < handed_out_over(mark, leaves).len(),
        0 <= j < handed_out_over(mark, leaves).len(),
        i != j,
    ensures
        handed_out_over(mark, leaves)[i].nonce != handed_out_over(mark, leaves)[j].nonce,
{
    lemma_handed_out_rises(mark, leaves);
}

/// A batch that comes again right away has nothing left to hand out, and
/// leaves the mark where it is.
pub proof fn lemma_replay_hands_out_nothing(mark: Option<u64>, messages: Seq<MessageView>)
    ensures
        fresh_messages(mark_after(mark, messages), messages).len() == 0,
        mark_after(mark_after(mark, messages), messages) == mark_after(mark, messages),
{
    lemma_covered_hand_out_nothing(mark, messages, mark_after(mark, messages), messages.len());
    assert(messages.take(messages.len() as int) =~= messages);
}

proof fn lemma_mark_covers_all(mark: Option<u64>, messages: Seq<MessageView>, i: int)
    requires
        0 <= i < messages.len(),
    ensures
        !is_fresh(mark_after(mark, messages), messages[i].nonce),
        forall|nonce: u64| !is_fresh(mark, nonce) ==> !#[trigger] is_fresh(
            mark_after(mark, messages),
            nonce,
        ),
    decreases messages.len(),
{
    lemma_fresh_messages_rise(mark, messages);
    if i < messages.len() - 1 {
        lemma_mark_covers_all(mark, messages.drop_last(), i);
    }
}

proof fn lemma_covered_hand_out_nothing(
    mark: Option<u64>,
    messages: Seq<MessageView>,
    later: Option<u64>,
    upto: nat,
)
    requires
        upto <= messages.len(),
        later == mark_after(mark, messages),
    ensures
        fresh_messages(later, messages.take(upto as int)).len() == 0,
        mark_after(later, messages.take(upto as int)) == later,
    decreases upto,
{
    if upto > 0 {
        let prefix = messages.take(upto as int);
        lemma_covered_hand_out_nothing(mark, messages, later, (upto - 1) as nat);
        assert(prefix.drop_last() =~= messages.take(upto - 1));
        lemma_mark_covers_all(mark, messages, upto - 1);
    }
}

impl MessageExtractor {
    /// An extractor that has handed out nothing yet.
    pub fn new() -> (extractor: MessageExtractor)
        ensures
            extractor.high_water_mark() is None,
    {
        MessageExtractor { mark: None }
    }

    /// The highest nonce that was handed out, if any was.
    pub closed spec fn high_water_mark(&self) -> Option<u64> {
        self.mark
    }

    /// The highest nonce that was handed out, if any was.
    pub fn mark(&self) -> (mark: Option<u64>)
        ensures
            mark == self.high_water_mark(),
    {
        self.mark
    }

    /// Decodes the batch in `leaf`, which must be a leaf proven against an
    /// accepted root, and hands out its messages in order, leaving out those
    /// whose nonce the mark already covers. Fails with `DecodeError` when the
    /// leaf holds no whole batch; then nothing is handed out and the mark
    /// stays.
    pub fn extract(&mut self, leaf: &[u8]) -> (result: Result<Vec<Extracted>, Error>)
        ensures
            match result {
                Ok(extracted) => extraction(old(self).high_water_mark(), leaf@) == Ok::<
                    (Seq<ExtractedView>, Option<u64>),
                    Error,
                >((extracted_views(extracted@), final(self).high_water_mark())),
                Err(error) => extraction(old(self).high_water_mark(), leaf@) == Err::<
                    (Seq<ExtractedView>, Option<u64>),
                    Error,
                >(error) && final(self).high_water_mark() == old(self).high_water_mark(),
            },
    {
        let messages = match decode_messages(leaf) {
            Err(error) => {
                return Err(error);
            },
            Ok(messages) => messages,
        };
        let ghost all = message_views(messages@);
        let ghost start = self.mark;
        let mut extracted: Vec<Extracted> = Vec::new();
        let mut at: usize = 0;
        while at < messages.len()
            invariant
                at <= messages@.len(),
                all == message_views(messages@),
                self.mark == mark_after(start, all.take(at as int)),
                extracted_views(extracted@) == fresh_messages(start, all.take(at as int)).map_values(
                    |message: MessageView| handed_out(message),
                ),
            decreases messages@.len() - at,
        {
            let message = &messages[at];
            let fresh = match self.mark {
                None => true,
                Some(highest) => message.nonce > highest,
            };
            proof {
                assert(all.take(at + 1).drop_last() =~= all.take(at as int));
            }
            if fresh {
                let ghost before = extracted_views(extracted@);
                let payload = copy_range(message.payload.as_slice(), 0, message.payload.len());
                proof {
                    assert(payload@ =~= message.payload@);
                }
                let transfer = match XTransferPayload::try_from_slice(payload.as_slice()) {
                    Ok(transfer) => Some(transfer),
                    Err(_) => None,
                };
                let handed = Extracted {
                    message: Message { nonce: message.nonce, payload },
                    transfer,
                };
                extracted.push(handed);
                self.mark = Some(message.nonce);
                proof {
                    assert(extracted_views(extracted@) =~= before.push(handed_out(message@)));
                }
            }
            at = at + 1;
        }
        proof {
            assert(all.take(at as int) =~= all);
        }
        Ok(extracted)
    }
}

} // verus!
