//! The relay as a state machine.
//!
//! The pipeline owns the tracker, the finalized head and the high-water mark,
//! so every change to them goes through one place. It does no waiting and no
//! sending itself: the caller hands it what arrived as an [`Event`] and carries
//! out the [`Action`] it answers with.
//!
//! A commitment or a rotation is taken while the pipeline is ready for input:
//! when it awaits a commitment, when it is idle after a delivery, and when it
//! is faulted. A fault is therefore left by the next input, and never stops
//! the relay. A proof, or the word that none can be had, is taken while a
//! proof is awaited; the word that the messages were delivered is taken while
//! they are out for delivery. Whatever arrives at another time is ignored.
//! Only a shutdown ends the pipeline.
//!
//! Which events a stage takes is the table [`Stage::takes`]; where the
//! pipeline goes from there is the table [`Outcome::stage`].

use vstd::prelude::*;
use crate::commitment::{Commitment, SignedCommitment};
use crate::crypto::Signature;
use crate::error::Error;
use crate::extractor::{extracted_views, extraction, Extracted, ExtractedView, MessageExtractor};
use crate::finality::{import_outcome, CommitmentVerifier};
use crate::merkle::{verify_outcome, InclusionProof, InclusionProofView, ProofVerifier};
use crate::validator_set::{
    rotation_outcome,
    TrackerView,
    ValidatorSet,
    ValidatorSetTracker,
    ValidatorSetView,
};

verus! {

/// Where the pipeline stands.
#[derive(Clone, Copy, Debug, PartialEq, Eq)]
pub enum Stage {
    /// Ready for the next signed commitment.
    AwaitingCommitment,
    /// This commitment was accepted; the proof of its leaf is awaited.
    VerifyingProof(Commitment),
    /// The messages of the proven leaf are out for delivery.
    ExtractingMessages,
    /// The messages were delivered.
    Idle,
    /// The last input failed with this error.
    Faulted(Error),
    /// The pipeline was shut down.
    Stopped,
}

/// What reached the relay.
#[derive(Debug)]
pub enum Event {
    /// A signed commitment from the stream of justifications.
    Commitment(SignedCommitment),
    /// The inclusion proof that was asked for.
    Proof(InclusionProof),
    /// The inclusion proof that was asked for cannot be had.
    ProofUnavailable,
    /// The messages handed out last have reached the sink.
    Delivered,
    /// The source chain has moved to this validator set, under this id.
    Rotation(ValidatorSet, u64),
    /// The caller wants the relay to end.
    Shutdown,
}

/// An event with what it carries as plain values.
pub enum EventView {
    Commitment(Commitment, Seq<Option<Signature>>),
    Proof(InclusionProofView),
    ProofUnavailable,
    Delivered,
    Rotation(ValidatorSetView, u64),
    Shutdown,
}

/// The kind of an event, without what it carries.
#[derive(Clone, Copy, Debug, PartialEq, Eq)]
pub enum EventKind {
    Commitment,
    Proof,
    ProofUnavailable,
    Delivered,
    Rotation,
    Shutdown,
}

/// What came of an event that was taken.
#[derive(Clone, Copy, Debug, PartialEq, Eq)]
pub enum Outcome {
    /// This commitment was accepted.
    Accepted(Commitment),
    /// The tracker has moved to the next validator set.
    Rotated,
    /// The leaf was proven and its messages were handed out.
    Extracted,
    /// The wait for a proof was given up.
    Abandoned,
    /// The messages have reached the sink.
    Delivered,
    /// The event failed with this error.
    Failed(Error),
    /// The relay was told to end.
    Shutdown,
}

/// What the caller is to do next.
#[derive(Clone, Debug, PartialEq, Eq)]
pub enum Action {
    /// Wait for the next input.
    Wait,
    /// Obtain the inclusion proof for the leaf of this commitment and hand it in.
    Prove(Commitment),
    /// Pass these messages to the sink, then report them delivered.
    Deliver(Vec<Extracted>),
    /// Report this error; the relay goes on with the next input.
    Report(Error),
    /// The event came at the wrong time and changed nothing.
    Ignored,
    /// Stop feeding the relay.
    Halt,
}

/// An action with what it carries as plain values.
pub enum ActionView {
    Wait,
    Prove(Commitment),
    Deliver(Seq<ExtractedView>),
    Report(Error),
    Ignored,
    Halt,
}

/// The relay: its stage and the state of the three parts it drives.
#[derive(Clone, Debug, PartialEq, Eq)]
pub struct RelayPipeline {
    stage: Stage,
    tracker: ValidatorSetTracker,
    verifier: CommitmentVerifier,
    extractor: MessageExtractor,
}

/// What a pipeline holds: its stage, the validator sets it knows, the
/// finalized head and the high-water mark.
pub struct PipelineView {
    pub stage: Stage,
    pub tracker: TrackerView,
    pub head: Option<Commitment>,
    pub mark: Option<u64>,
}

impl View for Event {
    type V = EventView;

    open spec fn view(&self) -> EventView {
        match *self {
            Event::Commitment(signed) => EventView::Commitment(
                signed.commitment,
                signed.signatures@,
            ),
            Event::Proof(proof) => EventView::Proof(proof@),
            Event::ProofUnavailable => EventView::ProofUnavailable,
            Event::Delivered => EventView::Delivered,
            Event::Rotation(set, set_id) => EventView::Rotation(set@, set_id),
            Event::Shutdown => EventView::Shutdown,
        }
    }
}

impl View for Action {
    type V = ActionView;

    open spec fn view(&self) -> ActionView {
        match *self {
            Action::Wait => ActionView::Wait,
            Action::Prove(commitment) => ActionView::Prove(commitment),
            Action::Deliver(extracted) => ActionView::Deliver(extracted_views(extracted@)),
            Action::Report(error) => ActionView::Report(error),
            Action::Ignored => ActionView::Ignored,
            Action::Halt => ActionView::Halt,
        }
    }
}

impl EventView {
    /// The kind of the event.
    pub open spec fn kind(self) -> EventKind {
        match self {
            EventView::Commitment(_, _) => EventKind::Commitment,
            EventView::Proof(_) => EventKind::Proof,
            EventView::ProofUnavailable => EventKind::ProofUnavailable,
            EventView::Delivered => EventKind::Delivered,
            EventView::Rotation(_, _) => EventKind::Rotation,
            EventView::Shutdown => EventKind::Shutdown,
        }
    }
}

impl Event {
    /// The kind of the event.
    pub fn kind(&self) -> (kind: EventKind)
        ensures
            kind == self@.kind(),
    {
        match self {
            Event::Commitment(_) => EventKind::Commitment,
            Event::Proof(_) => EventKind::Proof,
            Event::ProofUnavailable => EventKind::ProofUnavailable,
            Event::Delivered => EventKind::Delivered,
            Event::Rotation(_, _) => EventKind::Rotation,
            Event::Shutdown => EventKind::Shutdown,
        }
    }
}

impl Stage {
    /// Whether a commitment or a rotation is taken at this stage.
    pub open spec fn ready_for_input(self) -> bool {
        self is AwaitingCommitment || self is Idle || self is Faulted
    }

    /// Whether an event of this kind is taken at this stage.
    pub open spec fn takes(self, kind: EventKind) -> bool {
        match kind {
            EventKind::Shutdown => !(self is Stopped),
            EventKind::Commitment => self.ready_for_input(),
            EventKind::Rotation => self.ready_for_input(),
            EventKind::Proof => self is VerifyingProof,
            EventKind::ProofUnavailable => self is VerifyingProof,
            EventKind::Delivered => self is ExtractingMessages,
        }
    }

    /// Whether an event of this kind is taken at this stage.
    pub fn accepts(&self, kind: EventKind) -> (taken: bool)
        ensures
            taken == self.takes(kind),
    {
        let ready = match self {
            Stage::AwaitingCommitment => true,
            Stage::Idle => true,
            Stage::Faulted(_) => true,
            _ => false,
        };
        match kind {
            EventKind::Shutdown => match self {
                Stage::Stopped => false,
                _ => true,
            },
            EventKind::Commitment => ready,
            EventKind::Rotation => ready,
            EventKind::Proof => match self {
                Stage::VerifyingProof(_) => true,
                _ => false,
            },
            EventKind::ProofUnavailable => match self {
                Stage::VerifyingProof(_) => true,
                _ => false,
            },
            EventKind::Delivered => match self {
                Stage::ExtractingMessages => true,
                _ => false,
            },
        }
    }
}

impl Outcome {
    /// The stage that the pipeline enters on this outcome.
    pub open spec fn stage(self) -> Stage {
        match self {
            Outcome::Accepted(commitment) => Stage::VerifyingProof(commitment),
            Outcome::Rotated => Stage::AwaitingCommitment,
            Outcome::Extracted => Stage::ExtractingMessages,
            Outcome::Abandoned => Stage::AwaitingCommitment,
            Outcome::Delivered => Stage::Idle,
            Outcome::Failed(error) => Stage::Faulted(error),
            Outcome::Shutdown => Stage::Stopped,
        }
    }

    /// The stage that the pipeline enters on this outcome.
    pub fn next_stage(&self) -> (stage: Stage)
        ensures
            stage == self.stage(),
    {
        match self {
            Outcome::Accepted(commitment) => Stage::VerifyingProof(*commitment),
            Outcome::Rotated => Stage::AwaitingCommitment,
            Outcome::Extracted => Stage::ExtractingMessages,
            Outcome::Abandoned => Stage::AwaitingCommitment,
            Outcome::Delivered => Stage::Idle,
            Outcome::Failed(error) => Stage::Faulted(*error),
            Outcome::Shutdown => Stage::Stopped,
        }
    }
}

impl PipelineView {
    /// The state after an event that changed neither tracker, head nor mark.
    pub open spec fn after(self, outcome: Outcome) -> PipelineView {
        PipelineView {
            stage: outcome.stage(),
            tracker: self.tracker,
            head: self.head,
            mark: self.mark,
        }
    }

    /// The state after a failure: everything as it was, the error retained.
    pub open spec fn faulted(self, error: Error) -> (PipelineView, ActionView) {
        (self.after(Outcome::Failed(error)), ActionView::Report(error))
    }
}

/// The state that follows `state` on `event`, and the action asked of the
/// caller.
pub open spec fn transition(state: PipelineView, event: EventView) -> (PipelineView, ActionView) {
    if !state.stage.takes(event.kind()) {
        (state, ActionView::Ignored)
    } else {
        match event {
            EventView::Shutdown => (state.after(Outcome::Shutdown), ActionView::Halt),
            EventView::Commitment(commitment, signatures) => match import_outcome(
                state.head,
                state.tracker,
                commitment,
                signatures,
            ) {
                Err(error) => state.faulted(error),
                Ok(_) => (
                    PipelineView {
                        stage: Outcome::Accepted(commitment).stage(),
                        tracker: state.tracker,
                        head: Some(commitment),
                        mark: state.mark,
                    },
                    ActionView::Prove(commitment),
                ),
            },
            EventView::Rotation(new_set, new_set_id) => match rotation_outcome(
                state.tracker,
                new_set,
                new_set_id,
            ) {
                Err(error) => state.faulted(error),
                Ok(tracker) => (
                    PipelineView {
                        stage: Outcome::Rotated.stage(),
                        tracker,
                        head: state.head,
                        mark: state.mark,
                    },
                    ActionView::Wait,
                ),
            },
            EventView::Proof(proof) => match verify_outcome(
                proof,
                state.stage->VerifyingProof_0.payload.root@,
            ) {
                Err(error) => state.faulted(error),
                Ok(leaf) => match extraction(state.mark, leaf) {
                    Err(error) => state.faulted(error),
                    Ok((messages, mark)) => (
                        PipelineView {
                            stage: Outcome::Extracted.stage(),
                            tracker: state.tracker,
                            head: state.head,
                            mark,
                        },
                        ActionView::Deliver(messages),
                    ),
                },
            },
            EventView::ProofUnavailable => (state.after(Outcome::Abandoned), ActionView::Wait),
            EventView::Delivered => (state.after(Outcome::Delivered), ActionView::Wait),
        }
    }
}

/// A failure changes nothing but the stage: the tracker, the head and the
/// mark of a pipeline that has just faulted are those it had before.
pub proof fn lemma_fault_keeps_state(state: PipelineView, event: EventView)
    requires
        transition(state, event).0.stage is Faulted,
    ensures
        transition(state, event).0.tracker == state.tracker,
        transition(state, event).0.head == state.head,
        transition(state, event).0.mark == state.mark,
{
}

/// After a fault or a delivery the pipeline takes the next commitment or
/// rotation exactly as a pipeline that awaits a commitment does.
pub proof fn lemma_input_resumes(state: PipelineView, event: EventView)
    requires
        state.stage is Faulted || state.stage is Idle,
        event is Commitment || event is Rotation,
    ensures
        transition(state, event) == transition(
            PipelineView {
                stage: Stage::AwaitingCommitment,
                tracker: state.tracker,
                head: state.head,
                mark: state.mark,
            },
            event,
        ),
{
}

/// The pipeline ends on a shutdown and on nothing else, and once ended it
/// stays as it is.
pub proof fn lemma_only_shutdown_stops(state: PipelineView, event: EventView)
    ensures
        transition(state, event).0.stage is Stopped <==> state.stage is Stopped
            || event is Shutdown,
        state.stage is Stopped ==> transition(state, event).0 == state,
{
}

/// A proof is only ever checked against the payload of the finalized head:
/// while a proof is awaited, the commitment of the stage is the head, provided
/// that held when the pipeline was set up.
pub proof fn lemma_proofs_meet_the_head(state: PipelineView, event: EventView)
    requires
        state.stage matches Stage::VerifyingProof(commitment) ==> state.head == Some(commitment),
    ensures
        transition(state, event).0.stage matches Stage::VerifyingProof(commitment) ==> transition(
            state,
            event,
        ).0.head == Some(commitment),
{
}

impl View for RelayPipeline {
    type V = PipelineView;

    closed spec fn view(&self) -> PipelineView {
        PipelineView {
            stage: self.stage,
            tracker: self.tracker@,
            head: self.verifier.finalized(),
            mark: self.extractor.high_water_mark(),
        }
    }
}

impl RelayPipeline {
    /// A pipeline that trusts `genesis` under `set_id`, has accepted no
    /// commitment and handed out no message, and awaits its first commitment.
    pub fn new(genesis: ValidatorSet, set_id: u64) -> (pipeline: RelayPipeline)
        ensures
            pipeline@.stage == Stage::AwaitingCommitment,
            pipeline@.tracker == (
            TrackerView { current: genesis@, current_id: set_id, previous: None }),
            pipeline@.head is None,
            pipeline@.mark is None,
    {
        RelayPipeline {
            stage: Stage::AwaitingCommitment,
            tracker: ValidatorSetTracker::new(genesis, set_id),
            verifier: CommitmentVerifier::new(),
            extractor: MessageExtractor::new(),
        }
    }

    /// Where the pipeline stands.
    pub fn stage(&self) -> (stage: Stage)
        ensures
            stage == self@.stage,
    {
        self.stage
    }

    /// The validator sets that the pipeline knows.
    pub fn tracker(&self) -> (tracker: &ValidatorSetTracker)
        ensures
            tracker@ == self@.tracker,
    {
        &self.tracker
    }

    /// The finalized head.
    pub fn head(&self) -> (head: Option<Commitment>)
        ensures
            head == self@.head,
    {
        self.verifier.head()
    }

    /// The high-water mark of the channel.
    pub fn mark(&self) -> (mark: Option<u64>)
        ensures
            mark == self@.mark,
    {
        self.extractor.mark()
    }

    fn fault(&mut self, error: Error) -> (action: Action)
        ensures
            (final(self)@, action@) == old(self)@.faulted(error),
    {
        self.stage = Outcome::Failed(error).next_stage();
        Action::Report(error)
    }

    /// Takes `event` and answers with what the caller is to do next.
    pub fn step(&mut self, event: Event) -> (action: Action)
        ensures
            (final(self)@, action@) == transition(old(self)@, event@),
    {
        if !self.stage.accepts(event.kind()) {
            return Action::Ignored;
        }
        match event {
            Event::Shutdown => {
                self.stage = Outcome::Shutdown.next_stage();
                Action::Halt
            },
            Event::Commitment(signed) => {
                match self.verifier.import(&self.tracker, &signed) {
                    Err(error) => self.fault(error),
                    Ok(accepted) => {
                        self.stage = Outcome::Accepted(accepted.commitment).next_stage();
                        Action::Prove(accepted.commitment)
                    },
                }
            },
            Event::Rotation(new_set, new_set_id) => {
                match self.tracker.rotate(new_set, new_set_id) {
                    Err(error) => self.fault(error),
                    Ok(()) => {
                        self.stage = Outcome::Rotated.next_stage();
                        Action::Wait
                    },
                }
            },
            Event::Proof(proof) => {
                let commitment = match self.stage {
                    Stage::VerifyingProof(commitment) => commitment,
                    _ => {
                        return Action::Ignored;
                    },
                };
                match ProofVerifier::verify(&proof, &commitment.payload) {
                    Err(error) => self.fault(error),
                    Ok(leaf) => match self.extractor.extract(leaf.as_slice()) {
                        Err(error) => self.fault(error),
                        Ok(extracted) => {
                            self.stage = Outcome::Extracted.next_stage();
                            Action::Deliver(extracted)
                        },
                    },
                }
            },
            Event::ProofUnavailable => {
                self.stage = Outcome::Abandoned.next_stage();
                Action::Wait
            },
            Event::Delivered => {
                self.stage = Outcome::Delivered.next_stage();
                Action::Wait
            },
        }
    }
}

} // verus!
