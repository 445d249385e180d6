//! Acceptance of signed commitments.
//!
//! A commitment becomes the finalized head when it is newer than the head, is
//! signed under a validator set that the tracker still answers for, and
//! carries valid signatures whose voting weight reaches the threshold of that
//! set. The order of a commitment is judged before any signature is checked.
//!
//! The set before the current one is honoured until a commitment of a later
//! set has been accepted: from then on its commitments are stale, because the
//! set id of the head never goes down.
//!
//! An import goes through three steps, each a function of its own:
//! [`screen`] judges the order and finds the validator set, [`check_signatures`]
//! gives a verdict on the signature of every validator, and [`tally`] holds
//! the weight behind the verdicts against the threshold.

use vstd::prelude::*;
use crate::commitment::{commitment_digest, Commitment, SignedCommitment};
use crate::crypto::{ecdsa_valid, ecdsa_verify_prehashed, Signature};
use crate::error::Error;
use crate::validator_set::{TrackerView, Validator, ValidatorSet, ValidatorSetTracker};

verus! {

/// What a successful import reports: the commitment that is now the head, and
/// the voting weight that stood behind it.
#[derive(Clone, Copy, Debug, PartialEq, Eq)]
pub struct Accepted {
    pub commitment: Commitment,
    pub signed_weight: u128,
}

/// Remembers the last commitment that was accepted. Imports must reach it one
/// after the other, in the order in which the commitments arrived.
#[derive(Clone, Copy, Debug, PartialEq, Eq)]
pub struct CommitmentVerifier {
    head: Option<Commitment>,
}

/// Whether the vote of `validator` counts for a commitment with the signing
/// digest `digest`: it has signed, and its signature is valid for its key.
pub open spec fn vote_counts(
    validator: Validator,
    signature: Option<Signature>,
    digest: Seq<u8>,
) -> bool {
    signature matches Some(bytes) && ecdsa_valid(bytes@, digest, validator.public_key@)
}

/// The verdict on every validator of the set: whether there is a signature at
/// its position and its vote counts. A signature at a position where the set
/// has no validator gets no verdict.
pub open spec fn verdicts(
    validators: Seq<Validator>,
    signatures: Seq<Option<Signature>>,
    digest: Seq<u8>,
) -> Seq<bool> {
    Seq::new(
        validators.len(),
        |i: int| i < signatures.len() && vote_counts(validators[i], signatures[i], digest),
    )
}

/// The voting weight of the validators among the first `upto` whose verdict
/// is favourable.
pub open spec fn counted_weight_upto(validators: Seq<Validator>, verdicts: Seq<bool>, upto: nat) -> nat
    decreases upto,
{
    if upto == 0 {
        0
    } else {
        let at = upto - 1;
        let weight: nat = if at < validators.len() && at < verdicts.len() && verdicts[at] {
            validators[at].weight as nat
        } else {
            0
        };
        counted_weight_upto(validators, verdicts, at as nat) + weight
    }
}

/// The voting weight of the validators whose verdict is favourable.
pub open spec fn counted_weight(validators: Seq<Validator>, verdicts: Seq<bool>) -> nat {
    counted_weight_upto(validators, verdicts, validators.len())
}

/// The voting weight behind the valid signatures of a commitment.
pub open spec fn signed_weight(
    validators: Seq<Validator>,
    signatures: Seq<Option<Signature>>,
    digest: Seq<u8>,
) -> nat {
    counted_weight(validators, verdicts(validators, signatures, digest))
}

/// Whether `commitment` is out of order after `head`: its block number does
/// not exceed that of the head, or its validator set id is below that of the
/// head.
pub open spec fn is_stale(head: Option<Commitment>, commitment: Commitment) -> bool {
    head matches Some(accepted) && (commitment.block_number <= accepted.block_number
        || commitment.validator_set_id < accepted.validator_set_id)
}

/// The error that keeps `commitment` from having its signatures looked at, if
/// there is one: it is stale, or else its validator set is unknown.
pub open spec fn screening_error(
    head: Option<Commitment>,
    tracker: TrackerView,
    commitment: Commitment,
) -> Option<Error> {
    if is_stale(head, commitment) {
        Some(Error::StaleCommitment)
    } else if tracker.resolve(commitment.validator_set_id) is None {
        Some(Error::UnknownValidatorSet)
    } else {
        None
    }
}

/// What the weight `weight` comes to under the threshold `threshold`.
pub open spec fn tally_outcome(weight: nat, threshold: nat) -> Result<nat, Error> {
    if weight < threshold {
        Err(Error::InsufficientSignatures)
    } else {
        Ok(weight)
    }
}

/// What importing a commitment yields when the head is `head` and the
/// validator sets are those of `tracker`: the voting weight with which it is
/// accepted, or the reason for which it is turned down.
pub open spec fn import_outcome(
    head: Option<Commitment>,
    tracker: TrackerView,
    commitment: Commitment,
    signatures: Seq<Option<Signature>>,
) -> Result<nat, Error> {
    match screening_error(head, tracker, commitment) {
        Some(error) => Err(error),
        None => {
            let set = tracker.resolve(commitment.validator_set_id).unwrap();
            tally_outcome(
                signed_weight(set.validators, signatures, commitment_digest(commitment)),
                set.threshold,
            )
        },
    }
}

/// The head after an attempt to import a commitment: the commitment if it was
/// accepted, the old head if not.
pub open spec fn head_after(
    head: Option<Commitment>,
    tracker: TrackerView,
    commitment: Commitment,
    signatures: Seq<Option<Signature>>,
) -> Option<Commitment> {
    if import_outcome(head, tracker, commitment, signatures) is Ok {
        Some(commitment)
    } else {
        head
    }
}

/// One attempt to import: the commitment, its signatures, and the validator
/// sets as they were at that moment.
pub struct ImportAttempt {
    pub tracker: TrackerView,
    pub commitment: Commitment,
    pub signatures: Seq<Option<Signature>>,
}

/// The head after a series of attempts, made one after the other.
pub open spec fn head_after_all(head: Option<Commitment>, attempts: Seq<ImportAttempt>) -> Option<
    Commitment,
>
    decreases attempts.len(),
{
    if attempts.len() == 0 {
        head
    } else {
        let last = attempts.last();
        head_after(
            head_after_all(head, attempts.drop_last()),
            last.tracker,
            last.commitment,
            last.signatures,
        )
    }
}

proof fn lemma_no_votes_no_weight(validators: Seq<Validator>, verdicts: Seq<bool>, upto: nat)
    requires
        forall|i: int| 0 <= i < verdicts.len() ==> !verdicts[i],
    ensures
        counted_weight_upto(validators, verdicts, upto) == 0,
    decreases upto,
{
    if upto > 0 {
        lemma_no_votes_no_weight(validators, verdicts, (upto - 1) as nat);
    }
}

/// Once a head stands, every later head has a block number and a validator
/// set id that are at least those of the first.
pub proof fn lemma_head_never_goes_back(head: Commitment, attempts: Seq<ImportAttempt>)
    ensures
        head_after_all(Some(head), attempts) matches Some(later) && later.block_number
            >= head.block_number && later.validator_set_id >= head.validator_set_id,
    decreases attempts.len(),
{
    if attempts.len() > 0 {
        lemma_head_never_goes_back(head, attempts.drop_last());
    }
}

/// After a commitment was accepted, a commitment whose block number is not
/// higher fails with `StaleCommitment`, whatever was attempted in between and
/// whoever signed it, and the head stays.
pub proof fn lemma_replay_is_stale(
    head: Option<Commitment>,
    accepted: ImportAttempt,
    between: Seq<ImportAttempt>,
    replayed: ImportAttempt,
)
    requires
        import_outcome(head, accepted.tracker, accepted.commitment, accepted.signatures) is Ok,
        replayed.commitment.block_number <= accepted.commitment.block_number,
    ensures
        import_outcome(
            head_after_all(Some(accepted.commitment), between),
            replayed.tracker,
            replayed.commitment,
            replayed.signatures,
        ) == Err::<nat, Error>(Error::StaleCommitment),
        head_after(
            head_after_all(Some(accepted.commitment), between),
            replayed.tracker,
            replayed.commitment,
            replayed.signatures,
        ) == head_after_all(Some(accepted.commitment), between),
{
    lemma_head_never_goes_back(accepted.commitment, between);
}

/// For a commitment that is in order and signed under a known set, the
/// threshold is the line: a signed weight equal to it is accepted, a signed
/// weight one below it fails with `InsufficientSignatures`.
pub proof fn lemma_threshold_is_the_line(
    head: Option<Commitment>,
    tracker: TrackerView,
    commitment: Commitment,
    signatures: Seq<Option<Signature>>,
)
    requires
        !is_stale(head, commitment),
        tracker.resolve(commitment.validator_set_id) is Some,
    ensures
        ({
            let set = tracker.resolve(commitment.validator_set_id).unwrap();
            let weight = signed_weight(set.validators, signatures, commitment_digest(commitment));
            &&& weight == set.threshold ==> import_outcome(head, tracker, commitment, signatures)
                == Ok::<nat, Error>(weight)
            &&& weight + 1 == set.threshold ==> import_outcome(
                head,
                tracker,
                commitment,
                signatures,
            ) == Err::<nat, Error>(Error::InsufficientSignatures)
        }),
{
}

/// A commitment that nobody signed is never accepted.
pub proof fn lemma_unsigned_is_rejected(
    head: Option<Commitment>,
    tracker: TrackerView,
    commitment: Commitment,
    signatures: Seq<Option<Signature>>,
)
    requires
        tracker.wf(),
        forall|i: int| 0 <= i < signatures.len() ==> signatures[i] is None,
    ensures
        import_outcome(head, tracker, commitment, signatures) is Err,
        screening_error(head, tracker, commitment) is None ==> import_outcome(
            head,
            tracker,
            commitment,
            signatures,
        ) == Err::<nat, Error>(Error::InsufficientSignatures),
{
    if let Some(set) = tracker.resolve(commitment.validator_set_id) {
        lemma_no_votes_no_weight(
            set.validators,
            verdicts(set.validators, signatures, commitment_digest(commitment)),
            set.validators.len(),
        );
    }
}

/// Judges the order of `commitment` after `head` and finds the validator set
/// it was signed under. Fails with `StaleCommitment` when the commitment is
/// out of order, else with `UnknownValidatorSet` when the tracker does not
/// answer for its validator set.
pub fn screen<'a>(
    head: Option<Commitment>,
    tracker: &'a ValidatorSetTracker,
    commitment: &Commitment,
) -> (screened: Result<&'a ValidatorSet, Error>)
    ensures
        tracker@.wf(),
        match screened {
            Ok(set) => screening_error(head, tracker@, *commitment) is None && tracker@.resolve(
                commitment.validator_set_id,
            ) == Some(set@),
            Err(error) => screening_error(head, tracker@, *commitment) == Some(error),
        },
{
    let resolved = tracker.resolve(commitment.validator_set_id);
    match head {
        Some(accepted) => {
            if commitment.block_number <= accepted.block_number || commitment.validator_set_id
                < accepted.validator_set_id {
                return Err(Error::StaleCommitment);
            }
        },
        None => {},
    }
    match resolved {
        Some(set) => Ok(set),
        None => Err(Error::UnknownValidatorSet),
    }
}

/// Gives a verdict on every validator of `set`: whether `signed` carries a
/// signature at its position that is valid for its key over the signing
/// digest of the commitment.
pub fn check_signatures(set: &ValidatorSet, signed: &SignedCommitment) -> (checked: Vec<bool>)
    ensures
        checked@ == verdicts(
            set@.validators,
            signed.signatures@,
            commitment_digest(signed.commitment),
        ),
{
    let digest = signed.commitment.signing_digest();
    let validators = set.validators();
    let mut checked: Vec<bool> = Vec::new();
    let mut at: usize = 0;
    while at < validators.len()
        invariant
            at <= validators@.len(),
            validators@ == set@.validators,
            digest@ == commitment_digest(signed.commitment),
            checked@.len() == at,
            forall|i: int|
                0 <= i < at ==> checked@[i] == (i < signed.signatures@.len() && vote_counts(
                    validators@[i],
                    signed.signatures@[i],
                    digest@,
                )),
        decreases validators@.len() - at,
    {
        let counts = if at < signed.signatures.len() {
            match &signed.signatures[at] {
                Some(signature) => ecdsa_verify_prehashed(
                    signature,
                    &digest,
                    &validators[at].public_key,
                ),
                None => false,
            }
        } else {
            false
        };
        checked.push(counts);
        at = at + 1;
    }
    checked
}

/// Adds up the voting weight of the validators of `set` whose verdict is
/// favourable and holds it against the threshold of the set. Yields the
/// weight when it reaches the threshold, and fails with
/// `InsufficientSignatures` when it does not. Verdicts beyond the last
/// validator count for nothing, and a validator without a verdict has not
/// voted.
pub fn tally(set: &ValidatorSet, verdicts: &Vec<bool>) -> (result: Result<u128, Error>)
    ensures
        set@.wf(),
        match result {
            Ok(weight) => tally_outcome(
                counted_weight(set@.validators, verdicts@),
                set@.threshold,
            ) == Ok::<nat, Error>(weight as nat),
            Err(error) => tally_outcome(
                counted_weight(set@.validators, verdicts@),
                set@.threshold,
            ) == Err::<nat, Error>(error),
        },
{
    let validators = set.validators();
    let mut weight: u128 = 0;
    let mut at: usize = 0;
    while at < validators.len()
        invariant
            at <= validators@.len(),
            weight == counted_weight_upto(validators@, verdicts@, at as nat),
            weight <= at * u64::MAX,
        decreases validators@.len() - at,
    {
        if at < verdicts.len() && verdicts[at] {
            weight = weight + validators[at].weight as u128;
        }
        at = at + 1;
    }
    if weight < set.threshold() {
        Err(Error::InsufficientSignatures)
    } else {
        Ok(weight)
    }
}

impl CommitmentVerifier {
    /// A verifier that has accepted nothing yet.
    pub fn new() -> (verifier: CommitmentVerifier)
        ensures
            verifier.finalized() is None,
    {
        CommitmentVerifier { head: None }
    }

    /// The finalized head: the last commitment that was accepted.
    pub closed spec fn finalized(&self) -> Option<Commitment> {
        self.head
    }

    /// The finalized head: the last commitment that was accepted.
    pub fn head(&self) -> (head: Option<Commitment>)
        ensures
            head == self.finalized(),
    {
        self.head
    }

    /// Imports `signed`. On success the commitment becomes the finalized head.
    /// On failure the head stays as it was, and the error tells why:
    /// `StaleCommitment` when the commitment is out of order after the head,
    /// else `UnknownValidatorSet` when the tracker does not answer for its
    /// validator set, else `InsufficientSignatures` when the valid signatures
    /// weigh less than the threshold of that set.
    pub fn import(&mut self, tracker: &ValidatorSetTracker, signed: &SignedCommitment) -> (result:
        Result<Accepted, Error>)
        ensures
            match result {
                Ok(accepted) => {
                    &&& import_outcome(
                        old(self).finalized(),
                        tracker@,
                        signed.commitment,
                        signed.signatures@,
                    ) == Ok::<nat, Error>(accepted.signed_weight as nat)
                    &&& accepted.commitment == signed.commitment
                },
                Err(error) => import_outcome(
                    old(self).finalized(),
                    tracker@,
                    signed.commitment,
                    signed.signatures@,
                ) == Err::<nat, Error>(error),
            },
            final(self).finalized() == head_after(
                old(self).finalized(),
                tracker@,
                signed.commitment,
                signed.signatures@,
            ),
    {
        let set = match screen(self.head, tracker, &signed.commitment) {
            Err(error) => {
                return Err(error);
            },
            Ok(set) => set,
        };
        let checked = check_signatures(set, signed);
        match tally(set, &checked) {
            Err(error) => Err(error),
            Ok(weight) => {
                self.head = Some(signed.commitment);
                Ok(Accepted { commitment: signed.commitment, signed_weight: weight })
            },
        }
    }
}

} // verus!
