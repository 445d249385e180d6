//! The validators entitled to sign commitments, and the tracker that follows
//! their rotation.
//!
//! The set trusted at start-up is the root of trust. From then on the tracker
//! moves only to the set whose id is the next one. The set that was replaced
//! stays available until the following rotation, for commitments that were
//! signed just before the hand-over.

use vstd::prelude::*;
use crate::crypto::PublicKey;
use crate::error::Error;

verus! {

/// A validator: the key it signs with and the weight of its vote.
#[derive(Clone, Copy, Debug, PartialEq, Eq)]
pub struct Validator {
    pub public_key: PublicKey,
    pub weight: u64,
}

/// The validators of one set, in the order in which signatures are aligned to
/// them, and the voting weight that a commitment needs behind it. The
/// threshold is never zero, so nothing is accepted without a signature.
#[derive(Debug, PartialEq, Eq)]
pub struct ValidatorSet {
    validators: Vec<Validator>,
    threshold: u128,
}

/// A validator set as plain values.
pub struct ValidatorSetView {
    pub validators: Seq<Validator>,
    pub threshold: nat,
}

/// The sum of the voting weights of `validators`.
pub open spec fn total_weight(validators: Seq<Validator>) -> nat
    decreases validators.len(),
{
    if validators.len() == 0 {
        0
    } else {
        total_weight(validators.drop_last()) + validators.last().weight as nat
    }
}

/// The least weight that is strictly more than two thirds of `total`.
pub open spec fn two_thirds_quorum(total: nat) -> nat {
    2 * total / 3 + 1
}

impl ValidatorSetView {
    /// Whether the threshold is above zero, as it is in every set that was
    /// built.
    pub open spec fn wf(self) -> bool {
        self.threshold >= 1
    }
}

/// `two_thirds_quorum(total)` exceeds two thirds of `total`, and no smaller
/// weight does.
pub proof fn lemma_two_thirds_quorum_is_least(total: nat)
    ensures
        3 * two_thirds_quorum(total) > 2 * total,
        3 * (two_thirds_quorum(total) - 1) <= 2 * total,
{
}

impl View for ValidatorSet {
    type V = ValidatorSetView;

    closed spec fn view(&self) -> ValidatorSetView {
        ValidatorSetView { validators: self.validators@, threshold: self.threshold as nat }
    }
}

impl ValidatorSet {
    #[verifier::type_invariant]
    spec fn threshold_is_positive(self) -> bool {
        self.threshold >= 1
    }

    /// A set whose threshold is the least weight strictly above two thirds of
    /// the total.
    pub fn new(validators: Vec<Validator>) -> (set: ValidatorSet)
        ensures
            set@.validators == validators@,
            set@.threshold == two_thirds_quorum(total_weight(validators@)),
            set@.wf(),
    {
        let total = sum_weights(&validators);
        let third: u128 = total / 3;
        let carry: u128 = if total % 3 == 2 {
            1
        } else {
            0
        };
        ValidatorSet { validators, threshold: 2 * third + carry + 1 }
    }

    /// A set with a threshold chosen by the caller. A threshold of zero would
    /// let unsigned commitments pass, so there is no such set.
    pub fn with_threshold(validators: Vec<Validator>, threshold: u128) -> (set: Option<
        ValidatorSet,
    >)
        ensures
            set is Some == (threshold >= 1),
            set matches Some(s) ==> s@.validators == validators@ && s@.threshold == threshold
                && s@.wf(),
    {
        if threshold == 0 {
            None
        } else {
            Some(ValidatorSet { validators, threshold })
        }
    }

    /// The validators, in the order in which signatures are aligned to them.
    pub fn validators(&self) -> (validators: &Vec<Validator>)
        ensures
            validators@ == self@.validators,
    {
        &self.validators
    }

    /// The voting weight that a commitment needs behind it.
    pub fn threshold(&self) -> (threshold: u128)
        ensures
            threshold == self@.threshold,
            self@.wf(),
    {
        proof {
            use_type_invariant(self);
        }
        self.threshold
    }

    /// The sum of the voting weights of the set.
    pub fn total_weight(&self) -> (total: u128)
        ensures
            total == total_weight(self@.validators),
    {
        sum_weights(&self.validators)
    }
}

impl Clone for ValidatorSet {
    fn clone(&self) -> (copy: ValidatorSet)
        ensures
            copy@ == self@,
    {
        proof {
            use_type_invariant(self);
        }
        let validators = self.validators.clone();
        ValidatorSet { validators, threshold: self.threshold }
    }
}

fn sum_weights(validators: &Vec<Validator>) -> (total: u128)
    ensures
        total == total_weight(validators@),
        total <= validators@.len() * u64::MAX,
{
    let mut total: u128 = 0;
    let mut at: usize = 0;
    while at < validators.len()
        invariant
            at <= validators@.len(),
            total == total_weight(validators@.take(at as int)),
            total <= at * u64::MAX,
        decreases validators@.len() - at,
    {
        proof {
            assert(validators@.take(at + 1).drop_last() =~= validators@.take(at as int));
        }
        total = total + validators[at].weight as u128;
        at = at + 1;
    }
    proof {
        assert(validators@.take(at as int) =~= validators@);
    }
    total
}

/// Holds the set that is trusted at present, its id, and the set before it.
#[derive(Debug, PartialEq, Eq)]
pub struct ValidatorSetTracker {
    current: ValidatorSet,
    current_id: u64,
    previous: Option<ValidatorSet>,
}

/// What a tracker holds, as plain values.
pub struct TrackerView {
    pub current: ValidatorSetView,
    pub current_id: u64,
    pub previous: Option<ValidatorSetView>,
}

impl TrackerView {
    /// Whether the sets are well-formed and the set before the current one,
    /// if it is kept, has an id to answer to.
    pub open spec fn wf(self) -> bool {
        &&& self.current.wf()
        &&& self.previous matches Some(previous) ==> previous.wf() && self.current_id >= 1
    }

    /// The set that answers to `set_id`: the current one, or the one before it
    /// for as long as it is kept.
    pub open spec fn resolve(self, set_id: u64) -> Option<ValidatorSetView> {
        if set_id == self.current_id {
            Some(self.current)
        } else if self.previous is Some && set_id + 1 == self.current_id {
            self.previous
        } else {
            None
        }
    }
}

/// What rotating `tracker` to `new_set` under `new_set_id` yields: the tracker
/// after the rotation, or the reason for which the rotation is turned down.
pub open spec fn rotation_outcome(
    tracker: TrackerView,
    new_set: ValidatorSetView,
    new_set_id: u64,
) -> Result<TrackerView, Error> {
    if new_set_id <= tracker.current_id {
        Err(Error::StaleRotation)
    } else if new_set_id > tracker.current_id + 1 {
        Err(Error::RotationGap)
    } else {
        Ok(
            TrackerView {
                current: new_set,
                current_id: new_set_id,
                previous: Some(tracker.current),
            },
        )
    }
}

/// A rotation to the id after the next is a gap, one to the current id is
/// stale, and one to the next id makes the new set current and keeps the old
/// one as the set before it.
pub proof fn lemma_rotation_by_distance(tracker: TrackerView, new_set: ValidatorSetView)
    ensures
        tracker.current_id + 2 <= u64::MAX ==> rotation_outcome(
            tracker,
            new_set,
            (tracker.current_id + 2) as u64,
        ) == Err::<TrackerView, Error>(Error::RotationGap),
        rotation_outcome(tracker, new_set, tracker.current_id) == Err::<TrackerView, Error>(
            Error::StaleRotation,
        ),
        tracker.current_id + 1 <= u64::MAX ==> {
            let next = (tracker.current_id + 1) as u64;
            &&& rotation_outcome(tracker, new_set, next) matches Ok(rotated)
            &&& rotated.current == new_set
            &&& rotated.current_id == next
            &&& rotated.resolve(next) == Some(new_set)
            &&& rotated.resolve(tracker.current_id) == Some(tracker.current)
        },
{
}

impl View for ValidatorSetTracker {
    type V = TrackerView;

    closed spec fn view(&self) -> TrackerView {
        TrackerView {
            current: self.current@,
            current_id: self.current_id,
            previous: match self.previous {
                Some(previous) => Some(previous@),
                None => None,
            },
        }
    }
}

impl Clone for ValidatorSetTracker {
    fn clone(&self) -> (copy: ValidatorSetTracker)
        ensures
            copy@ == self@,
    {
        proof {
            use_type_invariant(self);
        }
        let previous = match &self.previous {
            Some(set) => Some(set.clone()),
            None => None,
        };
        ValidatorSetTracker {
            current: self.current.clone(),
            current_id: self.current_id,
            previous,
        }
    }
}

impl ValidatorSetTracker {
    #[verifier::type_invariant]
    spec fn previous_has_an_id(self) -> bool {
        self.previous is Some ==> self.current_id >= 1
    }

    /// A tracker that trusts `genesis` under `set_id` and knows no earlier set.
    pub fn new(genesis: ValidatorSet, set_id: u64) -> (tracker: ValidatorSetTracker)
        ensures
            tracker@ == (TrackerView { current: genesis@, current_id: set_id, previous: None }),
            tracker@.wf(),
    {
        proof {
            use_type_invariant(&genesis);
        }
        ValidatorSetTracker { current: genesis, current_id: set_id, previous: None }
    }

    /// The set that is trusted at present, and its id.
    pub fn current(&self) -> (current: (&ValidatorSet, u64))
        ensures
            current.0@ == self@.current,
            current.1 == self@.current_id,
    {
        (&self.current, self.current_id)
    }

    /// The id of the set that is trusted at present.
    pub fn current_id(&self) -> (set_id: u64)
        ensures
            set_id == self@.current_id,
    {
        self.current_id
    }

    /// The set that was replaced by the last rotation, and its id.
    pub fn previous(&self) -> (previous: Option<(&ValidatorSet, u64)>)
        ensures
            previous is Some == self@.previous is Some,
            previous matches Some(pair) ==> Some(pair.0@) == self@.previous && pair.1 + 1
                == self@.current_id,
    {
        proof {
            use_type_invariant(self);
        }
        match &self.previous {
            Some(set) => Some((set, self.current_id - 1)),
            None => None,
        }
    }

    /// The set that answers to `set_id`, if it is the current one or the one
    /// before it.
    pub fn resolve(&self, set_id: u64) -> (set: Option<&ValidatorSet>)
        ensures
            self@.wf(),
            match set {
                Some(found) => self@.resolve(set_id) == Some(found@),
                None => self@.resolve(set_id) is None,
            },
    {
        proof {
            use_type_invariant(self);
            use_type_invariant(&self.current);
            if let Some(previous) = &self.previous {
                use_type_invariant(previous);
            }
        }
        if set_id == self.current_id {
            Some(&self.current)
        } else {
            match &self.previous {
                Some(previous) => {
                    if set_id == self.current_id - 1 {
                        Some(previous)
                    } else {
                        None
                    }
                },
                None => None,
            }
        }
    }

    /// Moves to `new_set` if `new_set_id` is the id after the current one. A
    /// lower or equal id fails with `StaleRotation`, a higher one with
    /// `RotationGap`; the tracker then stays as it was.
    pub fn rotate(&mut self, new_set: ValidatorSet, new_set_id: u64) -> (result: Result<(), Error>)
        ensures
            match result {
                Ok(()) => rotation_outcome(old(self)@, new_set@, new_set_id) == Ok::<
                    TrackerView,
                    Error,
                >(final(self)@),
                Err(error) => rotation_outcome(old(self)@, new_set@, new_set_id) == Err::<
                    TrackerView,
                    Error,
                >(error) && final(self)@ == old(self)@,
            },
            final(self)@.wf(),
    {
        proof {
            use_type_invariant(&*self);
            use_type_invariant(&self.current);
            use_type_invariant(&new_set);
            if let Some(previous) = &self.previous {
                use_type_invariant(previous);
            }
        }
        if new_set_id <= self.current_id {
            Err(Error::StaleRotation)
        } else if new_set_id - 1 > self.current_id {
            Err(Error::RotationGap)
        } else {
            let mut replaced = new_set;
            core::mem::swap(&mut self.current, &mut replaced);
            self.current_id = new_set_id;
            self.previous = Some(replaced);
            Ok(())
        }
    }
}

} // verus!
