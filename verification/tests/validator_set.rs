use beefy_relay::error::Error;
use beefy_relay::validator_set::{Validator, ValidatorSet, ValidatorSetTracker};

fn vs_validator(tag: u8, weight: u64) -> Validator {
    Validator { public_key: [tag; 33], weight }
}

fn vs_set(tags: &[u8]) -> ValidatorSet {
    ValidatorSet::new(tags.iter().map(|tag| vs_validator(*tag, 1)).collect())
}

fn vs_weights(weights: &[u64]) -> ValidatorSet {
    ValidatorSet::new(weights.iter().map(|weight| vs_validator(7, *weight)).collect())
}

#[test]
fn default_threshold_of_three_equal_validators_is_three() {
    let set = vs_set(&[1, 2, 3]);
    assert_eq!(set.total_weight(), 3);
    assert_eq!(set.threshold(), 3);
    assert_eq!(set.validators().len(), 3);
}

#[test]
fn default_threshold_is_least_weight_above_two_thirds() {
    assert_eq!(vs_weights(&[]).threshold(), 1);
    assert_eq!(vs_weights(&[1]).threshold(), 1);
    assert_eq!(vs_weights(&[2]).threshold(), 2);
    assert_eq!(vs_weights(&[1, 1, 1, 1]).threshold(), 3);
    assert_eq!(vs_weights(&[5]).threshold(), 4);
    assert_eq!(vs_weights(&[3, 3]).threshold(), 5);
    assert_eq!(vs_weights(&[60, 40]).threshold(), 67);
    assert_eq!(vs_weights(&[99]).threshold(), 67);
}

#[test]
fn default_threshold_with_largest_weights_does_not_overflow() {
    let set = vs_weights(&[u64::MAX, u64::MAX, u64::MAX]);
    let total = 3 * (u64::MAX as u128);
    assert_eq!(set.total_weight(), total);
    assert_eq!(set.threshold(), 2 * (u64::MAX as u128) + 1);
    assert!(3 * set.threshold() > 2 * total);
    assert!(3 * (set.threshold() - 1) <= 2 * total);
}

#[test]
fn configured_threshold_is_kept() {
    let validators = vec![vs_validator(1, 1), vs_validator(2, 1), vs_validator(3, 1)];
    let set = ValidatorSet::with_threshold(validators.clone(), 2).unwrap();
    assert_eq!(set.threshold(), 2);
    assert_eq!(set.validators(), &validators);
}

#[test]
fn zero_threshold_is_refused() {
    assert!(ValidatorSet::with_threshold(vec![vs_validator(1, 1)], 0).is_none());
    assert!(ValidatorSet::with_threshold(vec![vs_validator(1, 1)], 1).is_some());
}

#[test]
fn new_tracker_answers_for_genesis_only() {
    let tracker = ValidatorSetTracker::new(vs_set(&[1, 2, 3]), 4);
    let (current, set_id) = tracker.current();
    assert_eq!(current, &vs_set(&[1, 2, 3]));
    assert_eq!(set_id, 4);
    assert_eq!(tracker.current_id(), 4);
    assert!(tracker.previous().is_none());
    assert_eq!(tracker.resolve(4), Some(&vs_set(&[1, 2, 3])));
    assert_eq!(tracker.resolve(3), None);
    assert_eq!(tracker.resolve(5), None);
}

#[test]
fn rotation_to_id_after_next_is_a_gap() {
    let mut tracker = ValidatorSetTracker::new(vs_set(&[1]), 5);
    assert_eq!(tracker.rotate(vs_set(&[2]), 7), Err(Error::RotationGap));
    assert_eq!(tracker.rotate(vs_set(&[2]), u64::MAX), Err(Error::RotationGap));
}

#[test]
fn rotation_to_current_or_lower_id_is_stale() {
    let mut tracker = ValidatorSetTracker::new(vs_set(&[1]), 5);
    assert_eq!(tracker.rotate(vs_set(&[2]), 5), Err(Error::StaleRotation));
    assert_eq!(tracker.rotate(vs_set(&[2]), 4), Err(Error::StaleRotation));
    assert_eq!(tracker.rotate(vs_set(&[2]), 0), Err(Error::StaleRotation));
}

#[test]
fn rotation_to_next_id_makes_new_set_current() {
    let mut tracker = ValidatorSetTracker::new(vs_set(&[1]), 5);
    assert_eq!(tracker.rotate(vs_set(&[2, 3]), 6), Ok(()));
    let (current, set_id) = tracker.current();
    assert_eq!(current, &vs_set(&[2, 3]));
    assert_eq!(set_id, 6);
    let (previous, previous_id) = tracker.previous().unwrap();
    assert_eq!(previous, &vs_set(&[1]));
    assert_eq!(previous_id, 5);
    assert_eq!(tracker.resolve(6), Some(&vs_set(&[2, 3])));
    assert_eq!(tracker.resolve(5), Some(&vs_set(&[1])));
    assert_eq!(tracker.resolve(4), None);
    assert_eq!(tracker.resolve(7), None);
}

#[test]
fn failed_rotation_leaves_tracker_unchanged() {
    let mut tracker = ValidatorSetTracker::new(vs_set(&[1]), 0);
    tracker.rotate(vs_set(&[2]), 1).unwrap();
    let before = tracker.clone();
    assert_eq!(tracker.rotate(vs_set(&[3]), 3), Err(Error::RotationGap));
    assert_eq!(tracker, before);
    assert_eq!(tracker.rotate(vs_set(&[3]), 1), Err(Error::StaleRotation));
    assert_eq!(tracker, before);
}

#[test]
fn set_before_the_previous_one_is_forgotten() {
    let mut tracker = ValidatorSetTracker::new(vs_set(&[1]), 0);
    tracker.rotate(vs_set(&[2]), 1).unwrap();
    tracker.rotate(vs_set(&[3]), 2).unwrap();
    assert_eq!(tracker.resolve(0), None);
    assert_eq!(tracker.resolve(1), Some(&vs_set(&[2])));
    assert_eq!(tracker.resolve(2), Some(&vs_set(&[3])));
}

#[test]
fn rotation_at_largest_id_can_only_be_stale() {
    let mut tracker = ValidatorSetTracker::new(vs_set(&[1]), u64::MAX);
    assert_eq!(tracker.rotate(vs_set(&[2]), u64::MAX), Err(Error::StaleRotation));
    assert_eq!(tracker.rotate(vs_set(&[2]), 0), Err(Error::StaleRotation));
}

#[test]
fn cloned_set_equals_its_source() {
    let set = ValidatorSet::with_threshold(vec![vs_validator(1, 4), vs_validator(2, 6)], 7).unwrap();
    assert_eq!(set.clone(), set);
}

#[test]
fn only_rotation_gap_needs_catch_up() {
    assert!(Error::RotationGap.needs_catch_up());
    for error in [
        Error::StaleCommitment,
        Error::UnknownValidatorSet,
        Error::InsufficientSignatures,
        Error::StaleRotation,
        Error::ProofMismatch,
        Error::MalformedProof,
        Error::DecodeError,
    ] {
        assert!(!error.needs_catch_up());
    }
}
