use beefy_relay::commitment::{Commitment, Payload, SignedCommitment};
use beefy_relay::error::Error;
use beefy_relay::finality::{check_signatures, screen, tally, Accepted, CommitmentVerifier};
use beefy_relay::validator_set::{Validator, ValidatorSet, ValidatorSetTracker};
use sp_core::{ecdsa, Pair};

fn fin_pair(seed: u8) -> ecdsa::Pair {
    ecdsa::Pair::from_seed(&[seed; 32])
}

fn fin_validator(seed: u8, weight: u64) -> Validator {
    Validator { public_key: fin_pair(seed).public().0, weight }
}

fn fin_commitment(block_number: u32, validator_set_id: u64) -> Commitment {
    Commitment { payload: Payload::new([0x11; 32]), block_number, validator_set_id }
}

fn fin_sign(seed: u8, commitment: &Commitment) -> Option<[u8; 65]> {
    Some(fin_pair(seed).sign_prehashed(&commitment.signing_digest()).0)
}

fn fin_signed(commitment: Commitment, signers: &[Option<u8>]) -> SignedCommitment {
    let signatures = signers
        .iter()
        .map(|signer| match signer {
            Some(seed) => fin_sign(*seed, &commitment),
            None => None,
        })
        .collect();
    SignedCommitment { commitment, signatures }
}

/// Validators 1, 2, 3 with the weights 3, 2, 1 and the threshold 5, as set 0.
fn fin_tracker() -> ValidatorSetTracker {
    let validators = vec![fin_validator(1, 3), fin_validator(2, 2), fin_validator(3, 1)];
    ValidatorSetTracker::new(ValidatorSet::with_threshold(validators, 5).unwrap(), 0)
}

#[test]
fn commitment_encoding_is_root_then_little_endian_numbers() {
    let mut root = [0u8; 32];
    for (at, byte) in root.iter_mut().enumerate() {
        *byte = at as u8;
    }
    let commitment = Commitment {
        payload: Payload::new(root),
        block_number: 0x0102_0304,
        validator_set_id: 0x0102_0304_0506_0708,
    };
    assert_eq!(
        hex::encode(commitment.encode()),
        "000102030405060708090a0b0c0d0e0f101112131415161718191a1b1c1d1e1f040302010807060504030201"
    );
    assert_eq!(
        hex::encode(commitment.signing_digest()),
        "f083a43e7f2ec893711d0ed364d6e9bb896417dfc4daf06c89cb1e2c3e8c184c"
    );
}

#[test]
fn signing_digest_matches_known_vector() {
    let commitment = fin_commitment(2, 0);
    assert_eq!(
        hex::encode(commitment.encode()),
        "1111111111111111111111111111111111111111111111111111111111111111020000000000000000000000"
    );
    assert_eq!(
        hex::encode(commitment.signing_digest()),
        "3d80341a9b54b194b4ef26bf501e27c92c93242db5493904ba51307b3257f995"
    );
}

#[test]
fn weight_exactly_at_threshold_is_accepted() {
    let tracker = fin_tracker();
    let mut verifier = CommitmentVerifier::new();
    let signed = fin_signed(fin_commitment(2, 0), &[Some(1), Some(2), None]);
    let accepted = verifier.import(&tracker, &signed);
    assert_eq!(accepted, Ok(Accepted { commitment: fin_commitment(2, 0), signed_weight: 5 }));
    assert_eq!(verifier.head(), Some(fin_commitment(2, 0)));
}

#[test]
fn one_unit_below_threshold_is_rejected() {
    let tracker = fin_tracker();
    let mut verifier = CommitmentVerifier::new();
    let signed = fin_signed(fin_commitment(2, 0), &[Some(1), None, Some(3)]);
    assert_eq!(verifier.import(&tracker, &signed), Err(Error::InsufficientSignatures));
    assert_eq!(verifier.head(), None);
}

#[test]
fn weight_above_threshold_is_accepted_with_its_weight() {
    let tracker = fin_tracker();
    let mut verifier = CommitmentVerifier::new();
    let signed = fin_signed(fin_commitment(9, 0), &[Some(1), Some(2), Some(3)]);
    assert_eq!(verifier.import(&tracker, &signed).unwrap().signed_weight, 6);
}

#[test]
fn commitment_without_signatures_is_insufficient() {
    let tracker = fin_tracker();
    let mut verifier = CommitmentVerifier::new();
    let none = fin_signed(fin_commitment(2, 0), &[None, None, None]);
    assert_eq!(verifier.import(&tracker, &none), Err(Error::InsufficientSignatures));
    let empty = fin_signed(fin_commitment(2, 0), &[]);
    assert_eq!(verifier.import(&tracker, &empty), Err(Error::InsufficientSignatures));
    assert_eq!(verifier.head(), None);
}

#[test]
fn lower_or_equal_block_after_acceptance_is_stale() {
    let tracker = fin_tracker();
    let mut verifier = CommitmentVerifier::new();
    let first = fin_signed(fin_commitment(7, 0), &[Some(1), Some(2), Some(3)]);
    verifier.import(&tracker, &first).unwrap();
    for block_number in [0, 1, 6, 7] {
        let replayed = fin_signed(fin_commitment(block_number, 0), &[Some(1), Some(2), Some(3)]);
        assert_eq!(verifier.import(&tracker, &replayed), Err(Error::StaleCommitment));
        assert_eq!(verifier.head(), Some(fin_commitment(7, 0)));
    }
    let next = fin_signed(fin_commitment(8, 0), &[Some(1), Some(2), Some(3)]);
    assert!(verifier.import(&tracker, &next).is_ok());
}

#[test]
fn block_one_after_block_two_is_stale_and_head_unchanged() {
    let tracker = fin_tracker();
    let mut verifier = CommitmentVerifier::new();
    let second = fin_signed(fin_commitment(2, 0), &[Some(1), Some(2), None]);
    verifier.import(&tracker, &second).unwrap();
    let before = verifier;
    let first = fin_signed(fin_commitment(1, 0), &[Some(1), Some(2), Some(3)]);
    assert_eq!(verifier.import(&tracker, &first), Err(Error::StaleCommitment));
    assert_eq!(verifier, before);
    assert_eq!(verifier.head(), Some(fin_commitment(2, 0)));
}

#[test]
fn order_is_judged_before_set_and_signatures() {
    let tracker = fin_tracker();
    let mut verifier = CommitmentVerifier::new();
    verifier.import(&tracker, &fin_signed(fin_commitment(5, 0), &[Some(1), Some(2)])).unwrap();
    let stale_unknown_unsigned = fin_signed(fin_commitment(5, 40), &[]);
    assert_eq!(verifier.import(&tracker, &stale_unknown_unsigned), Err(Error::StaleCommitment));
}

#[test]
fn unknown_validator_set_is_reported() {
    let tracker = fin_tracker();
    let mut verifier = CommitmentVerifier::new();
    let signed = fin_signed(fin_commitment(2, 1), &[Some(1), Some(2), Some(3)]);
    assert_eq!(verifier.import(&tracker, &signed), Err(Error::UnknownValidatorSet));
    assert_eq!(verifier.head(), None);
}

#[test]
fn previous_set_is_honoured_after_rotation() {
    let mut tracker = fin_tracker();
    let next = ValidatorSet::with_threshold(vec![fin_validator(4, 1), fin_validator(5, 1)], 2);
    tracker.rotate(next.unwrap(), 1).unwrap();
    let mut verifier = CommitmentVerifier::new();
    let by_old_set = fin_signed(fin_commitment(2, 0), &[Some(1), Some(2), None]);
    assert!(verifier.import(&tracker, &by_old_set).is_ok());
    let by_new_set = fin_signed(fin_commitment(3, 1), &[Some(4), Some(5)]);
    assert!(verifier.import(&tracker, &by_new_set).is_ok());
    assert_eq!(verifier.head(), Some(fin_commitment(3, 1)));
}

#[test]
fn previous_set_is_stale_once_the_current_set_has_signed() {
    let mut tracker = fin_tracker();
    let next = ValidatorSet::with_threshold(vec![fin_validator(4, 1), fin_validator(5, 1)], 2);
    tracker.rotate(next.unwrap(), 1).unwrap();
    let mut verifier = CommitmentVerifier::new();
    verifier.import(&tracker, &fin_signed(fin_commitment(3, 1), &[Some(4), Some(5)])).unwrap();
    let by_old_set = fin_signed(fin_commitment(4, 0), &[Some(1), Some(2), Some(3)]);
    assert_eq!(verifier.import(&tracker, &by_old_set), Err(Error::StaleCommitment));
    assert_eq!(verifier.head(), Some(fin_commitment(3, 1)));
}

#[test]
fn set_two_rotations_back_is_unknown() {
    let mut tracker = fin_tracker();
    tracker.rotate(ValidatorSet::new(vec![fin_validator(4, 1)]), 1).unwrap();
    tracker.rotate(ValidatorSet::new(vec![fin_validator(5, 1)]), 2).unwrap();
    let mut verifier = CommitmentVerifier::new();
    let signed = fin_signed(fin_commitment(2, 0), &[Some(1), Some(2), Some(3)]);
    assert_eq!(verifier.import(&tracker, &signed), Err(Error::UnknownValidatorSet));
}

#[test]
fn tampered_signature_does_not_count() {
    let tracker = fin_tracker();
    let mut verifier = CommitmentVerifier::new();
    let mut signed = fin_signed(fin_commitment(2, 0), &[Some(1), Some(2), None]);
    let mut bent = signed.signatures[0].unwrap();
    bent[10] ^= 0x01;
    signed.signatures[0] = Some(bent);
    assert_eq!(verifier.import(&tracker, &signed), Err(Error::InsufficientSignatures));
}

#[test]
fn signature_with_invalid_recovery_id_does_not_count() {
    let tracker = fin_tracker();
    let mut verifier = CommitmentVerifier::new();
    let mut signed = fin_signed(fin_commitment(2, 0), &[Some(1), Some(2), None]);
    let mut bent = signed.signatures[1].unwrap();
    bent[64] = 9;
    signed.signatures[1] = Some(bent);
    assert_eq!(verifier.import(&tracker, &signed), Err(Error::InsufficientSignatures));
}

#[test]
fn signature_at_the_position_of_another_validator_does_not_count() {
    let tracker = fin_tracker();
    let mut verifier = CommitmentVerifier::new();
    let swapped = fin_signed(fin_commitment(2, 0), &[Some(2), Some(1), None]);
    assert_eq!(verifier.import(&tracker, &swapped), Err(Error::InsufficientSignatures));
}

#[test]
fn signature_over_another_commitment_does_not_count() {
    let tracker = fin_tracker();
    let mut verifier = CommitmentVerifier::new();
    let other = fin_signed(fin_commitment(3, 0), &[Some(1), Some(2), Some(3)]);
    let forged = SignedCommitment { commitment: fin_commitment(2, 0), signatures: other.signatures };
    assert_eq!(verifier.import(&tracker, &forged), Err(Error::InsufficientSignatures));
}

#[test]
fn signatures_beyond_the_set_are_ignored() {
    let tracker = fin_tracker();
    let mut verifier = CommitmentVerifier::new();
    let signed = fin_signed(fin_commitment(2, 0), &[Some(1), None, Some(3), Some(1), Some(2)]);
    assert_eq!(verifier.import(&tracker, &signed), Err(Error::InsufficientSignatures));
    let enough = fin_signed(fin_commitment(2, 0), &[Some(1), Some(2), None, Some(1), Some(2)]);
    assert_eq!(verifier.import(&tracker, &enough).unwrap().signed_weight, 5);
}

#[test]
fn missing_trailing_signatures_count_as_absent() {
    let tracker = fin_tracker();
    let mut verifier = CommitmentVerifier::new();
    let short = fin_signed(fin_commitment(2, 0), &[Some(1)]);
    assert_eq!(verifier.import(&tracker, &short), Err(Error::InsufficientSignatures));
    let enough = fin_signed(fin_commitment(2, 0), &[Some(1), Some(2)]);
    assert_eq!(verifier.import(&tracker, &enough).unwrap().signed_weight, 5);
}

#[test]
fn failed_import_keeps_head() {
    let tracker = fin_tracker();
    let mut verifier = CommitmentVerifier::new();
    verifier.import(&tracker, &fin_signed(fin_commitment(2, 0), &[Some(1), Some(2)])).unwrap();
    let unknown = fin_signed(fin_commitment(3, 9), &[Some(1), Some(2)]);
    assert_eq!(verifier.import(&tracker, &unknown), Err(Error::UnknownValidatorSet));
    assert_eq!(verifier.head(), Some(fin_commitment(2, 0)));
    let unsigned = fin_signed(fin_commitment(3, 0), &[None, None, Some(3)]);
    assert_eq!(verifier.import(&tracker, &unsigned), Err(Error::InsufficientSignatures));
    assert_eq!(verifier.head(), Some(fin_commitment(2, 0)));
}

#[test]
fn tally_holds_the_weight_of_favourable_verdicts_against_the_threshold() {
    let tracker = fin_tracker();
    let (set, _) = tracker.current();
    assert_eq!(tally(set, &vec![true, true, false]), Ok(5));
    assert_eq!(tally(set, &vec![true, true, true]), Ok(6));
    assert_eq!(tally(set, &vec![true, false, true]), Err(Error::InsufficientSignatures));
    assert_eq!(tally(set, &vec![false, true, true]), Err(Error::InsufficientSignatures));
    assert_eq!(tally(set, &vec![false, false, false]), Err(Error::InsufficientSignatures));
}

#[test]
fn tally_ignores_surplus_verdicts_and_takes_missing_ones_as_unfavourable() {
    let tracker = fin_tracker();
    let (set, _) = tracker.current();
    assert_eq!(tally(set, &vec![]), Err(Error::InsufficientSignatures));
    assert_eq!(tally(set, &vec![true]), Err(Error::InsufficientSignatures));
    assert_eq!(tally(set, &vec![true, true]), Ok(5));
    assert_eq!(tally(set, &vec![true, false, false, true, true]), Err(Error::InsufficientSignatures));
}

#[test]
fn tally_of_largest_weights_does_not_overflow() {
    let validators = vec![fin_validator(1, u64::MAX), fin_validator(2, u64::MAX)];
    let set = ValidatorSet::with_threshold(validators, 2 * (u64::MAX as u128)).unwrap();
    assert_eq!(tally(&set, &vec![true, true]), Ok(2 * (u64::MAX as u128)));
    assert_eq!(tally(&set, &vec![true, false]), Err(Error::InsufficientSignatures));
}

#[test]
fn check_signatures_gives_a_verdict_for_every_validator() {
    let tracker = fin_tracker();
    let (set, _) = tracker.current();
    let signed = fin_signed(fin_commitment(2, 0), &[Some(1), None, Some(3)]);
    assert_eq!(check_signatures(set, &signed), vec![true, false, true]);
    let swapped = fin_signed(fin_commitment(2, 0), &[Some(3), Some(2), Some(1), Some(1)]);
    assert_eq!(check_signatures(set, &swapped), vec![false, true, false]);
    let short = fin_signed(fin_commitment(2, 0), &[Some(1)]);
    assert_eq!(check_signatures(set, &short), vec![true, false, false]);
}

#[test]
fn screen_judges_order_before_the_validator_set() {
    let mut tracker = fin_tracker();
    let head = Some(fin_commitment(5, 0));
    assert_eq!(screen(None, &tracker, &fin_commitment(0, 0)), Ok(tracker.current().0));
    assert_eq!(screen(head, &tracker, &fin_commitment(6, 0)), Ok(tracker.current().0));
    assert_eq!(screen(head, &tracker, &fin_commitment(5, 0)), Err(Error::StaleCommitment));
    assert_eq!(screen(head, &tracker, &fin_commitment(5, 7)), Err(Error::StaleCommitment));
    assert_eq!(screen(head, &tracker, &fin_commitment(6, 7)), Err(Error::UnknownValidatorSet));
    assert_eq!(screen(None, &tracker, &fin_commitment(0, 1)), Err(Error::UnknownValidatorSet));

    tracker.rotate(ValidatorSet::new(vec![fin_validator(4, 1)]), 1).unwrap();
    let head = Some(fin_commitment(5, 1));
    assert_eq!(screen(head, &tracker, &fin_commitment(6, 0)), Err(Error::StaleCommitment));
    assert_eq!(screen(head, &tracker, &fin_commitment(6, 1)), Ok(tracker.current().0));
    assert_eq!(
        screen(Some(fin_commitment(5, 0)), &tracker, &fin_commitment(6, 0)),
        Ok(tracker.previous().unwrap().0)
    );
}
