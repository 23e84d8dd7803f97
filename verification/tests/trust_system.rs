use trust_score::ledger::Error;
use trust_score::score::{BASE_STEP, NEUTRAL_SCORE, REMOVAL_THRESHOLD, SCALE};
use trust_score::system::{Module, TrustEvent};

/// Drives `v` with failing votes until its record is flagged, returning the
/// number of failing updates that were applied.
fn fail_until_flagged(m: &mut Module, v: u64) -> u64 {
    let mut steps = 0u64;
    for _ in 0..10_000 {
        let rec = m.trust_scores(v).expect("validator must be tracked");
        if rec.flagged_for_removal {
            return steps;
        }
        m.update_trust_score(0, v, false, steps).expect("update must succeed");
        steps += 1;
    }
    panic!("validator was never flagged");
}

#[test]
fn initialize_gives_neutral_record() {
    let mut m = Module::new();
    assert_eq!(m.initialize_validator(1, 7, 5), Ok(()));
    assert_eq!(m.get_trust_score(7), Some(NEUTRAL_SCORE));
    let rec = m.trust_scores(7).unwrap();
    assert_eq!(rec.validator, 7);
    assert_eq!(rec.trust_score, 500_000);
    assert_eq!(rec.successful_validations, 0);
    assert_eq!(rec.failed_validations, 0);
    assert_eq!(rec.last_updated, 5);
    assert!(!rec.flagged_for_removal);
    assert_eq!(m.validator_list(), vec![7]);
    assert_eq!(m.event_log().as_slice(), &[TrustEvent::ValidatorAdded(7)]);
}

#[test]
fn initialize_twice_fails() {
    let mut m = Module::new();
    assert_eq!(m.initialize_validator(1, 7, 5), Ok(()));
    assert_eq!(m.initialize_validator(2, 7, 6), Err(Error::AlreadyExists));
    assert_eq!(m.validator_list(), vec![7]);
    assert_eq!(m.event_log().len(), 1);
}

#[test]
fn matching_vote_from_neutral() {
    // From 0.5, a matching vote adds 0.001 * 0.5 * e^1.25, giving 0.501745
    // at ppm precision.
    let mut m = Module::new();
    m.initialize_validator(1, 7, 0).unwrap();
    assert_eq!(m.update_trust_score(1, 7, true, 9), Ok(()));
    let rec = m.trust_scores(7).unwrap();
    assert_eq!(rec.trust_score, 501_745);
    assert_eq!(rec.successful_validations, 1);
    assert_eq!(rec.failed_validations, 0);
    assert_eq!(rec.last_updated, 9);
    assert_eq!(
        m.event_log().as_slice(),
        &[
            TrustEvent::ValidatorAdded(7),
            TrustEvent::ValidationSuccessful(7, 501_745),
            TrustEvent::TrustScoreUpdated(7, 501_745),
        ]
    );
}

#[test]
fn failing_vote_from_neutral() {
    // From 0.5, a failing vote subtracts 0.001 * (1 - 1 / (1 - 1.25)) =
    // 0.005, giving 0.495.
    let mut m = Module::new();
    m.initialize_validator(1, 7, 0).unwrap();
    assert_eq!(m.update_trust_score(1, 7, false, 3), Ok(()));
    let rec = m.trust_scores(7).unwrap();
    assert_eq!(rec.trust_score, 495_000);
    assert_eq!(rec.successful_validations, 0);
    assert_eq!(rec.failed_validations, 1);
    assert!(!rec.flagged_for_removal);
    assert_eq!(
        m.event_log().as_slice(),
        &[
            TrustEvent::ValidatorAdded(7),
            TrustEvent::ValidationFailed(7, 495_000),
            TrustEvent::TrustScoreUpdated(7, 495_000),
        ]
    );
}

#[test]
fn unknown_validator_is_reported() {
    let mut m = Module::new();
    assert_eq!(m.update_trust_score(1, 42, true, 0), Err(Error::ValidatorNotFound));
    assert_eq!(m.get_trust_score(42), None);
    assert_eq!(m.trust_scores(42), None);
    assert_eq!(m.cleanup_validators(1), Ok(()));
    assert!(m.validator_list().is_empty());
}

#[test]
fn repeated_failures_flag_the_validator() {
    let mut m = Module::new();
    m.initialize_validator(1, 7, 0).unwrap();
    let steps = fail_until_flagged(&mut m, 7);
    let rec = m.trust_scores(7).unwrap();
    assert!(rec.flagged_for_removal);
    assert!(rec.trust_score < REMOVAL_THRESHOLD);
    // The penalty curve walks 0.5 down to just below 0.1 in exactly 308
    // failing votes, landing on 0.099482.
    assert_eq!(steps, 308);
    assert_eq!(rec.trust_score, 99_482);
    assert_eq!(rec.failed_validations, 308);
    // The flagging update announces the removal before the vote outcome.
    let log = m.event_log();
    let n = log.len();
    assert_eq!(log[n - 3], TrustEvent::ValidatorRemoved(7));
    assert_eq!(log[n - 2], TrustEvent::ValidationFailed(7, 99_482));
    assert_eq!(log[n - 1], TrustEvent::TrustScoreUpdated(7, 99_482));
}

#[test]
fn flagged_validator_updates_are_noops() {
    let mut m = Module::new();
    m.initialize_validator(1, 7, 0).unwrap();
    fail_until_flagged(&mut m, 7);
    let before = m.trust_scores(7).unwrap();
    let log_len = m.event_log().len();
    // Both outcomes still report success but change nothing at all.
    assert_eq!(m.update_trust_score(1, 7, true, 999), Ok(()));
    assert_eq!(m.update_trust_score(1, 7, false, 1_000), Ok(()));
    let after = m.trust_scores(7).unwrap();
    assert_eq!(after, before);
    assert_eq!(m.event_log().len(), log_len);
}

#[test]
fn cleanup_removes_exactly_the_flagged() {
    let mut m = Module::new();
    m.initialize_validator(1, 1, 0).unwrap();
    m.initialize_validator(1, 2, 0).unwrap();
    fail_until_flagged(&mut m, 2);
    let kept = m.trust_scores(1).unwrap();
    let log_len = m.event_log().len();
    assert_eq!(m.cleanup_validators(1), Ok(()));
    assert_eq!(m.get_trust_score(2), None);
    assert_eq!(m.trust_scores(1), Some(kept));
    assert_eq!(m.validator_list(), vec![1]);
    // Physical removal is silent: the announcement happened at flag time.
    assert_eq!(m.event_log().len(), log_len);
}

#[test]
fn identity_is_reusable_after_removal() {
    let mut m = Module::new();
    m.initialize_validator(1, 7, 0).unwrap();
    fail_until_flagged(&mut m, 7);
    m.cleanup_validators(1).unwrap();
    assert_eq!(m.initialize_validator(1, 7, 77), Ok(()));
    let rec = m.trust_scores(7).unwrap();
    assert_eq!(rec.trust_score, NEUTRAL_SCORE);
    assert_eq!(rec.successful_validations, 0);
    assert_eq!(rec.failed_validations, 0);
    assert!(!rec.flagged_for_removal);
}

#[test]
fn ranking_is_sorted_by_descending_score() {
    let mut m = Module::new();
    m.initialize_validator(1, 1, 0).unwrap();
    m.initialize_validator(1, 2, 0).unwrap();
    m.initialize_validator(1, 3, 0).unwrap();
    m.update_trust_score(1, 1, true, 1).unwrap();
    m.update_trust_score(1, 2, false, 1).unwrap();
    let ranked = m.get_validators_by_trust();
    assert_eq!(ranked, vec![(1, 501_745), (3, 500_000), (2, 495_000)]);
    for w in ranked.windows(2) {
        assert!(w[0].1 >= w[1].1);
    }
}

#[test]
fn ranking_breaks_ties_by_ascending_identity() {
    let mut m = Module::new();
    m.initialize_validator(1, 5, 0).unwrap();
    m.initialize_validator(1, 3, 0).unwrap();
    m.initialize_validator(1, 4, 0).unwrap();
    let ranked = m.get_validators_by_trust();
    assert_eq!(
        ranked,
        vec![(3, NEUTRAL_SCORE), (4, NEUTRAL_SCORE), (5, NEUTRAL_SCORE)]
    );
}

#[test]
fn ranking_of_empty_system_is_empty() {
    let m = Module::new();
    assert!(m.get_validators_by_trust().is_empty());
    assert!(m.event_log().is_empty());
}

#[test]
fn scores_stay_within_the_unit_interval() {
    let mut m = Module::new();
    m.initialize_validator(1, 7, 0).unwrap();
    for i in 0..2_000 {
        m.update_trust_score(1, 7, true, i).unwrap();
        let s = m.get_trust_score(7).unwrap();
        assert!(s <= SCALE);
    }
    // Reinforcement saturates at the cap.
    assert_eq!(m.get_trust_score(7), Some(SCALE));
}

#[test]
fn every_failure_costs_at_least_the_base_step() {
    let mut m = Module::new();
    m.initialize_validator(1, 7, 0).unwrap();
    let mut prev = m.get_trust_score(7).unwrap();
    for i in 0..50 {
        m.update_trust_score(1, 7, false, i).unwrap();
        let s = m.get_trust_score(7).unwrap();
        assert!(s + BASE_STEP <= prev);
        prev = s;
    }
}

#[test]
fn remove_validator_ignores_active_records() {
    let mut m = Module::new();
    m.initialize_validator(1, 7, 0).unwrap();
    m.remove_validator(7);
    assert_eq!(m.get_trust_score(7), Some(NEUTRAL_SCORE));
    m.remove_validator(8);
    assert_eq!(m.validator_list(), vec![7]);
}

#[test]
fn remove_validator_deletes_a_flagged_record() {
    let mut m = Module::new();
    m.initialize_validator(1, 7, 0).unwrap();
    m.initialize_validator(1, 8, 0).unwrap();
    fail_until_flagged(&mut m, 7);
    m.remove_validator(7);
    assert_eq!(m.get_trust_score(7), None);
    assert_eq!(m.validator_list(), vec![8]);
}
