use accord::command::Phase;
use accord::deps::DepSet;
use accord::error::AccordError;
use accord::quorum::Quorums;
use accord::recovery::{decide_recovery, is_stalled, next_ballot, RecoveryDecision};
use accord::replica::CommandSummary;
use accord::timestamp::Timestamp;

fn ts(p: u64) -> Timestamp {
    Timestamp::new(p, 0, 1)
}

fn deps(ids: &[u64]) -> DepSet {
    DepSet::from_vec(ids.to_vec())
}

fn pre_accepted(at: u64, d: &[u64]) -> Option<CommandSummary> {
    Some(CommandSummary {
        phase: Phase::PreAccepted,
        proposed_ts: ts(at),
        executes_at: None,
        deps: deps(d),
        ballot: 1,
    })
}

fn accepted(at: u64, d: &[u64]) -> Option<CommandSummary> {
    Some(CommandSummary {
        phase: Phase::Accepted,
        proposed_ts: ts(1),
        executes_at: Some(ts(at)),
        deps: deps(d),
        ballot: 1,
    })
}

fn decided(phase: Phase, at: u64, d: &[u64]) -> Option<CommandSummary> {
    Some(CommandSummary {
        phase,
        proposed_ts: ts(1),
        executes_at: Some(ts(at)),
        deps: deps(d),
        ballot: 0,
    })
}

fn three() -> Quorums {
    Quorums::simple(3).unwrap()
}

#[test]
fn too_few_replies_decide_nothing() {
    let replies = vec![decided(Phase::Committed, 5, &[])];
    assert_eq!(decide_recovery(&replies, &three()).unwrap_err(), AccordError::QuorumUnavailable);
    assert_eq!(decide_recovery(&vec![], &three()).unwrap_err(), AccordError::QuorumUnavailable);
}

#[test]
fn committed_anywhere_is_adopted() {
    let replies = vec![pre_accepted(3, &[]), None, decided(Phase::Committed, 5, &[2])];
    match decide_recovery(&replies, &three()).unwrap() {
        RecoveryDecision::PropagateCommit { executes_at, deps: d } => {
            assert_eq!(executes_at, ts(5));
            assert!(d.same_as(&deps(&[2])));
        }
        other => panic!("expected the commit to be propagated, got {:?}", other),
    }
}

#[test]
fn applied_anywhere_is_adopted_over_accepted_majority() {
    let replies = vec![accepted(9, &[]), accepted(9, &[]), decided(Phase::Applied, 5, &[2])];
    match decide_recovery(&replies, &three()).unwrap() {
        RecoveryDecision::PropagateCommit { executes_at, .. } => assert_eq!(executes_at, ts(5)),
        other => panic!("expected the commit to be propagated, got {:?}", other),
    }
}

#[test]
fn two_decided_outcomes_are_a_conflict() {
    let replies = vec![decided(Phase::Committed, 5, &[2]), decided(Phase::Applied, 6, &[2])];
    assert_eq!(
        decide_recovery(&replies, &three()).unwrap_err(),
        AccordError::ConflictingFinalization
    );
    let replies = vec![decided(Phase::Committed, 5, &[2]), decided(Phase::Committed, 5, &[3])];
    assert_eq!(
        decide_recovery(&replies, &three()).unwrap_err(),
        AccordError::ConflictingFinalization
    );
}

#[test]
fn same_decided_outcome_twice_is_no_conflict() {
    let replies = vec![decided(Phase::Committed, 5, &[2, 3]), decided(Phase::Applied, 5, &[3, 2])];
    assert!(matches!(
        decide_recovery(&replies, &three()).unwrap(),
        RecoveryDecision::PropagateCommit { .. }
    ));
}

#[test]
fn majority_of_identical_accepted_is_committed() {
    let replies = vec![accepted(9, &[4]), pre_accepted(3, &[]), accepted(9, &[4])];
    match decide_recovery(&replies, &three()).unwrap() {
        RecoveryDecision::CommitAccepted { executes_at, deps: d } => {
            assert_eq!(executes_at, ts(9));
            assert!(d.same_as(&deps(&[4])));
        }
        other => panic!("expected the accepted state to be committed, got {:?}", other),
    }
}

#[test]
fn accepted_minority_is_not_enough() {
    let replies = vec![accepted(9, &[4]), accepted(8, &[4]), None];
    assert!(matches!(decide_recovery(&replies, &three()).unwrap(), RecoveryDecision::Restart));
    let five = Quorums::simple(5).unwrap();
    let replies = vec![accepted(9, &[4]), accepted(9, &[4]), None];
    assert!(matches!(decide_recovery(&replies, &five).unwrap(), RecoveryDecision::Restart));
}

#[test]
fn pre_accepted_superset_is_proposed_again() {
    let replies = vec![pre_accepted(3, &[1]), pre_accepted(3, &[1, 2]), None];
    match decide_recovery(&replies, &three()).unwrap() {
        RecoveryDecision::RetryPreAccept { proposed_ts } => assert_eq!(proposed_ts, ts(3)),
        other => panic!("expected the proposal again, got {:?}", other),
    }
}

#[test]
fn pre_accepted_with_different_proposals_restart() {
    let replies = vec![pre_accepted(3, &[1]), pre_accepted(4, &[1])];
    assert!(matches!(decide_recovery(&replies, &three()).unwrap(), RecoveryDecision::Restart));
}

#[test]
fn pre_accepted_without_a_superset_restart() {
    let replies = vec![pre_accepted(3, &[1]), pre_accepted(3, &[2])];
    assert!(matches!(decide_recovery(&replies, &three()).unwrap(), RecoveryDecision::Restart));
}

#[test]
fn nothing_known_restarts() {
    let replies = vec![None, None];
    assert!(matches!(decide_recovery(&replies, &three()).unwrap(), RecoveryDecision::Restart));
}

#[test]
fn next_ballot_increments() {
    assert_eq!(next_ballot(0), Some(1));
    assert_eq!(next_ballot(41), Some(42));
    assert_eq!(next_ballot(u32::MAX), None);
}

#[test]
fn stalled_means_undecided_past_the_timeout() {
    assert!(is_stalled(Phase::PreAccepted, 11, 10));
    assert!(is_stalled(Phase::Accepted, 11, 10));
    assert!(!is_stalled(Phase::PreAccepted, 10, 10));
    assert!(!is_stalled(Phase::Committed, 99, 10));
    assert!(!is_stalled(Phase::Applied, 99, 10));
}
