use accord::command::Phase;
use accord::deps::DepSet;
use accord::error::AccordError;
use accord::keys::{Key, KeyRange, KeySet};
use accord::replica::{witness_for, ApplyOutcome, Replica};
use accord::timestamp::Timestamp;
use accord::transaction::Transaction;

fn key(s: &str) -> Key {
    Key::new(s.as_bytes().to_vec())
}

fn on_key(id: u64, k: &str) -> Transaction {
    Transaction::new(id, KeySet::from_parts(vec![key(k)], vec![]), vec![id as u8])
}

fn on_range(id: u64, low: &str, high: &str) -> Transaction {
    Transaction::new(
        id,
        KeySet::from_parts(vec![], vec![KeyRange::new(key(low), key(high))]),
        vec![id as u8],
    )
}

fn ts(p: u64, node: u64) -> Timestamp {
    Timestamp::new(p, 0, node)
}

fn deps(ids: &[u64]) -> DepSet {
    DepSet::from_vec(ids.to_vec())
}

#[test]
fn new_replica_holds_nothing() {
    let r = Replica::new(3);
    assert_eq!(r.node_id, 3);
    assert!(!r.has_seen(1));
    assert_eq!(r.phase_of(1), None);
    assert_eq!(r.index_of(1), None);
    assert_eq!(*r.log.get_latest_commit_ts(), Timestamp::zero());
    assert_eq!(*r.log.get_latest_applied_ts(), Timestamp::zero());
}

#[test]
fn witness_is_the_proposal_when_it_is_latest() {
    assert_eq!(witness_for(None, ts(5, 1), 9), Some(ts(5, 1)));
    assert_eq!(witness_for(Some(ts(4, 2)), ts(5, 1), 9), Some(ts(5, 1)));
}

#[test]
fn witness_is_the_successor_when_a_conflict_is_not_earlier() {
    assert_eq!(witness_for(Some(ts(5, 1)), ts(5, 1), 9), Some(Timestamp::new(5, 0, 9)));
    assert_eq!(witness_for(Some(ts(8, 9)), ts(5, 1), 9), Some(Timestamp::new(8, 1, 9)));
    assert_eq!(
        witness_for(Some(Timestamp::new(u64::MAX, u16::MAX, 9)), ts(5, 1), 9),
        None
    );
}

#[test]
fn pre_accept_without_conflicts_agrees() {
    let mut r = Replica::new(1);
    let reply = r.pre_accept(on_key(10, "a"), ts(100, 2), 0).unwrap();
    assert!(reply.agreed);
    assert_eq!(reply.witnessed_ts, ts(100, 2));
    assert!(reply.deps.is_empty());
    assert_eq!(r.phase_of(10), Some(Phase::PreAccepted));
    assert!(r.has_seen(10));
}

#[test]
fn pre_accept_of_unrelated_keys_has_no_deps() {
    let mut r = Replica::new(1);
    r.pre_accept(on_key(10, "a"), ts(100, 2), 0).unwrap();
    let reply = r.pre_accept(on_key(11, "b"), ts(50, 3), 0).unwrap();
    assert!(reply.agreed);
    assert_eq!(reply.witnessed_ts, ts(50, 3));
    assert!(reply.deps.is_empty());
}

#[test]
fn later_proposal_depends_on_earlier_conflict() {
    let mut r = Replica::new(1);
    r.pre_accept(on_key(10, "a"), ts(100, 2), 0).unwrap();
    let reply = r.pre_accept(on_key(11, "a"), ts(101, 3), 0).unwrap();
    assert!(reply.agreed);
    assert_eq!(reply.witnessed_ts, ts(101, 3));
    assert!(reply.deps.same_as(&deps(&[10])));
}

#[test]
fn earlier_proposal_is_pushed_past_a_later_conflict() {
    let mut r = Replica::new(7);
    r.pre_accept(on_key(10, "a"), ts(100, 2), 0).unwrap();
    let reply = r.pre_accept(on_key(11, "a"), ts(90, 3), 0).unwrap();
    assert!(!reply.agreed);
    assert_eq!(reply.witnessed_ts, Timestamp::new(100, 0, 7));
    assert!(ts(100, 2).lt(&reply.witnessed_ts));
    assert!(reply.deps.same_as(&deps(&[10])));
}

#[test]
fn tie_with_a_conflict_is_broken_by_the_successor() {
    let mut r = Replica::new(1);
    r.pre_accept(on_key(10, "a"), ts(100, 2), 0).unwrap();
    let reply = r.pre_accept(on_key(11, "a"), ts(100, 2), 0).unwrap();
    assert!(!reply.agreed);
    assert_eq!(reply.witnessed_ts, Timestamp::new(100, 1, 1));
    assert!(reply.deps.same_as(&deps(&[10])));
}

#[test]
fn pre_accept_sees_range_conflicts() {
    let mut r = Replica::new(1);
    r.pre_accept(on_range(1, "a", "m"), ts(10, 1), 0).unwrap();
    r.pre_accept(on_key(2, "z"), ts(11, 1), 0).unwrap();
    let reply = r.pre_accept(on_range(3, "k", "p"), ts(12, 2), 0).unwrap();
    assert!(reply.agreed);
    assert!(reply.deps.same_as(&deps(&[1])));
    let reply = r.pre_accept(on_range(4, "m", "zz"), ts(13, 2), 0).unwrap();
    assert!(reply.deps.same_as(&deps(&[2, 3])));
}

#[test]
fn repeated_pre_accept_changes_nothing() {
    let mut r = Replica::new(1);
    let first = r.pre_accept(on_key(10, "a"), ts(100, 2), 0).unwrap();
    r.pre_accept(on_key(11, "a"), ts(200, 3), 0).unwrap();
    let again = r.pre_accept(on_key(10, "a"), ts(100, 2), 0).unwrap();
    assert_eq!(again.witnessed_ts, first.witnessed_ts);
    assert!(again.agreed);
    assert!(again.deps.same_as(&first.deps));
    assert_eq!(r.commands.len(), 2);
}

#[test]
fn pre_accept_with_stale_ballot_is_rejected() {
    let mut r = Replica::new(1);
    r.pre_accept(on_key(10, "a"), ts(100, 2), 5).unwrap();
    let e = r.pre_accept(on_key(10, "a"), ts(100, 2), 4).unwrap_err();
    assert_eq!(e, AccordError::StaleBallot);
}

#[test]
fn pre_accept_with_higher_ballot_looks_again() {
    let mut r = Replica::new(1);
    r.pre_accept(on_key(10, "a"), ts(100, 2), 0).unwrap();
    r.pre_accept(on_key(11, "a"), ts(200, 3), 0).unwrap();
    let reply = r.pre_accept(on_key(10, "a"), ts(100, 2), 1).unwrap();
    assert!(!reply.agreed);
    assert_eq!(reply.witnessed_ts, Timestamp::new(200, 1, 1));
    assert!(reply.deps.same_as(&deps(&[11])));
}

#[test]
fn pre_accept_reports_exhaustion() {
    let mut r = Replica::new(1);
    let last = Timestamp::new(u64::MAX, u16::MAX, 5);
    r.pre_accept(on_key(10, "a"), last, 0).unwrap();
    let e = r.pre_accept(on_key(11, "a"), ts(1, 1), 0).unwrap_err();
    assert_eq!(e, AccordError::TimestampExhausted);
    assert!(!r.has_seen(11));
}

#[test]
fn latest_conflicting_is_never_too_low() {
    let mut r = Replica::new(1);
    r.pre_accept(on_key(1, "a"), ts(10, 1), 0).unwrap();
    r.pre_accept(on_key(2, "b"), ts(99, 1), 0).unwrap();
    r.pre_accept(on_key(3, "a"), ts(30, 1), 0).unwrap();
    r.pre_accept(on_key(4, "a"), ts(20, 1), 0).unwrap();
    let keys = KeySet::from_parts(vec![key("a")], vec![]);
    let latest = r.latest_conflicting(100, &keys).unwrap();
    assert_eq!(latest, Timestamp::new(30, 1, 1));
    assert_eq!(r.latest_conflicting(100, &KeySet::from_parts(vec![key("c")], vec![])), None);
    let found = r.scan_conflicts(3, &keys);
    assert!(found.0.same_as(&deps(&[1, 4])));
}

#[test]
fn accept_overwrites_timestamp() {
    let mut r = Replica::new(1);
    r.pre_accept(on_key(10, "a"), ts(100, 2), 0).unwrap();
    assert_eq!(r.accept(on_key(10, "a"), ts(150, 3), deps(&[4]), 0), Ok(()));
    assert_eq!(r.phase_of(10), Some(Phase::Accepted));
    let i = r.index_of(10).unwrap();
    assert_eq!(r.commands[i].executes_at, Some(ts(150, 3)));
    assert!(r.commands[i].deps.same_as(&deps(&[4])));
}

#[test]
fn accept_on_first_contact_creates_the_command() {
    let mut r = Replica::new(1);
    assert_eq!(r.accept(on_key(10, "a"), ts(150, 3), deps(&[4]), 2), Ok(()));
    assert_eq!(r.phase_of(10), Some(Phase::Accepted));
    let i = r.index_of(10).unwrap();
    assert_eq!(r.commands[i].ballot, 2);
    assert_eq!(r.commands[i].executes_at, Some(ts(150, 3)));
}

#[test]
fn accept_with_stale_ballot_is_rejected() {
    let mut r = Replica::new(1);
    r.pre_accept(on_key(10, "a"), ts(100, 2), 3).unwrap();
    assert_eq!(
        r.accept(on_key(10, "a"), ts(150, 3), deps(&[]), 2),
        Err(AccordError::StaleBallot)
    );
    assert_eq!(r.phase_of(10), Some(Phase::PreAccepted));
}

#[test]
fn commit_marks_command_and_log() {
    let mut r = Replica::new(1);
    r.pre_accept(on_key(10, "a"), ts(100, 2), 0).unwrap();
    assert_eq!(r.commit(on_key(10, "a"), ts(100, 2), deps(&[])), Ok(()));
    assert_eq!(r.phase_of(10), Some(Phase::Committed));
    assert_eq!(*r.log.get_latest_commit_ts(), ts(100, 2));
    assert_eq!(*r.log.get_latest_applied_ts(), Timestamp::zero());
}

#[test]
fn commit_on_first_contact_creates_the_command() {
    let mut r = Replica::new(1);
    assert_eq!(r.commit(on_key(10, "a"), ts(100, 2), deps(&[1, 2])), Ok(()));
    assert_eq!(r.phase_of(10), Some(Phase::Committed));
    assert_eq!(*r.log.get_latest_commit_ts(), ts(100, 2));
}

#[test]
fn commit_of_another_outcome_is_conflicting_finalization() {
    let mut r = Replica::new(1);
    r.commit(on_key(10, "a"), ts(100, 2), deps(&[1])).unwrap();
    assert_eq!(
        r.commit(on_key(10, "a"), ts(101, 2), deps(&[1])),
        Err(AccordError::ConflictingFinalization)
    );
    assert_eq!(r.commit(on_key(10, "a"), ts(100, 2), deps(&[1])), Ok(()));
    let i = r.index_of(10).unwrap();
    assert_eq!(r.commands[i].executes_at, Some(ts(100, 2)));
    assert_eq!(*r.log.get_latest_commit_ts(), ts(100, 2));
}

#[test]
fn out_of_order_commits_keep_the_mark_at_the_latest() {
    let mut r = Replica::new(1);
    r.commit(on_key(10, "a"), ts(200, 2), deps(&[])).unwrap();
    r.commit(on_key(11, "b"), ts(100, 2), deps(&[])).unwrap();
    assert_eq!(*r.log.get_latest_commit_ts(), ts(200, 2));
}

#[test]
fn apply_of_unknown_or_uncommitted_does_nothing() {
    let mut r = Replica::new(1);
    assert!(matches!(r.apply(10), ApplyOutcome::Unknown));
    r.pre_accept(on_key(10, "a"), ts(100, 2), 0).unwrap();
    assert!(matches!(r.apply(10), ApplyOutcome::NotCommitted));
    r.accept(on_key(10, "a"), ts(100, 2), deps(&[]), 0).unwrap();
    assert!(matches!(r.apply(10), ApplyOutcome::NotCommitted));
    assert_eq!(r.phase_of(10), Some(Phase::Accepted));
}

#[test]
fn apply_hands_out_the_payload_once() {
    let mut r = Replica::new(1);
    r.commit(on_key(10, "a"), ts(100, 2), deps(&[])).unwrap();
    match r.apply(10) {
        ApplyOutcome::Execute(payload) => assert_eq!(payload, vec![10u8]),
        other => panic!("expected the payload, got {:?}", other),
    }
    assert_eq!(r.phase_of(10), Some(Phase::Applied));
    assert_eq!(*r.log.get_latest_applied_ts(), ts(100, 2));
    assert!(matches!(r.apply(10), ApplyOutcome::AlreadyApplied));
    assert!(matches!(r.apply(10), ApplyOutcome::AlreadyApplied));
    assert_eq!(r.phase_of(10), Some(Phase::Applied));
    assert_eq!(*r.log.get_latest_applied_ts(), ts(100, 2));
}

#[test]
fn apply_waits_for_unknown_dependency() {
    let mut r = Replica::new(1);
    r.commit(on_key(10, "a"), ts(100, 2), deps(&[9])).unwrap();
    assert!(matches!(r.apply(10), ApplyOutcome::WaitingOn(9)));
    assert_eq!(r.phase_of(10), Some(Phase::Committed));
}

#[test]
fn apply_waits_for_commit_then_apply_of_earlier_dependency() {
    let mut r = Replica::new(1);
    r.pre_accept(on_key(9, "a"), ts(50, 2), 0).unwrap();
    r.commit(on_key(10, "a"), ts(100, 2), deps(&[9])).unwrap();
    assert!(matches!(r.apply(10), ApplyOutcome::WaitingOn(9)));
    r.commit(on_key(9, "a"), ts(50, 2), deps(&[])).unwrap();
    assert!(matches!(r.apply(10), ApplyOutcome::WaitingOn(9)));
    assert!(matches!(r.apply(9), ApplyOutcome::Execute(_)));
    assert!(matches!(r.apply(10), ApplyOutcome::Execute(_)));
}

#[test]
fn apply_does_not_wait_for_dependency_that_executes_later() {
    let mut r = Replica::new(1);
    r.commit(on_key(9, "a"), ts(500, 2), deps(&[])).unwrap();
    r.commit(on_key(10, "a"), ts(100, 2), deps(&[9])).unwrap();
    assert!(matches!(r.apply(10), ApplyOutcome::Execute(_)));
    assert_eq!(r.phase_of(9), Some(Phase::Committed));
}

#[test]
fn recover_reports_state_and_takes_ballot() {
    let mut r = Replica::new(1);
    assert!(r.recover(10, 1).unwrap().is_none());
    r.pre_accept(on_key(9, "a"), ts(50, 2), 0).unwrap();
    r.pre_accept(on_key(10, "a"), ts(100, 2), 0).unwrap();
    let s = r.recover(10, 1).unwrap().unwrap();
    assert_eq!(s.phase, Phase::PreAccepted);
    assert_eq!(s.proposed_ts, ts(100, 2));
    assert_eq!(s.executes_at, None);
    assert_eq!(s.ballot, 1);
    assert!(s.deps.same_as(&deps(&[9])));
    assert_eq!(
        r.pre_accept(on_key(10, "a"), ts(100, 2), 0).unwrap_err(),
        AccordError::StaleBallot
    );
    assert_eq!(r.recover(10, 0).unwrap_err(), AccordError::StaleBallot);
}

#[test]
fn recover_of_committed_reports_outcome_and_keeps_ballot() {
    let mut r = Replica::new(1);
    r.commit(on_key(10, "a"), ts(100, 2), deps(&[3])).unwrap();
    let s = r.recover(10, 7).unwrap().unwrap();
    assert_eq!(s.phase, Phase::Committed);
    assert_eq!(s.executes_at, Some(ts(100, 2)));
    assert_eq!(s.ballot, 0);
    assert!(s.deps.same_as(&deps(&[3])));
}
