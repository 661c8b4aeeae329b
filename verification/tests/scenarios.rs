use accord::command::Phase;
use accord::coordinator::{propose, Action, Coordinator};
use accord::deps::DepSet;
use accord::error::AccordError;
use accord::keys::{Key, KeyRange, KeySet};
use accord::quorum::Quorums;
use accord::recovery::{decide_recovery, next_ballot, RecoveryDecision};
use accord::replica::{ApplyOutcome, CommandSummary, Replica};
use accord::timestamp::{Clock, Timestamp};
use accord::transaction::Transaction;

fn key(s: &str) -> Key {
    Key::new(s.as_bytes().to_vec())
}

fn cluster() -> Vec<Replica> {
    vec![Replica::new(1), Replica::new(2), Replica::new(3)]
}

/// Sends the proposal to every replica and feeds the replies to the
/// coordinator, in replica order, until it acts.
fn fan_out(replicas: &mut Vec<Replica>, c: &mut Coordinator, tx: &Transaction) -> Action {
    for r in replicas.iter_mut() {
        let reply = r.pre_accept(tx.clone(), c.proposed_ts, c.ballot).unwrap();
        match c.on_pre_accept_reply(r.node_id, reply) {
            Action::Wait => {}
            action => return action,
        }
    }
    c.on_timeout()
}

fn commit_everywhere(replicas: &mut Vec<Replica>, tx: &Transaction, at: Timestamp, deps: &DepSet) {
    for r in replicas.iter_mut() {
        assert_eq!(r.commit(tx.clone(), at, deps.duplicate()), Ok(()));
    }
}

#[test]
fn non_conflicting_transactions_commit_on_the_fast_path() {
    let mut replicas = cluster();
    let quorums = Quorums::new(3, 3).unwrap();
    let first = Transaction::new(101, KeySet::from_parts(vec![key("alpha")], vec![]), vec![1]);
    let second = Transaction::new(102, KeySet::from_parts(vec![key("beta")], vec![]), vec![2]);
    let mut first_clock = Clock::new(1);
    let mut second_clock = Clock::new(2);
    let first_at = propose(first_clock.now(1000).unwrap(), replicas[0].latest_conflicting(101, &first.keys));
    let second_at = propose(second_clock.now(1000).unwrap(), replicas[1].latest_conflicting(102, &second.keys));
    let mut first_coordinator = Coordinator::new(101, first_at, 0, quorums);
    let mut second_coordinator = Coordinator::new(102, second_at, 0, quorums);

    // The two fan-outs interleave: replica by replica, first one then the other.
    let mut first_action = Action::Wait;
    let mut second_action = Action::Wait;
    for r in replicas.iter_mut() {
        second_action = second_coordinator.on_pre_accept_reply(r.node_id, r.pre_accept(second.clone(), second_at, 0).unwrap());
        first_action = first_coordinator.on_pre_accept_reply(r.node_id, r.pre_accept(first.clone(), first_at, 0).unwrap());
    }
    match first_action {
        Action::SendCommit { executes_at, deps } => {
            assert_eq!(executes_at, first_at);
            assert!(deps.is_empty());
        }
        other => panic!("expected a fast commit, got {:?}", other),
    }
    match second_action {
        Action::SendCommit { executes_at, deps } => {
            assert_eq!(executes_at, second_at);
            assert!(deps.is_empty());
        }
        other => panic!("expected a fast commit, got {:?}", other),
    }
    assert_eq!(first_coordinator.committed_at(), Some(first_at));
    assert_eq!(second_coordinator.committed_at(), Some(second_at));
    commit_everywhere(&mut replicas, &first, first_at, &DepSet::new());
    commit_everywhere(&mut replicas, &second, second_at, &DepSet::new());
    for r in replicas.iter_mut() {
        assert_eq!(r.phase_of(101), Some(Phase::Committed));
        assert_eq!(r.phase_of(102), Some(Phase::Committed));
        assert!(matches!(r.apply(102), ApplyOutcome::Execute(_)));
        assert!(matches!(r.apply(101), ApplyOutcome::Execute(_)));
    }
}

#[test]
fn overlapping_ranges_order_the_later_after_the_earlier() {
    let mut replicas = cluster();
    let quorums = Quorums::new(3, 3).unwrap();
    let early = Transaction::new(
        1,
        KeySet::from_parts(vec![], vec![KeyRange::new(key("a"), key("m"))]),
        vec![1],
    );
    let late = Transaction::new(
        2,
        KeySet::from_parts(vec![], vec![KeyRange::new(key("k"), key("z"))]),
        vec![2],
    );
    assert!(early.conflicts_with(&late));
    let p_early = Timestamp::new(1000, 0, 1);
    let p_late = Timestamp::new(1000, 0, 2);
    assert!(p_early.lt(&p_late));

    let mut c_early = Coordinator::new(1, p_early, 0, quorums);
    let mut c_late = Coordinator::new(2, p_late, 0, quorums);
    let a_early = fan_out(&mut replicas, &mut c_early, &early);
    let a_late = fan_out(&mut replicas, &mut c_late, &late);

    let early_deps = match a_early {
        Action::SendCommit { executes_at, deps } => {
            assert_eq!(executes_at, p_early);
            deps
        }
        other => panic!("expected a commit, got {:?}", other),
    };
    let late_deps = match a_late {
        Action::SendCommit { executes_at, deps } => {
            assert_eq!(executes_at, p_late);
            deps
        }
        other => panic!("expected a commit, got {:?}", other),
    };
    assert!(late_deps.contains(1), "the later transaction depends on the earlier");
    assert!(!early_deps.contains(2), "the earlier transaction does not depend on the later");

    // The later transaction commits first at replica 0; it may not apply yet.
    let r = &mut replicas[0];
    assert_eq!(r.commit(late.clone(), p_late, late_deps.duplicate()), Ok(()));
    assert!(matches!(r.apply(2), ApplyOutcome::WaitingOn(1)));
    assert_eq!(r.phase_of(2), Some(Phase::Committed));
    // Commit of the earlier is needed, and since it executes first, so is its apply.
    assert_eq!(r.commit(early.clone(), p_early, early_deps.duplicate()), Ok(()));
    assert!(matches!(r.apply(2), ApplyOutcome::WaitingOn(1)));
    match r.apply(1) {
        ApplyOutcome::Execute(payload) => assert_eq!(payload, vec![1u8]),
        other => panic!("expected the earlier payload, got {:?}", other),
    }
    match r.apply(2) {
        ApplyOutcome::Execute(payload) => assert_eq!(payload, vec![2u8]),
        other => panic!("expected the later payload, got {:?}", other),
    }
    assert_eq!(*r.log.get_latest_applied_ts(), p_late);
}

#[test]
fn overlapping_ranges_proposed_out_of_order_still_get_one_order() {
    // The replicas see the later proposal first; the earlier one is then
    // pushed past it, takes the slow path, and ends up after it everywhere.
    let mut replicas = cluster();
    let quorums = Quorums::new(3, 3).unwrap();
    let x = Transaction::new(
        1,
        KeySet::from_parts(vec![], vec![KeyRange::new(key("a"), key("m"))]),
        vec![1],
    );
    let y = Transaction::new(
        2,
        KeySet::from_parts(vec![], vec![KeyRange::new(key("k"), key("z"))]),
        vec![2],
    );
    let p_x = Timestamp::new(1000, 0, 1);
    let p_y = Timestamp::new(2000, 0, 2);
    let mut c_y = Coordinator::new(2, p_y, 0, quorums);
    let a_y = fan_out(&mut replicas, &mut c_y, &y);
    assert!(matches!(a_y, Action::SendCommit { .. }));
    let mut c_x = Coordinator::new(1, p_x, 0, quorums);
    let (at_x, deps_x) = match fan_out(&mut replicas, &mut c_x, &x) {
        Action::SendAccept { executes_at, deps } => (executes_at, deps),
        other => panic!("expected the slow path, got {:?}", other),
    };
    assert!(p_y.lt(&at_x));
    assert!(deps_x.contains(2));
    let mut committed = false;
    for r in replicas.iter_mut() {
        assert_eq!(r.accept(x.clone(), at_x, deps_x.duplicate(), 0), Ok(()));
        if let Action::SendCommit { executes_at, deps } = c_x.on_accept_ack(r.node_id) {
            assert_eq!(executes_at, at_x);
            assert!(deps.same_as(&deps_x));
            committed = true;
        }
    }
    assert!(committed);
}

#[test]
fn recovery_completes_a_crashed_coordinators_transaction() {
    let mut replicas = cluster();
    let quorums = Quorums::new(3, 3).unwrap();
    let other = Transaction::new(5, KeySet::from_parts(vec![key("k")], vec![]), vec![5]);
    let tx = Transaction::new(6, KeySet::from_parts(vec![key("k")], vec![]), vec![6]);
    let p_other = Timestamp::new(900, 0, 3);
    let p = Timestamp::new(1000, 0, 1);
    let mut c_other = Coordinator::new(5, p_other, 0, quorums);
    let a = fan_out(&mut replicas, &mut c_other, &other);
    assert!(matches!(a, Action::SendCommit { .. }));
    commit_everywhere(&mut replicas, &other, p_other, &DepSet::new());

    // The coordinator of `tx` fans its proposal out and is gone before any commit.
    let mut crashed = Coordinator::new(6, p, 0, quorums);
    let would_have = fan_out(&mut replicas, &mut crashed, &tx);
    let (expected_at, expected_deps) = match would_have {
        Action::SendCommit { executes_at, deps } => (executes_at, deps),
        other => panic!("expected a commit, got {:?}", other),
    };
    for r in replicas.iter() {
        assert_eq!(r.phase_of(6), Some(Phase::PreAccepted));
    }

    // Replica 2 takes over with the next ballot and asks a majority.
    let ballot = next_ballot(0).unwrap();
    let mut replies: Vec<Option<CommandSummary>> = Vec::new();
    for r in replicas.iter_mut().skip(1) {
        replies.push(r.recover(6, ballot).unwrap());
    }
    let proposed = match decide_recovery(&replies, &quorums).unwrap() {
        RecoveryDecision::RetryPreAccept { proposed_ts } => proposed_ts,
        other => panic!("expected the proposal again, got {:?}", other),
    };
    assert_eq!(proposed, p);

    // A late message of the old coordinator is fenced where the ballot was taken.
    assert_eq!(
        replicas[1].accept(tx.clone(), p, DepSet::new(), 0),
        Err(AccordError::StaleBallot)
    );

    let mut recovering = Coordinator::new(6, proposed, ballot, quorums);
    match fan_out(&mut replicas, &mut recovering, &tx) {
        Action::SendCommit { executes_at, deps } => {
            assert_eq!(executes_at, expected_at);
            assert!(deps.same_as(&expected_deps));
            assert!(deps.same_as(&DepSet::from_vec(vec![5])));
            commit_everywhere(&mut replicas, &tx, executes_at, &deps);
        }
        other => panic!("expected a commit, got {:?}", other),
    }
    for r in replicas.iter_mut() {
        assert_eq!(r.phase_of(6), Some(Phase::Committed));
        assert!(matches!(r.apply(6), ApplyOutcome::WaitingOn(5)));
        assert!(matches!(r.apply(5), ApplyOutcome::Execute(_)));
        assert!(matches!(r.apply(6), ApplyOutcome::Execute(_)));
    }
}

#[test]
fn recovery_adopts_a_commit_that_one_replica_has_seen() {
    let mut replicas = cluster();
    let quorums = Quorums::simple(3).unwrap();
    let tx = Transaction::new(6, KeySet::from_parts(vec![key("k")], vec![]), vec![6]);
    let p = Timestamp::new(1000, 0, 1);
    for r in replicas.iter_mut() {
        r.pre_accept(tx.clone(), p, 0).unwrap();
    }
    // The commit reached replica 3 only, then the coordinator was gone.
    replicas[2].commit(tx.clone(), p, DepSet::new()).unwrap();
    let ballot = next_ballot(0).unwrap();
    let replies = vec![
        replicas[1].recover(6, ballot).unwrap(),
        replicas[2].recover(6, ballot).unwrap(),
    ];
    match decide_recovery(&replies, &quorums).unwrap() {
        RecoveryDecision::PropagateCommit { executes_at, deps } => {
            assert_eq!(executes_at, p);
            assert!(deps.is_empty());
            commit_everywhere(&mut replicas, &tx, executes_at, &deps);
        }
        other => panic!("expected the commit to be propagated, got {:?}", other),
    }
    for r in replicas.iter() {
        assert_eq!(r.phase_of(6), Some(Phase::Committed));
    }
}

#[test]
fn second_outcome_for_a_committed_transaction_is_reported_and_changes_nothing() {
    // An accept round is acknowledged by replicas 1 and 2, the commit reaches
    // replica 1 only, and the coordinator is gone. Recovery then hears from
    // replicas 2 and 3, of which one alone holds the accepted state: it
    // starts over and arrives at a later timestamp. Replica 1 reports the
    // second outcome loudly and keeps the first.
    let mut replicas = cluster();
    let quorums = Quorums::new(3, 3).unwrap();
    let other = Transaction::new(5, KeySet::from_parts(vec![key("k")], vec![]), vec![5]);
    let tx = Transaction::new(6, KeySet::from_parts(vec![key("k")], vec![]), vec![6]);
    replicas[0].pre_accept(other.clone(), Timestamp::new(2000, 0, 3), 0).unwrap();

    let proposed = Timestamp::new(1000, 0, 1);
    let mut gone = Coordinator::new(6, proposed, 0, quorums);
    let first_reply = replicas[0].pre_accept(tx.clone(), proposed, 0).unwrap();
    assert!(!first_reply.agreed);
    assert!(matches!(gone.on_pre_accept_reply(1, first_reply), Action::Wait));
    let second_reply = replicas[1].pre_accept(tx.clone(), proposed, 0).unwrap();
    let (accepted_at, accepted_deps) = match gone.on_pre_accept_reply(2, second_reply) {
        Action::SendAccept { executes_at, deps } => (executes_at, deps),
        other => panic!("expected the slow path, got {:?}", other),
    };
    // Replica 1 is not the greater node, so its successor of (2000, 0, 3)
    // takes the next counter.
    assert_eq!(accepted_at, Timestamp::new(2000, 1, 1));
    assert!(Timestamp::new(2000, 0, 3).lt(&accepted_at));
    assert_eq!(replicas[0].accept(tx.clone(), accepted_at, accepted_deps.duplicate(), 0), Ok(()));
    assert_eq!(replicas[1].accept(tx.clone(), accepted_at, accepted_deps.duplicate(), 0), Ok(()));
    assert!(matches!(gone.on_accept_ack(1), Action::Wait));
    assert!(matches!(gone.on_accept_ack(2), Action::SendCommit { .. }));
    assert_eq!(replicas[0].commit(tx.clone(), accepted_at, accepted_deps.duplicate()), Ok(()));

    let ballot = next_ballot(0).unwrap();
    let replies = vec![
        replicas[1].recover(6, ballot).unwrap(),
        replicas[2].recover(6, ballot).unwrap(),
    ];
    assert!(matches!(decide_recovery(&replies, &quorums).unwrap(), RecoveryDecision::Restart));

    let again = Timestamp::new(3000, 0, 3);
    let mut recovering = Coordinator::new(6, again, ballot, quorums);
    let reply = replicas[1].pre_accept(tx.clone(), again, ballot).unwrap();
    assert_eq!(reply.witnessed_ts, accepted_at);
    assert!(matches!(recovering.on_pre_accept_reply(2, reply), Action::Wait));
    let reply = replicas[2].pre_accept(tx.clone(), again, ballot).unwrap();
    let (second_at, second_deps) = match recovering.on_pre_accept_reply(3, reply) {
        Action::SendAccept { executes_at, deps } => (executes_at, deps),
        other => panic!("expected the slow path, got {:?}", other),
    };
    assert_eq!(second_at, again);
    assert_eq!(replicas[1].accept(tx.clone(), second_at, second_deps.duplicate(), ballot), Ok(()));
    assert_eq!(replicas[2].accept(tx.clone(), second_at, second_deps.duplicate(), ballot), Ok(()));
    recovering.on_accept_ack(2);
    assert!(matches!(recovering.on_accept_ack(3), Action::SendCommit { .. }));

    assert_eq!(
        replicas[0].commit(tx.clone(), second_at, second_deps.duplicate()),
        Err(AccordError::ConflictingFinalization)
    );
    let held = replicas[0].index_of(6).unwrap();
    assert_eq!(replicas[0].commands[held].executes_at, Some(accepted_at));
    assert!(replicas[0].commands[held].deps.same_as(&accepted_deps));
    assert!(replicas[0].is_well_formed());
}
