use accord::coordinator::{propose, Action, Coordinator, Stage};
use accord::deps::DepSet;
use accord::error::AccordError;
use accord::quorum::{NodeSet, Quorums};
use accord::replica::PreAcceptReply;
use accord::timestamp::Timestamp;

fn ts(p: u64) -> Timestamp {
    Timestamp::new(p, 0, 1)
}

fn deps(ids: &[u64]) -> DepSet {
    DepSet::from_vec(ids.to_vec())
}

fn agree(at: Timestamp, d: &[u64]) -> PreAcceptReply {
    PreAcceptReply { witnessed_ts: at, deps: deps(d), agreed: true }
}

fn disagree(at: Timestamp, d: &[u64]) -> PreAcceptReply {
    PreAcceptReply { witnessed_ts: at, deps: deps(d), agreed: false }
}

#[test]
fn quorums_need_a_majority_for_the_fast_path() {
    assert_eq!(Quorums::new(0, 0), None);
    assert_eq!(Quorums::new(3, 1), None);
    assert_eq!(Quorums::new(3, 4), None);
    assert_eq!(Quorums::new(3, 2), Some(Quorums { replicas: 3, fast: 2 }));
    assert_eq!(Quorums::new(3, 3), Some(Quorums { replicas: 3, fast: 3 }));
    assert_eq!(Quorums::new(4, 2), None);
    assert_eq!(Quorums::new(4, 3), Some(Quorums { replicas: 4, fast: 3 }));
    assert_eq!(Quorums::simple(0), None);
    assert_eq!(Quorums::simple(1), Some(Quorums { replicas: 1, fast: 1 }));
    assert_eq!(Quorums::simple(5), Some(Quorums { replicas: 5, fast: 3 }));
}

#[test]
fn majority_is_more_than_half() {
    let sizes = [(1usize, 1usize), (2, 2), (3, 2), (4, 3), (5, 3), (6, 4), (7, 4)];
    for (n, m) in sizes.iter() {
        let q = Quorums::simple(*n).unwrap();
        assert_eq!(q.majority_size(), *m);
        assert!(q.is_majority(*m));
        assert!(!q.is_majority(*m - 1));
    }
    let q = Quorums::new(5, 4).unwrap();
    assert!(q.is_fast_quorum(4) && q.is_fast_quorum(5) && !q.is_fast_quorum(3));
}

#[test]
fn node_set_counts_each_node_once() {
    let mut s = NodeSet::new();
    assert_eq!(s.len(), 0);
    assert!(s.insert(4));
    assert!(!s.insert(4));
    assert!(s.insert(5));
    assert_eq!(s.len(), 2);
    assert!(s.contains(4) && s.contains(5) && !s.contains(6));
}

#[test]
fn proposal_is_the_later_of_clock_and_highest_seen() {
    assert_eq!(propose(ts(10), None), ts(10));
    assert_eq!(propose(ts(10), Some(ts(5))), ts(10));
    assert_eq!(propose(ts(10), Some(ts(15))), ts(15));
}

#[test]
fn fast_path_commits_at_the_proposal() {
    let mut c = Coordinator::new(1, ts(10), 0, Quorums::new(3, 3).unwrap());
    assert!(matches!(c.on_pre_accept_reply(1, agree(ts(10), &[7])), Action::Wait));
    assert!(matches!(c.on_pre_accept_reply(2, agree(ts(10), &[7])), Action::Wait));
    match c.on_pre_accept_reply(3, agree(ts(10), &[7])) {
        Action::SendCommit { executes_at, deps: d } => {
            assert_eq!(executes_at, ts(10));
            assert!(d.same_as(&deps(&[7])));
        }
        other => panic!("expected a commit, got {:?}", other),
    }
    assert_eq!(c.stage, Stage::Committed);
    assert_eq!(c.committed_at(), Some(ts(10)));
}

#[test]
fn fast_quorum_may_be_less_than_all() {
    let mut c = Coordinator::new(1, ts(10), 0, Quorums::new(3, 2).unwrap());
    assert!(matches!(c.on_pre_accept_reply(1, agree(ts(10), &[])), Action::Wait));
    assert!(matches!(
        c.on_pre_accept_reply(2, agree(ts(10), &[])),
        Action::SendCommit { .. }
    ));
}

#[test]
fn duplicate_replies_are_counted_once() {
    let mut c = Coordinator::new(1, ts(10), 0, Quorums::new(3, 2).unwrap());
    assert!(matches!(c.on_pre_accept_reply(1, agree(ts(10), &[])), Action::Wait));
    assert!(matches!(c.on_pre_accept_reply(1, agree(ts(10), &[])), Action::Ignore));
    assert!(matches!(c.on_pre_accept_reply(1, agree(ts(10), &[])), Action::Ignore));
    assert_eq!(c.stage, Stage::PreAccepting);
    assert_eq!(c.committed_at(), None);
}

#[test]
fn disagreement_on_timestamp_takes_the_slow_path_with_the_max() {
    let mut c = Coordinator::new(1, ts(10), 0, Quorums::new(3, 2).unwrap());
    assert!(matches!(c.on_pre_accept_reply(1, disagree(ts(30), &[4])), Action::Wait));
    match c.on_pre_accept_reply(2, disagree(ts(20), &[5])) {
        Action::SendAccept { executes_at, deps: d } => {
            assert_eq!(executes_at, ts(30));
            assert!(d.same_as(&deps(&[4, 5])));
        }
        other => panic!("expected an accept round, got {:?}", other),
    }
    assert_eq!(c.stage, Stage::Accepting);
}

#[test]
fn disagreement_on_deps_takes_the_slow_path_with_the_union() {
    let mut c = Coordinator::new(1, ts(10), 0, Quorums::new(3, 2).unwrap());
    assert!(matches!(c.on_pre_accept_reply(1, agree(ts(10), &[4])), Action::Wait));
    match c.on_pre_accept_reply(2, agree(ts(10), &[4, 5])) {
        Action::SendAccept { executes_at, deps: d } => {
            assert_eq!(executes_at, ts(10));
            assert!(d.same_as(&deps(&[4, 5])));
        }
        other => panic!("expected an accept round, got {:?}", other),
    }
}

#[test]
fn agreed_flag_with_another_timestamp_does_not_count_as_agreement() {
    let mut c = Coordinator::new(1, ts(10), 0, Quorums::new(3, 2).unwrap());
    assert!(matches!(c.on_pre_accept_reply(1, agree(ts(11), &[])), Action::Wait));
    assert!(matches!(
        c.on_pre_accept_reply(2, agree(ts(10), &[])),
        Action::SendAccept { .. }
    ));
}

#[test]
fn accept_round_commits_on_majority_of_acks() {
    let mut c = Coordinator::new(1, ts(10), 0, Quorums::new(5, 4).unwrap());
    c.on_pre_accept_reply(1, disagree(ts(30), &[4]));
    c.on_pre_accept_reply(2, agree(ts(10), &[]));
    assert!(matches!(
        c.on_pre_accept_reply(3, agree(ts(10), &[])),
        Action::SendAccept { .. }
    ));
    assert!(matches!(c.on_accept_ack(1), Action::Wait));
    assert!(matches!(c.on_accept_ack(1), Action::Ignore));
    assert!(matches!(c.on_accept_ack(2), Action::Wait));
    match c.on_accept_ack(3) {
        Action::SendCommit { executes_at, deps: d } => {
            assert_eq!(executes_at, ts(30));
            assert!(d.same_as(&deps(&[4])));
        }
        other => panic!("expected a commit, got {:?}", other),
    }
    assert_eq!(c.committed_at(), Some(ts(30)));
}

#[test]
fn late_messages_after_commit_are_ignored() {
    let mut c = Coordinator::new(1, ts(10), 0, Quorums::new(3, 2).unwrap());
    c.on_pre_accept_reply(1, agree(ts(10), &[]));
    c.on_pre_accept_reply(2, agree(ts(10), &[]));
    assert_eq!(c.stage, Stage::Committed);
    assert!(matches!(c.on_pre_accept_reply(3, disagree(ts(99), &[8])), Action::Ignore));
    assert!(matches!(c.on_accept_ack(3), Action::Ignore));
    assert!(matches!(c.on_timeout(), Action::Ignore));
    assert!(matches!(c.on_rejected(AccordError::StaleBallot), Action::Ignore));
    assert_eq!(c.stage, Stage::Committed);
    assert_eq!(c.committed_at(), Some(ts(10)));
    assert!(c.deps.is_empty());
}

#[test]
fn accept_ack_before_accept_round_is_ignored() {
    let mut c = Coordinator::new(1, ts(10), 0, Quorums::new(3, 2).unwrap());
    assert!(matches!(c.on_accept_ack(1), Action::Ignore));
    assert_eq!(c.stage, Stage::PreAccepting);
}

#[test]
fn stale_ballot_abandons_the_attempt() {
    let mut c = Coordinator::new(1, ts(10), 0, Quorums::new(3, 2).unwrap());
    c.on_pre_accept_reply(1, agree(ts(10), &[]));
    assert!(matches!(
        c.on_rejected(AccordError::StaleBallot),
        Action::Abandon(AccordError::StaleBallot)
    ));
    assert_eq!(c.stage, Stage::Abandoned);
    assert!(matches!(c.on_pre_accept_reply(2, agree(ts(10), &[])), Action::Ignore));
    assert_eq!(c.committed_at(), None);
}

#[test]
fn other_rejections_lose_one_reply_only() {
    let mut c = Coordinator::new(1, ts(10), 0, Quorums::new(3, 2).unwrap());
    assert!(matches!(c.on_rejected(AccordError::TimestampExhausted), Action::Ignore));
    assert_eq!(c.stage, Stage::PreAccepting);
}

#[test]
fn timeout_without_majority_is_quorum_unavailable() {
    let mut c = Coordinator::new(1, ts(10), 0, Quorums::new(3, 3).unwrap());
    c.on_pre_accept_reply(1, agree(ts(10), &[]));
    assert!(matches!(
        c.on_timeout(),
        Action::Abandon(AccordError::QuorumUnavailable)
    ));
    assert_eq!(c.stage, Stage::Abandoned);
}

#[test]
fn timeout_with_majority_but_no_fast_quorum_goes_slow() {
    let mut c = Coordinator::new(1, ts(10), 0, Quorums::new(3, 3).unwrap());
    c.on_pre_accept_reply(1, agree(ts(10), &[2]));
    c.on_pre_accept_reply(2, agree(ts(10), &[2]));
    match c.on_timeout() {
        Action::SendAccept { executes_at, deps: d } => {
            assert_eq!(executes_at, ts(10));
            assert!(d.same_as(&deps(&[2])));
        }
        other => panic!("expected an accept round, got {:?}", other),
    }
}

#[test]
fn timeout_in_accept_round_is_quorum_unavailable() {
    let mut c = Coordinator::new(1, ts(10), 0, Quorums::new(3, 2).unwrap());
    c.on_pre_accept_reply(1, disagree(ts(30), &[]));
    c.on_pre_accept_reply(2, disagree(ts(30), &[]));
    assert_eq!(c.stage, Stage::Accepting);
    c.on_accept_ack(1);
    assert!(matches!(
        c.on_timeout(),
        Action::Abandon(AccordError::QuorumUnavailable)
    ));
}

#[test]
fn single_replica_commits_on_its_own_reply() {
    let mut c = Coordinator::new(1, ts(10), 0, Quorums::simple(1).unwrap());
    assert!(matches!(
        c.on_pre_accept_reply(1, agree(ts(10), &[])),
        Action::SendCommit { .. }
    ));
}
