//! The coordinator of one transaction: it counts the replies of the
//! replicas and decides between the fast path, the slow path and giving up.
//! It sends nothing itself: each step returns what is to be sent.

use crate::deps::DepSet;
use crate::error::AccordError;
use crate::quorum::{NodeSet, Quorums};
use crate::replica::PreAcceptReply;
use crate::state::PreAcceptReplyView;
use crate::timestamp::{NodeId, Timestamp};
use crate::transaction::TransactionId;
use vstd::prelude::*;

verus! {

/// Where an attempt to commit a transaction stands.
#[derive(Clone, Copy, Debug, PartialEq, Eq, Structural)]
pub enum Stage {
    /// Proposals are out; replies are being counted.
    PreAccepting,
    /// The replicas did not agree; accept requests are out.
    Accepting,
    /// A quorum was reached. The outcome is decided.
    Committed,
    /// The attempt was given up before a quorum was reached.
    Abandoned,
}

/// What reaches a coordinator, as a value.
pub enum CoordinatorEvent {
    PreAcceptReply { from: NodeId, reply: PreAcceptReplyView },
    AcceptAck { from: NodeId },
    /// A replica turned a proposal or an accept request away.
    Rejected { error: AccordError },
    /// The round has waited long enough.
    Timeout,
}

/// What a coordinator is to do next, as a value.
pub enum ActionView {
    /// Keep waiting for replies.
    Wait,
    /// The message belongs to a round that is over, or was counted before.
    Ignore,
    SendAccept { executes_at: Timestamp, deps: Set<TransactionId> },
    SendCommit { executes_at: Timestamp, deps: Set<TransactionId> },
    Abandon(AccordError),
}

pub struct CoordinatorView {
    pub id: TransactionId,
    pub proposed_ts: Timestamp,
    pub ballot: u32,
    pub quorums: Quorums,
    pub stage: Stage,
    /// The replicas whose reply to the proposal was counted.
    pub voters: Set<NodeId>,
    /// Whether every reply counted agreed to the proposal with the same
    /// dependencies.
    pub unanimous: bool,
    /// The latest timestamp among the proposal and the replies counted.
    pub executes_at: Timestamp,
    /// The union of the dependencies of the replies counted.
    pub deps: Set<TransactionId>,
    /// The replicas whose accept acknowledgement was counted.
    pub ackers: Set<NodeId>,
}

impl CoordinatorView {
    /// A coordinator that has sent its proposals and counted no reply.
    pub open spec fn initial(
        id: TransactionId,
        proposed_ts: Timestamp,
        ballot: u32,
        quorums: Quorums,
    ) -> CoordinatorView {
        CoordinatorView {
            id,
            proposed_ts,
            ballot,
            quorums,
            stage: Stage::PreAccepting,
            voters: Set::empty(),
            unanimous: true,
            executes_at: proposed_ts,
            deps: Set::empty(),
            ackers: Set::empty(),
        }
    }

    /// The counts are of finite sets, a unanimous round is at the proposed
    /// timestamp, and a round that still runs has not reached the quorum
    /// that would end it.
    pub open spec fn wf(self) -> bool {
        &&& self.quorums.wf()
        &&& self.voters.finite()
        &&& self.ackers.finite()
        &&& self.proposed_ts.spec_le(self.executes_at)
        &&& self.unanimous ==> self.executes_at == self.proposed_ts
        &&& self.stage is PreAccepting ==> {
            &&& self.ackers.len() == 0
            &&& self.unanimous ==> self.voters.len() < self.quorums.fast
            &&& !self.unanimous ==> self.voters.len() < self.quorums.majority()
        }
        &&& self.stage is Accepting ==> self.ackers.len() < self.quorums.majority()
    }

    /// Whether a reply keeps the round unanimous: it agrees to the
    /// proposal, at the proposed timestamp, with the dependencies that the
    /// replies before it had.
    pub open spec fn keeps_unanimity(self, reply: PreAcceptReplyView) -> bool {
        &&& reply.agreed
        &&& reply.witnessed_ts == self.proposed_ts
        &&& self.voters.len() == 0 || reply.deps == self.deps
    }

    /// The coordinator with one more reply counted: the timestamp is the
    /// later of the two, the dependencies are merged.
    pub open spec fn with_vote(self, from: NodeId, reply: PreAcceptReplyView) -> CoordinatorView {
        CoordinatorView {
            voters: self.voters.insert(from),
            unanimous: self.unanimous && self.keeps_unanimity(reply),
            executes_at: self.executes_at.spec_max(reply.witnessed_ts),
            deps: self.deps.union(reply.deps),
            ..self
        }
    }

    /// The coordinator after an event.
    ///
    /// A reply to the proposal counts once per replica, while proposals are
    /// out. A fast quorum of unanimous replies commits at the proposed
    /// timestamp. A majority of replies that are not unanimous starts the
    /// accept round, at the latest timestamp replied and with the merged
    /// dependencies. A majority of acknowledgements commits what was sent
    /// for acceptance. A stale ballot reported by a replica ends a running
    /// attempt. A timeout starts the accept round where a majority has
    /// replied to the proposal, and ends the attempt otherwise. Nothing
    /// changes a coordinator that has committed or given up.
    pub open spec fn step(self, e: CoordinatorEvent) -> CoordinatorView {
        match e {
            CoordinatorEvent::PreAcceptReply { from, reply } => if !(self.stage is PreAccepting)
                || self.voters.contains(from) {
                self
            } else {
                let s = self.with_vote(from, reply);
                if s.unanimous && s.voters.len() >= s.quorums.fast {
                    CoordinatorView { stage: Stage::Committed, ..s }
                } else if !s.unanimous && s.voters.len() >= s.quorums.majority() {
                    CoordinatorView { stage: Stage::Accepting, ..s }
                } else {
                    s
                }
            },
            CoordinatorEvent::AcceptAck { from } => if !(self.stage is Accepting)
                || self.ackers.contains(from) {
                self
            } else {
                let s = CoordinatorView { ackers: self.ackers.insert(from), ..self };
                if s.ackers.len() >= s.quorums.majority() {
                    CoordinatorView { stage: Stage::Committed, ..s }
                } else {
                    s
                }
            },
            CoordinatorEvent::Rejected { error } => if self.is_running() && error is StaleBallot {
                CoordinatorView { stage: Stage::Abandoned, ..self }
            } else {
                self
            },
            CoordinatorEvent::Timeout => match self.stage {
                Stage::PreAccepting => if self.voters.len() >= self.quorums.majority() {
                    CoordinatorView { stage: Stage::Accepting, ..self }
                } else {
                    CoordinatorView { stage: Stage::Abandoned, ..self }
                },
                Stage::Accepting => CoordinatorView { stage: Stage::Abandoned, ..self },
                _ => self,
            },
        }
    }

    pub open spec fn is_running(self) -> bool {
        self.stage is PreAccepting || self.stage is Accepting
    }

    /// What the coordinator is to do after an event: what it sends when the
    /// event moves it to another stage, `Wait` when the event was counted
    /// and the round goes on, `Ignore` when the event changed nothing.
    pub open spec fn action(self, e: CoordinatorEvent) -> ActionView {
        let next = self.step(e);
        if next.stage == self.stage {
            if next == self {
                ActionView::Ignore
            } else {
                ActionView::Wait
            }
        } else {
            match next.stage {
                Stage::Accepting => ActionView::SendAccept {
                    executes_at: next.executes_at,
                    deps: next.deps,
                },
                Stage::Committed => ActionView::SendCommit {
                    executes_at: next.executes_at,
                    deps: next.deps,
                },
                Stage::Abandoned => ActionView::Abandon(
                    if e is Timeout {
                        AccordError::QuorumUnavailable
                    } else {
                        AccordError::StaleBallot
                    },
                ),
                Stage::PreAccepting => ActionView::Ignore,
            }
        }
    }

    /// The coordinator after a sequence of events, first to last.
    pub open spec fn run(self, events: Seq<CoordinatorEvent>) -> CoordinatorView
        decreases events.len(),
    {
        if events.len() == 0 {
            self
        } else {
            self.step(events[0]).run(events.skip(1))
        }
    }
}

/// What a coordinator is to do next.
#[derive(Debug)]
pub enum Action {
    Wait,
    Ignore,
    SendAccept { executes_at: Timestamp, deps: DepSet },
    SendCommit { executes_at: Timestamp, deps: DepSet },
    Abandon(AccordError),
}

impl View for Action {
    type V = ActionView;

    open spec fn view(&self) -> ActionView {
        match self {
            Action::Wait => ActionView::Wait,
            Action::Ignore => ActionView::Ignore,
            Action::SendAccept { executes_at, deps } => ActionView::SendAccept {
                executes_at: *executes_at,
                deps: deps@,
            },
            Action::SendCommit { executes_at, deps } => ActionView::SendCommit {
                executes_at: *executes_at,
                deps: deps@,
            },
            Action::Abandon(e) => ActionView::Abandon(*e),
        }
    }
}

/// The timestamp a coordinator proposes: its clock's reading, or the
/// latest timestamp it has seen on a conflicting key if that is later.
pub fn propose(now: Timestamp, highest_seen: Option<Timestamp>) -> (proposed: Timestamp)
    ensures
        proposed == (match highest_seen {
            Some(seen) => now.spec_max(seen),
            None => now,
        }),
        now.spec_le(proposed),
        highest_seen matches Some(seen) ==> seen.spec_le(proposed),
{
    match highest_seen {
        Some(seen) => Timestamp::max(now, seen),
        None => now,
    }
}

#[derive(Debug)]
pub struct Coordinator {
    pub id: TransactionId,
    pub proposed_ts: Timestamp,
    pub ballot: u32,
    pub quorums: Quorums,
    pub stage: Stage,
    pub voters: NodeSet,
    pub unanimous: bool,
    pub executes_at: Timestamp,
    pub deps: DepSet,
    pub ackers: NodeSet,
}

impl View for Coordinator {
    type V = CoordinatorView;

    open spec fn view(&self) -> CoordinatorView {
        CoordinatorView {
            id: self.id,
            proposed_ts: self.proposed_ts,
            ballot: self.ballot,
            quorums: self.quorums,
            stage: self.stage,
            voters: self.voters@,
            unanimous: self.unanimous,
            executes_at: self.executes_at,
            deps: self.deps@,
            ackers: self.ackers@,
        }
    }
}

impl Coordinator {
    pub open spec fn wf(self) -> bool {
        &&& self.voters.wf()
        &&& self.ackers.wf()
        &&& self@.wf()
    }

    /// Whether this is a coordinator that events can have led to: what to
    /// ask of a coordinator that was put together by hand before it is
    /// used.
    pub fn is_well_formed(&self) -> (r: bool)
        ensures
            r == self.wf(),
    {
        if !self.voters.is_well_formed() || !self.ackers.is_well_formed() || !self.quorums.is_valid() {
            return false;
        }
        let voters = self.voters.len();
        let ackers = self.ackers.len();
        if !self.proposed_ts.le(&self.executes_at) {
            return false;
        }
        if self.unanimous && !(self.executes_at == self.proposed_ts) {
            return false;
        }
        match self.stage {
            Stage::PreAccepting => {
                ackers == 0 && if self.unanimous {
                    !self.quorums.is_fast_quorum(voters)
                } else {
                    !self.quorums.is_majority(voters)
                }
            },
            Stage::Accepting => !self.quorums.is_majority(ackers),
            _ => true,
        }
    }

    /// The coordinator of an attempt whose proposals have just been sent.
    pub fn new(id: TransactionId, proposed_ts: Timestamp, ballot: u32, quorums: Quorums) -> (c:
        Coordinator)
        requires
            quorums.wf(),
        ensures
            c.wf(),
            c@ == CoordinatorView::initial(id, proposed_ts, ballot, quorums),
    {
        let c = Coordinator {
            id,
            proposed_ts,
            ballot,
            quorums,
            stage: Stage::PreAccepting,
            voters: NodeSet::new(),
            unanimous: true,
            executes_at: proposed_ts,
            deps: DepSet::new(),
            ackers: NodeSet::new(),
        };
        c
    }

    /// Counts the reply of replica `from` to the proposal.
    pub fn on_pre_accept_reply(&mut self, from: NodeId, reply: PreAcceptReply) -> (action: Action)
        requires
            old(self).wf(),
        ensures
            final(self).wf(),
            final(self)@ == old(self)@.step(
                CoordinatorEvent::PreAcceptReply { from, reply: reply@ },
            ),
            action@ == old(self)@.action(CoordinatorEvent::PreAcceptReply { from, reply: reply@ }),
    {
        proof {
            lemma_step_keeps_wf(self@, CoordinatorEvent::PreAcceptReply { from, reply: reply@ });
        }
        match self.stage {
            Stage::PreAccepting => {},
            _ => {
                return Action::Ignore;
            },
        }
        if self.voters.contains(from) {
            return Action::Ignore;
        }
        let first = self.voters.len() == 0;
        let keeps = reply.agreed && reply.witnessed_ts == self.proposed_ts && (first
            || reply.deps.same_as(&self.deps));
        self.voters.insert(from);
        self.unanimous = self.unanimous && keeps;
        self.executes_at = Timestamp::max(self.executes_at, reply.witnessed_ts);
        self.deps.union_with(&reply.deps);
        let n = self.voters.len();
        assert(old(self)@.voters.insert(from) != old(self)@.voters);
        if self.unanimous && self.quorums.is_fast_quorum(n) {
            self.stage = Stage::Committed;
            Action::SendCommit { executes_at: self.executes_at, deps: self.deps.duplicate() }
        } else if !self.unanimous && self.quorums.is_majority(n) {
            self.stage = Stage::Accepting;
            Action::SendAccept { executes_at: self.executes_at, deps: self.deps.duplicate() }
        } else {
            Action::Wait
        }
    }

    /// Counts the acknowledgement of replica `from` to the accept request.
    pub fn on_accept_ack(&mut self, from: NodeId) -> (action: Action)
        requires
            old(self).wf(),
        ensures
            final(self).wf(),
            final(self)@ == old(self)@.step(CoordinatorEvent::AcceptAck { from }),
            action@ == old(self)@.action(CoordinatorEvent::AcceptAck { from }),
    {
        proof {
            lemma_step_keeps_wf(self@, CoordinatorEvent::AcceptAck { from });
        }
        match self.stage {
            Stage::Accepting => {},
            _ => {
                return Action::Ignore;
            },
        }
        if self.ackers.contains(from) {
            return Action::Ignore;
        }
        self.ackers.insert(from);
        let n = self.ackers.len();
        assert(old(self)@.ackers.insert(from) != old(self)@.ackers);
        if self.quorums.is_majority(n) {
            self.stage = Stage::Committed;
            Action::SendCommit { executes_at: self.executes_at, deps: self.deps.duplicate() }
        } else {
            Action::Wait
        }
    }

    /// Takes the report that a replica turned a message of this attempt
    /// away. A stale ballot ends a running attempt; anything else is the
    /// loss of one reply and changes nothing.
    pub fn on_rejected(&mut self, error: AccordError) -> (action: Action)
        requires
            old(self).wf(),
        ensures
            final(self).wf(),
            final(self)@ == old(self)@.step(CoordinatorEvent::Rejected { error }),
            action@ == old(self)@.action(CoordinatorEvent::Rejected { error }),
    {
        let running = match self.stage {
            Stage::PreAccepting => true,
            Stage::Accepting => true,
            _ => false,
        };
        let stale = match error {
            AccordError::StaleBallot => true,
            _ => false,
        };
        if running && stale {
            self.stage = Stage::Abandoned;
            Action::Abandon(AccordError::StaleBallot)
        } else {
            Action::Ignore
        }
    }

    /// Ends the wait of the running round.
    pub fn on_timeout(&mut self) -> (action: Action)
        requires
            old(self).wf(),
        ensures
            final(self).wf(),
            final(self)@ == old(self)@.step(CoordinatorEvent::Timeout),
            action@ == old(self)@.action(CoordinatorEvent::Timeout),
    {
        match self.stage {
            Stage::PreAccepting => {
                let n = self.voters.len();
                if self.quorums.is_majority(n) {
                    self.stage = Stage::Accepting;
                    Action::SendAccept { executes_at: self.executes_at, deps: self.deps.duplicate() }
                } else {
                    self.stage = Stage::Abandoned;
                    Action::Abandon(AccordError::QuorumUnavailable)
                }
            },
            Stage::Accepting => {
                self.stage = Stage::Abandoned;
                Action::Abandon(AccordError::QuorumUnavailable)
            },
            _ => Action::Ignore,
        }
    }

    /// What the caller of a submission is told: nothing while the attempt
    /// runs, the timestamp once it has committed, and the given reason if
    /// it was abandoned. An error that comes after the commit does not turn
    /// the answer into a failure.
    pub fn submission_result(&self, reason: AccordError) -> (r: Option<Result<Timestamp, AccordError>>)
        ensures
            r == (match self@.stage {
                Stage::Committed => Some(Ok::<Timestamp, AccordError>(self@.executes_at)),
                Stage::Abandoned => Some(Err::<Timestamp, AccordError>(reason)),
                _ => None,
            }),
    {
        match self.stage {
            Stage::Committed => Some(Ok(self.executes_at)),
            Stage::Abandoned => Some(Err(reason)),
            _ => None,
        }
    }

    /// The outcome, once the coordinator has committed: what `submit`
    /// answers its caller.
    pub fn committed_at(&self) -> (ts: Option<Timestamp>)
        ensures
            ts == (if self@.stage is Committed {
                Some(self@.executes_at)
            } else {
                None
            }),
    {
        match self.stage {
            Stage::Committed => Some(self.executes_at),
            _ => None,
        }
    }
}

/// Every event leaves a well-formed coordinator well-formed, for the same
/// transaction, proposal, ballot and quorums.
pub proof fn lemma_step_keeps_wf(c: CoordinatorView, e: CoordinatorEvent)
    requires
        c.wf(),
    ensures
        c.step(e).wf(),
        c.step(e).id == c.id,
        c.step(e).proposed_ts == c.proposed_ts,
        c.step(e).ballot == c.ballot,
        c.step(e).quorums == c.quorums,
{
    match e {
        CoordinatorEvent::PreAcceptReply { from, reply } => {
            if c.stage is PreAccepting && !c.voters.contains(from) {
                let s = c.with_vote(from, reply);
                assert(s.voters.len() == c.voters.len() + 1);
            }
        },
        CoordinatorEvent::AcceptAck { from } => {},
        CoordinatorEvent::Rejected { error } => {},
        CoordinatorEvent::Timeout => {},
    }
}

/// Once a quorum is reached nothing changes the coordinator: the outcome
/// stands, and replies, rejections and timeouts that come late are
/// ignored. The same holds of an attempt that was given up.
pub proof fn lemma_concluded_round_ignores_events(c: CoordinatorView, e: CoordinatorEvent)
    requires
        c.stage is Committed || c.stage is Abandoned,
    ensures
        c.step(e) == c,
        c.action(e) == ActionView::Ignore,
{
}

pub proof fn lemma_concluded_round_is_final(c: CoordinatorView, events: Seq<CoordinatorEvent>)
    requires
        c.stage is Committed || c.stage is Abandoned,
    ensures
        c.run(events) == c,
    decreases events.len(),
{
    if events.len() > 0 {
        lemma_concluded_round_ignores_events(c, events[0]);
        lemma_concluded_round_is_final(c, events.skip(1));
    }
}

/// A commit is sent only on a quorum: from the proposals, on a fast quorum
/// of unanimous replies, and then at the proposed timestamp; from the
/// accept round, on a majority of acknowledgements, and then for exactly
/// what was sent for acceptance.
pub proof fn lemma_commit_needs_quorum(c: CoordinatorView, e: CoordinatorEvent)
    requires
        c.wf(),
        c.action(e) is SendCommit,
    ensures
        c.step(e).stage is Committed,
        c.action(e) == (ActionView::SendCommit {
            executes_at: c.step(e).executes_at,
            deps: c.step(e).deps,
        }),
        c.stage is PreAccepting ==> {
            &&& e is PreAcceptReply
            &&& c.step(e).unanimous
            &&& c.step(e).voters.len() >= c.quorums.fast
            &&& c.step(e).executes_at == c.proposed_ts
        },
        c.stage is Accepting ==> {
            &&& e is AcceptAck
            &&& c.step(e).ackers.len() >= c.quorums.majority()
            &&& c.step(e).executes_at == c.executes_at
            &&& c.step(e).deps == c.deps
        },
        c.stage is PreAccepting || c.stage is Accepting,
{
    lemma_step_keeps_wf(c, e);
}

/// An accept round starts only on a majority of replies, and what it asks
/// to accept covers every reply counted so far: its timestamp is not
/// earlier than the proposal, and this reply's timestamp and dependencies
/// are within it.
pub proof fn lemma_vote_is_covered(c: CoordinatorView, from: NodeId, reply: PreAcceptReplyView)
    requires
        c.wf(),
        c.stage is PreAccepting,
        !c.voters.contains(from),
    ensures
        ({
            let s = c.step(CoordinatorEvent::PreAcceptReply { from, reply });
            &&& s.voters == c.voters.insert(from)
            &&& reply.witnessed_ts.spec_le(s.executes_at)
            &&& c.executes_at.spec_le(s.executes_at)
            &&& reply.deps.subset_of(s.deps)
            &&& c.deps.subset_of(s.deps)
            &&& s.stage is Accepting ==> s.voters.len() >= c.quorums.majority()
        }),
{
}

/// Once every replica of the group has answered the proposal, the
/// coordinator waits no longer: it has committed on the fast path or
/// started the accept round. And once a majority has acknowledged the
/// accept request, it has committed.
pub proof fn lemma_enough_answers_conclude_the_round(c: CoordinatorView, e: CoordinatorEvent)
    requires
        c.wf(),
    ensures
        c.stage is PreAccepting && e is PreAcceptReply && c.step(e).voters.len()
            >= c.quorums.replicas ==> c.step(e).stage is Committed || c.step(e).stage is Accepting,
        c.stage is Accepting && e is AcceptAck && c.step(e).ackers.len() >= c.quorums.majority()
            ==> c.step(e).stage is Committed,
{
    lemma_step_keeps_wf(c, e);
}

/// The attempt fails for want of a quorum only on a timeout, and only
/// where fewer than a majority had answered the running round. With a
/// majority of replies to the proposal a timeout starts the accept round
/// instead.
pub proof fn lemma_quorum_unavailable_means_no_majority(c: CoordinatorView, e: CoordinatorEvent)
    requires
        c.wf(),
    ensures
        c.action(e) == ActionView::Abandon(AccordError::QuorumUnavailable) ==> {
            &&& e is Timeout
            &&& c.stage is PreAccepting ==> c.voters.len() < c.quorums.majority()
            &&& c.stage is Accepting ==> c.ackers.len() < c.quorums.majority()
        },
        e is Timeout && c.stage is PreAccepting && c.voters.len() >= c.quorums.majority()
            ==> c.action(e) is SendAccept,
{
}

} // verus!
