//! A replica as a value: the commands it holds, keyed by transaction, and
//! its two high-water marks. The functions here say what each message does
//! to that value; the executable replica is proved against them.

use crate::command::{CommandEvent, CommandView, Phase};
use crate::error::AccordError;
use crate::timestamp::{NodeId, Timestamp};
use crate::transaction::{TransactionId, TransactionView};
use vstd::prelude::*;

verus! {

pub struct ReplicaView {
    pub node_id: NodeId,
    pub latest_committed: Timestamp,
    pub latest_applied: Timestamp,
    pub commands: Map<TransactionId, CommandView>,
}

/// What a replica answers to a proposal.
pub struct PreAcceptReplyView {
    /// The timestamp the replica holds for the transaction: the proposal
    /// where it agrees, a later one where it does not.
    pub witnessed_ts: Timestamp,
    /// The other transactions that the replica has the new one follow.
    pub deps: Set<TransactionId>,
    /// Whether the replica takes the proposal as final.
    pub agreed: bool,
}

/// The record made for a transaction on first contact.
pub open spec fn fresh_command(
    tx: TransactionView,
    proposed_ts: Timestamp,
    deps: Set<TransactionId>,
    ballot: u32,
) -> CommandView {
    CommandView {
        id: tx.id,
        keys: tx.keys,
        payload: tx.payload,
        phase: Phase::PreAccepted,
        proposed_ts,
        executes_at: None,
        deps,
        ballot,
    }
}

impl ReplicaView {
    pub open spec fn holds(self, id: TransactionId) -> bool {
        self.commands.contains_key(id)
    }

    /// The other transactions held whose keys intersect `keys`.
    pub open spec fn conflicting(self, id: TransactionId, keys: Set<Seq<u8>>) -> Set<
        TransactionId,
    > {
        Set::new(
            |o: TransactionId| o != id && self.commands.contains_key(o) && !self.commands[o].keys.disjoint(keys),
        )
    }

    /// Whether `m` is the latest timestamp among the conflicting
    /// transactions: `None` where nothing conflicts.
    pub open spec fn is_latest_conflicting(
        self,
        id: TransactionId,
        keys: Set<Seq<u8>>,
        m: Option<Timestamp>,
    ) -> bool {
        match m {
            None => forall|o: TransactionId| !self.conflicting(id, keys).contains(o),
            Some(t) => {
                &&& exists|o: TransactionId|
                    self.conflicting(id, keys).contains(o) && (#[trigger] self.commands[o]).ts()
                        == t
                &&& forall|o: TransactionId|
                    self.conflicting(id, keys).contains(o) ==> (#[trigger] self.commands[o]).ts().spec_le(t)
            },
        }
    }

    /// The latest timestamp among the conflicting transactions.
    pub open spec fn latest_conflicting(self, id: TransactionId, keys: Set<Seq<u8>>) -> Option<
        Timestamp,
    > {
        if forall|o: TransactionId| !self.conflicting(id, keys).contains(o) {
            None
        } else {
            Some(choose|t: Timestamp| self.is_latest_conflicting(id, keys, Some(t)))
        }
    }

    /// The timestamp the replica holds a proposal to: the proposal itself
    /// where it is later than every conflicting transaction, else the
    /// replica's own successor of the latest of them. `None` where that
    /// successor does not exist.
    pub open spec fn witnessed(
        self,
        id: TransactionId,
        keys: Set<Seq<u8>>,
        proposed_ts: Timestamp,
    ) -> Option<Timestamp> {
        match self.latest_conflicting(id, keys) {
            None => Some(proposed_ts),
            Some(m) => if m.spec_lt(proposed_ts) {
                Some(proposed_ts)
            } else {
                m.spec_successor_at(self.node_id)
            },
        }
    }

    /// Whether a proposal makes the replica look for conflicts: it does for
    /// a transaction it does not hold, and for one it holds pre-accepted
    /// under a lower ballot.
    pub open spec fn proposal_is_new(self, id: TransactionId, ballot: u32) -> bool {
        !self.holds(id) || (self.commands[id].phase is PreAccepted && self.commands[id].ballot
            < ballot)
    }

    pub open spec fn pre_accept_verdict(
        self,
        tx: TransactionView,
        proposed_ts: Timestamp,
        ballot: u32,
    ) -> Result<(), AccordError> {
        if self.holds(tx.id) && ballot < self.commands[tx.id].ballot {
            Err(AccordError::StaleBallot)
        } else if self.proposal_is_new(tx.id, ballot) && self.witnessed(
            tx.id,
            tx.keys,
            proposed_ts,
        ) is None {
            Err(AccordError::TimestampExhausted)
        } else {
            Ok(())
        }
    }

    /// The command held for `tx` after a proposal that was not turned away.
    pub open spec fn pre_accepted_command(
        self,
        tx: TransactionView,
        proposed_ts: Timestamp,
        ballot: u32,
    ) -> CommandView {
        let w = match self.witnessed(tx.id, tx.keys, proposed_ts) {
            Some(w) => w,
            None => proposed_ts,
        };
        let deps = self.conflicting(tx.id, tx.keys);
        if self.holds(tx.id) {
            self.commands[tx.id].step(CommandEvent::PreAccept { proposed_ts: w, deps, ballot })
        } else {
            fresh_command(tx, w, deps, ballot)
        }
    }

    /// The replica after a proposal.
    pub open spec fn after_pre_accept(
        self,
        tx: TransactionView,
        proposed_ts: Timestamp,
        ballot: u32,
    ) -> ReplicaView {
        if self.pre_accept_verdict(tx, proposed_ts, ballot) is Err {
            self
        } else {
            ReplicaView {
                commands: self.commands.insert(
                    tx.id,
                    self.pre_accepted_command(tx, proposed_ts, ballot),
                ),
                ..self
            }
        }
    }

    /// What is answered to a proposal that was not turned away.
    pub open spec fn pre_accept_reply(
        self,
        tx: TransactionView,
        proposed_ts: Timestamp,
        ballot: u32,
    ) -> PreAcceptReplyView {
        let c = self.pre_accepted_command(tx, proposed_ts, ballot);
        PreAcceptReplyView { witnessed_ts: c.ts(), deps: c.deps, agreed: c.ts() == proposed_ts }
    }

    /// The command that an accept request or a commit meets: the one held,
    /// or a fresh one where the transaction is not held yet.
    pub open spec fn known_or_fresh(self, tx: TransactionView, ts: Timestamp, ballot: u32) -> CommandView {
        if self.holds(tx.id) {
            self.commands[tx.id]
        } else {
            fresh_command(tx, ts, Set::empty(), ballot)
        }
    }

    pub open spec fn accept_verdict(
        self,
        tx: TransactionView,
        executes_at: Timestamp,
        deps: Set<TransactionId>,
        ballot: u32,
    ) -> Result<(), AccordError> {
        self.known_or_fresh(tx, executes_at, ballot).verdict(
            CommandEvent::Accept { executes_at, deps, ballot },
        )
    }

    /// The replica after an accept request.
    pub open spec fn after_accept(
        self,
        tx: TransactionView,
        executes_at: Timestamp,
        deps: Set<TransactionId>,
        ballot: u32,
    ) -> ReplicaView {
        if self.accept_verdict(tx, executes_at, deps, ballot) is Err {
            self
        } else {
            ReplicaView {
                commands: self.commands.insert(
                    tx.id,
                    self.known_or_fresh(tx, executes_at, ballot).step(
                        CommandEvent::Accept { executes_at, deps, ballot },
                    ),
                ),
                ..self
            }
        }
    }

    pub open spec fn commit_verdict(
        self,
        tx: TransactionView,
        executes_at: Timestamp,
        deps: Set<TransactionId>,
    ) -> Result<(), AccordError> {
        self.known_or_fresh(tx, executes_at, 0).verdict(CommandEvent::Commit { executes_at, deps })
    }

    /// The replica after a commit: the command holds the outcome, and the
    /// commit mark covers its timestamp.
    pub open spec fn after_commit(
        self,
        tx: TransactionView,
        executes_at: Timestamp,
        deps: Set<TransactionId>,
    ) -> ReplicaView {
        if self.commit_verdict(tx, executes_at, deps) is Err {
            self
        } else {
            ReplicaView {
                commands: self.commands.insert(
                    tx.id,
                    self.known_or_fresh(tx, executes_at, 0).step(
                        CommandEvent::Commit { executes_at, deps },
                    ),
                ),
                latest_committed: self.latest_committed.spec_max(executes_at),
                ..self
            }
        }
    }

    /// Whether dependency `d` lets command `c` apply: the replica holds
    /// `d`, its outcome is decided, and if it executes before `c` it has
    /// applied.
    pub open spec fn dep_allows_apply(self, c: CommandView, d: TransactionId) -> bool {
        &&& self.commands.contains_key(d)
        &&& self.commands[d].phase.spec_is_decided()
        &&& self.commands[d].ts().spec_lt(c.ts()) ==> self.commands[d].phase is Applied
    }

    /// Whether `a` comes before `b` in the order that the replica applies
    /// in: both outcomes are decided, `b` depends on `a`, and `a` has the
    /// earlier timestamp. A dependency with a later timestamp orders
    /// nothing.
    pub open spec fn executes_before(self, a: TransactionId, b: TransactionId) -> bool {
        &&& self.holds(a)
        &&& self.holds(b)
        &&& self.commands[a].phase.spec_is_decided()
        &&& self.commands[b].phase.spec_is_decided()
        &&& self.commands[b].deps.contains(a)
        &&& self.commands[a].ts().spec_lt(self.commands[b].ts())
    }

    /// Whether the command may apply now: it is committed and each of its
    /// dependencies lets it.
    pub open spec fn ready_to_apply(self, id: TransactionId) -> bool {
        &&& self.holds(id)
        &&& self.commands[id].phase is Committed
        &&& forall|d: TransactionId|
            self.commands[id].deps.contains(d) ==> self.dep_allows_apply(self.commands[id], d)
    }

    /// The replica after an apply request: a command that is ready becomes
    /// applied and the apply mark covers its timestamp; otherwise nothing
    /// changes.
    pub open spec fn after_apply(self, id: TransactionId) -> ReplicaView {
        if self.ready_to_apply(id) {
            ReplicaView {
                commands: self.commands.insert(id, self.commands[id].step(CommandEvent::Apply)),
                latest_applied: self.latest_applied.spec_max(self.commands[id].ts()),
                ..self
            }
        } else {
            self
        }
    }

    pub open spec fn recover_verdict(self, id: TransactionId, ballot: u32) -> Result<
        (),
        AccordError,
    > {
        if self.holds(id) {
            self.commands[id].verdict(CommandEvent::Recover { ballot })
        } else {
            Ok(())
        }
    }

    /// The replica after a recovery query: the command, if held and not
    /// decided, takes the ballot over.
    pub open spec fn after_recover(self, id: TransactionId, ballot: u32) -> ReplicaView {
        if self.holds(id) {
            ReplicaView {
                commands: self.commands.insert(
                    id,
                    self.commands[id].step(CommandEvent::Recover { ballot }),
                ),
                ..self
            }
        } else {
            self
        }
    }

    /// There are finitely many commands, and each is well-formed and filed
    /// under its own identifier.
    pub open spec fn commands_wf(self) -> bool {
        &&& self.commands.dom().finite()
        &&& forall|id: TransactionId| #[trigger]
            self.commands.contains_key(id) ==> self.commands[id].wf() && self.commands[id].id
                == id
    }

    /// No command has applied before a dependency that executes earlier:
    /// for every applied command, each dependency is held and decided, and
    /// each one with an earlier timestamp has applied.
    pub open spec fn applied_in_order(self) -> bool {
        forall|id: TransactionId, d: TransactionId|
            #![trigger self.commands[id].deps.contains(d)]
            self.commands.contains_key(id) && self.commands[id].phase is Applied
                && self.commands[id].deps.contains(d) ==> self.dep_allows_apply(
                self.commands[id],
                d,
            )
    }

    /// The marks are high-water marks: the commit mark is at least the
    /// timestamp of every decided command, the apply mark at least that of
    /// every applied one.
    pub open spec fn marks_cover(self) -> bool {
        forall|id: TransactionId| #[trigger]
            self.commands.contains_key(id) ==> {
                &&& self.commands[id].phase.spec_is_decided() ==> self.commands[id].ts().spec_le(
                    self.latest_committed,
                )
                &&& self.commands[id].phase is Applied ==> self.commands[id].ts().spec_le(
                    self.latest_applied,
                )
            }
    }

    pub open spec fn inv(self) -> bool {
        &&& self.commands_wf()
        &&& self.applied_in_order()
        &&& self.marks_cover()
    }

    /// A replica that holds no command, with both marks at the least
    /// timestamp.
    pub open spec fn initial(node_id: NodeId) -> ReplicaView {
        ReplicaView {
            node_id,
            latest_committed: Timestamp::spec_zero(),
            latest_applied: Timestamp::spec_zero(),
            commands: Map::empty(),
        }
    }

    /// The replica after a message.
    pub open spec fn step(self, e: ReplicaEvent) -> ReplicaView {
        match e {
            ReplicaEvent::PreAccept { tx, proposed_ts, ballot } => self.after_pre_accept(
                tx,
                proposed_ts,
                ballot,
            ),
            ReplicaEvent::Accept { tx, executes_at, deps, ballot } => self.after_accept(
                tx,
                executes_at,
                deps,
                ballot,
            ),
            ReplicaEvent::Commit { tx, executes_at, deps } => self.after_commit(
                tx,
                executes_at,
                deps,
            ),
            ReplicaEvent::Apply { id } => self.after_apply(id),
            ReplicaEvent::Recover { id, ballot } => self.after_recover(id, ballot),
        }
    }

    /// The replica after a sequence of messages, first to last.
    pub open spec fn run(self, events: Seq<ReplicaEvent>) -> ReplicaView
        decreases events.len(),
    {
        if events.len() == 0 {
            self
        } else {
            self.step(events[0]).run(events.skip(1))
        }
    }
}

/// A message to a replica, as a value.
pub enum ReplicaEvent {
    PreAccept { tx: TransactionView, proposed_ts: Timestamp, ballot: u32 },
    Accept { tx: TransactionView, executes_at: Timestamp, deps: Set<TransactionId>, ballot: u32 },
    Commit { tx: TransactionView, executes_at: Timestamp, deps: Set<TransactionId> },
    Apply { id: TransactionId },
    Recover { id: TransactionId, ballot: u32 },
}

/// The latest conflicting timestamp is determined: if `m` is one, it is
/// the one.
pub proof fn lemma_latest_conflicting_is_unique(
    v: ReplicaView,
    id: TransactionId,
    keys: Set<Seq<u8>>,
    m: Option<Timestamp>,
)
    requires
        v.is_latest_conflicting(id, keys, m),
    ensures
        v.latest_conflicting(id, keys) == m,
{
    match m {
        None => {},
        Some(t) => {
            let o = choose|o: TransactionId|
                v.conflicting(id, keys).contains(o) && (#[trigger] v.commands[o]).ts() == t;
            assert(v.conflicting(id, keys).contains(o));
            let u = choose|u: Timestamp| v.is_latest_conflicting(id, keys, Some(u));
            assert(v.is_latest_conflicting(id, keys, Some(u)));
            let p = choose|p: TransactionId|
                v.conflicting(id, keys).contains(p) && (#[trigger] v.commands[p]).ts() == u;
            assert(v.commands[o].ts().spec_le(u));
            assert(v.commands[p].ts().spec_le(t));
        },
    }
}

/// Among finitely many transactions, one has the latest timestamp.
proof fn lemma_latest_of_finite(v: ReplicaView, s: Set<TransactionId>)
    requires
        s.finite(),
        exists|e: TransactionId| s.contains(e),
    ensures
        exists|o: TransactionId|
            s.contains(o) && forall|p: TransactionId|
                s.contains(p) ==> (#[trigger] v.commands[p]).ts().spec_le(v.commands[o].ts()),
    decreases s.len(),
{
    let x = choose|e: TransactionId| s.contains(e);
    let rest = s.remove(x);
    if exists|e: TransactionId| rest.contains(e) {
        lemma_latest_of_finite(v, rest);
        let o = choose|o: TransactionId|
            rest.contains(o) && forall|p: TransactionId|
                rest.contains(p) ==> (#[trigger] v.commands[p]).ts().spec_le(v.commands[o].ts());
        if v.commands[o].ts().spec_lt(v.commands[x].ts()) {
            assert forall|p: TransactionId| s.contains(p) implies (#[trigger] v.commands[p]).ts().spec_le(
                v.commands[x].ts(),
            ) by {
                if p != x {
                    assert(rest.contains(p));
                }
            }
        } else {
            assert forall|p: TransactionId| s.contains(p) implies (#[trigger] v.commands[p]).ts().spec_le(
                v.commands[o].ts(),
            ) by {
                if p != x {
                    assert(rest.contains(p));
                }
            }
            assert(s.contains(o));
        }
    } else {
        assert forall|p: TransactionId| s.contains(p) implies (#[trigger] v.commands[p]).ts().spec_le(
            v.commands[x].ts(),
        ) by {
            if p != x {
                assert(rest.contains(p));
            }
        }
    }
}

/// A replica with finitely many commands has a latest conflicting
/// timestamp for every key set, unless nothing conflicts.
pub proof fn lemma_latest_conflicting_exists(v: ReplicaView, id: TransactionId, keys: Set<Seq<u8>>)
    requires
        v.commands.dom().finite(),
    ensures
        v.is_latest_conflicting(id, keys, v.latest_conflicting(id, keys)),
{
    let s = v.conflicting(id, keys);
    if exists|o: TransactionId| s.contains(o) {
        assert(s.subset_of(v.commands.dom()));
        vstd::set_lib::lemma_set_subset_finite(v.commands.dom(), s);
        lemma_latest_of_finite(v, s);
        let o = choose|o: TransactionId|
            s.contains(o) && forall|p: TransactionId|
                s.contains(p) ==> (#[trigger] v.commands[p]).ts().spec_le(v.commands[o].ts());
        assert(v.is_latest_conflicting(id, keys, Some(v.commands[o].ts())));
    }
}

/// After a proposal that made the replica look for conflicts, the command
/// depends on every conflicting transaction the replica held, and its
/// timestamp is later than each of theirs. The replica agrees with the
/// proposal exactly when the proposal is itself later than all of them.
pub proof fn lemma_pre_accept_follows_conflicts(
    v: ReplicaView,
    tx: TransactionView,
    proposed_ts: Timestamp,
    ballot: u32,
)
    requires
        v.inv(),
        v.proposal_is_new(tx.id, ballot),
        v.pre_accept_verdict(tx, proposed_ts, ballot) is Ok,
    ensures
        forall|o: TransactionId| #[trigger]
            v.conflicting(tx.id, tx.keys).contains(o) ==> {
                &&& v.pre_accept_reply(tx, proposed_ts, ballot).deps.contains(o)
                &&& v.commands[o].ts().spec_lt(
                    v.pre_accept_reply(tx, proposed_ts, ballot).witnessed_ts,
                )
            },
        v.pre_accept_reply(tx, proposed_ts, ballot).agreed <==> forall|o: TransactionId| #[trigger]
            v.conflicting(tx.id, tx.keys).contains(o) ==> v.commands[o].ts().spec_lt(proposed_ts),
        proposed_ts.spec_le(v.pre_accept_reply(tx, proposed_ts, ballot).witnessed_ts),
{
    lemma_latest_conflicting_exists(v, tx.id, tx.keys);
    let m = v.latest_conflicting(tx.id, tx.keys);
    let w = v.witnessed(tx.id, tx.keys, proposed_ts).unwrap();
    let c = v.pre_accepted_command(tx, proposed_ts, ballot);
    assert(c.ts() == w);
    match m {
        None => {},
        Some(t) => {
            crate::timestamp::lemma_successor_is_least(t, v.node_id);
            let top = choose|o: TransactionId|
                v.conflicting(tx.id, tx.keys).contains(o) && (#[trigger] v.commands[o]).ts() == t;
            assert(v.conflicting(tx.id, tx.keys).contains(top));
            assert(t.spec_lt(w));
            assert forall|o: TransactionId| #[trigger]
                v.conflicting(tx.id, tx.keys).contains(o) implies v.commands[o].ts().spec_lt(
                w,
            ) by {
                assert(v.commands[o].ts().spec_le(t));
            }
            if t.spec_lt(proposed_ts) {
                assert forall|o: TransactionId| #[trigger]
                    v.conflicting(tx.id, tx.keys).contains(o) implies v.commands[o].ts().spec_lt(
                    proposed_ts,
                ) by {
                    assert(v.commands[o].ts().spec_le(t));
                }
            }
        },
    }
}

/// Whether `c2` may take the place of what the replica holds for `id`: a
/// decided outcome is kept, an applied command stays applied, and a command
/// becomes applied only where it was ready to apply.
pub open spec fn advances(v: ReplicaView, id: TransactionId, c2: CommandView) -> bool {
    &&& c2.wf()
    &&& c2.id == id
    &&& v.holds(id) ==> {
        let c = v.commands[id];
        &&& c.phase.spec_is_decided() ==> c2.phase.spec_is_decided() && c2.executes_at
            == c.executes_at && c2.deps == c.deps
        &&& c.phase is Applied ==> c2.phase is Applied
        &&& c2.phase is Applied && !(c.phase is Applied) ==> v.ready_to_apply(id) && c2.executes_at
            == c.executes_at && c2.deps == c.deps
    }
    &&& !v.holds(id) ==> !(c2.phase is Applied)
}

/// Replacing one command by one that advances it, while the marks move
/// forward far enough to cover it, keeps the replica's invariant.
pub proof fn lemma_update_preserves_inv(
    v: ReplicaView,
    v2: ReplicaView,
    id: TransactionId,
    c2: CommandView,
)
    requires
        v.inv(),
        advances(v, id, c2),
        v2.commands == v.commands.insert(id, c2),
        v.latest_committed.spec_le(v2.latest_committed),
        v.latest_applied.spec_le(v2.latest_applied),
        c2.phase.spec_is_decided() && !(v.holds(id) && v.commands[id].phase.spec_is_decided())
            ==> c2.ts().spec_le(v2.latest_committed),
        c2.phase is Applied && !(v.holds(id) && v.commands[id].phase is Applied) ==> c2.ts().spec_le(
            v2.latest_applied,
        ),
    ensures
        v2.inv(),
{
    assert(v2.commands.dom() =~= v.commands.dom().insert(id));
    assert forall|x: TransactionId, d: TransactionId|
        #![trigger v2.commands[x].deps.contains(d)]
        v2.commands.contains_key(x) && v2.commands[x].phase is Applied && v2.commands[x].deps.contains(
            d,
        ) implies v2.dep_allows_apply(v2.commands[x], d) by {
        if x == id {
            let c = v.commands[id];
            assert(v.holds(id));
            assert(c2.deps == c.deps && c2.executes_at == c.executes_at);
            assert(c2.ts() == c.ts());
            assert(v.commands[id].deps.contains(d));
            assert(v.dep_allows_apply(c, d));
        } else {
            assert(v.commands[x].deps.contains(d));
            assert(v.dep_allows_apply(v.commands[x], d));
        }
        if d == id {
            assert(v.commands[id].ts() == c2.ts());
        }
    }
    assert forall|x: TransactionId| #[trigger] v2.commands.contains_key(x) implies {
        &&& v2.commands[x].phase.spec_is_decided() ==> v2.commands[x].ts().spec_le(
            v2.latest_committed,
        )
        &&& v2.commands[x].phase is Applied ==> v2.commands[x].ts().spec_le(v2.latest_applied)
    } by {
        if x == id {
            if v.holds(id) && v.commands[id].phase.spec_is_decided() {
                assert(v.commands.contains_key(id));
                assert(c2.ts() == v.commands[id].ts());
            }
        } else {
            assert(v.commands.contains_key(x));
        }
    }
}

/// Every message keeps the replica's invariant. In particular, in every
/// state that messages can lead to, no command has applied before a
/// dependency that executes earlier, and the marks cover what is decided
/// and what is applied.
pub proof fn lemma_step_preserves_inv(v: ReplicaView, e: ReplicaEvent)
    requires
        v.inv(),
    ensures
        v.step(e).inv(),
        v.step(e).node_id == v.node_id,
        v.latest_committed.spec_le(v.step(e).latest_committed),
        v.latest_applied.spec_le(v.step(e).latest_applied),
{
    let v2 = v.step(e);
    match e {
        ReplicaEvent::PreAccept { tx, proposed_ts, ballot } => {
            if v.pre_accept_verdict(tx, proposed_ts, ballot) is Ok {
                let c2 = v.pre_accepted_command(tx, proposed_ts, ballot);
                if v.holds(tx.id) {
                    assert(v.commands.contains_key(tx.id));
                }
                lemma_update_preserves_inv(v, v2, tx.id, c2);
            }
        },
        ReplicaEvent::Accept { tx, executes_at, deps, ballot } => {
            if v.accept_verdict(tx, executes_at, deps, ballot) is Ok {
                let c2 = v.known_or_fresh(tx, executes_at, ballot).step(
                    CommandEvent::Accept { executes_at, deps, ballot },
                );
                if v.holds(tx.id) {
                    assert(v.commands.contains_key(tx.id));
                }
                lemma_update_preserves_inv(v, v2, tx.id, c2);
            }
        },
        ReplicaEvent::Commit { tx, executes_at, deps } => {
            if v.commit_verdict(tx, executes_at, deps) is Ok {
                let c2 = v.known_or_fresh(tx, executes_at, 0).step(
                    CommandEvent::Commit { executes_at, deps },
                );
                if v.holds(tx.id) {
                    assert(v.commands.contains_key(tx.id));
                }
                lemma_update_preserves_inv(v, v2, tx.id, c2);
            }
        },
        ReplicaEvent::Apply { id } => {
            if v.ready_to_apply(id) {
                assert(v.commands.contains_key(id));
                let c2 = v.commands[id].step(CommandEvent::Apply);
                lemma_update_preserves_inv(v, v2, id, c2);
            }
        },
        ReplicaEvent::Recover { id, ballot } => {
            if v.holds(id) {
                assert(v.commands.contains_key(id));
                let c2 = v.commands[id].step(CommandEvent::Recover { ballot });
                lemma_update_preserves_inv(v, v2, id, c2);
            }
        },
    }
}

/// The invariant holds of a replica that has just started, and of every
/// state that any sequence of messages leads it to.
pub proof fn lemma_invariant_always_holds(node_id: NodeId, events: Seq<ReplicaEvent>)
    ensures
        ReplicaView::initial(node_id).inv(),
        ReplicaView::initial(node_id).run(events).inv(),
{
    lemma_run_preserves_inv(ReplicaView::initial(node_id), events);
}

/// Any sequence of messages keeps the invariant, and neither mark
/// decreases across it.
pub proof fn lemma_run_preserves_inv(v: ReplicaView, events: Seq<ReplicaEvent>)
    requires
        v.inv(),
    ensures
        v.run(events).inv(),
        v.latest_committed.spec_le(v.run(events).latest_committed),
        v.latest_applied.spec_le(v.run(events).latest_applied),
    decreases events.len(),
{
    if events.len() > 0 {
        lemma_step_preserves_inv(v, events[0]);
        lemma_run_preserves_inv(v.step(events[0]), events.skip(1));
    }
}

/// A command becomes applied only in a state in which every dependency is
/// held and decided and every dependency that executes earlier has applied
/// already.
pub proof fn lemma_apply_waits_for_earlier_dependencies(v: ReplicaView, e: ReplicaEvent, id: TransactionId)
    requires
        v.inv(),
        v.step(e).holds(id),
        v.step(e).commands[id].phase is Applied,
        !(v.holds(id) && v.commands[id].phase is Applied),
    ensures
        e == (ReplicaEvent::Apply { id }),
        v.holds(id),
        v.commands[id].phase is Committed,
        forall|d: TransactionId|
            v.commands[id].deps.contains(d) ==> {
                &&& v.holds(d)
                &&& v.commands[d].phase.spec_is_decided()
                &&& v.commands[d].ts().spec_lt(v.commands[id].ts()) ==> v.commands[d].phase is Applied
            },
{
    match e {
        ReplicaEvent::PreAccept { tx, proposed_ts, ballot } => {
            if v.holds(id) {
                assert(v.commands.contains_key(id));
            }
        },
        ReplicaEvent::Accept { tx, executes_at, deps, ballot } => {
            if v.holds(id) {
                assert(v.commands.contains_key(id));
            }
        },
        ReplicaEvent::Commit { tx, executes_at, deps } => {
            if v.holds(id) {
                assert(v.commands.contains_key(id));
            }
        },
        ReplicaEvent::Apply { id: applied } => {
            if v.holds(id) {
                assert(v.commands.contains_key(id));
            }
            assert forall|d: TransactionId| v.commands[id].deps.contains(d) implies v.dep_allows_apply(
                v.commands[id],
                d,
            ) by {}
        },
        ReplicaEvent::Recover { id: other, ballot } => {
            if v.holds(id) {
                assert(v.commands.contains_key(id));
            }
        },
    }
}

/// The order in which a replica applies agrees with the timestamps: it
/// never orders two transactions both ways, it goes with `executes_at`,
/// and it is transitive as far as the timestamps go. What has applied has
/// applied after everything that comes before it in that order.
pub proof fn lemma_dependency_order_is_consistent(
    v: ReplicaView,
    a: TransactionId,
    b: TransactionId,
    c: TransactionId,
)
    requires
        v.inv(),
    ensures
        !v.executes_before(a, a),
        !(v.executes_before(a, b) && v.executes_before(b, a)),
        v.executes_before(a, b) ==> v.commands[a].executes_at is Some
            && v.commands[b].executes_at is Some && v.commands[a].executes_at.unwrap().spec_lt(
            v.commands[b].executes_at.unwrap(),
        ),
        v.executes_before(a, b) && v.executes_before(b, c) ==> v.commands[a].ts().spec_lt(
            v.commands[c].ts(),
        ),
        v.executes_before(a, b) && v.commands[b].phase is Applied ==> v.commands[a].phase is Applied,
{
    if v.executes_before(a, b) {
        assert(v.commands.contains_key(a) && v.commands.contains_key(b));
        if v.commands[b].phase is Applied {
            assert(v.commands[b].deps.contains(a));
            assert(v.dep_allows_apply(v.commands[b], a));
        }
    }
}

/// Once a replica holds a decided outcome for a transaction, no message
/// changes it: the transaction stays decided with the same timestamp and
/// the same dependencies.
pub proof fn lemma_decided_outcome_survives_step(v: ReplicaView, e: ReplicaEvent, id: TransactionId)
    requires
        v.inv(),
        v.holds(id),
        v.commands[id].phase.spec_is_decided(),
    ensures
        v.step(e).holds(id),
        v.step(e).commands[id].phase.spec_is_decided(),
        v.step(e).commands[id].executes_at == v.commands[id].executes_at,
        v.step(e).commands[id].deps == v.commands[id].deps,
{
    assert(v.commands.contains_key(id));
}

/// At one replica at most one outcome is ever held as decided for a
/// transaction, whatever messages follow, repeated, late or out of order.
pub proof fn lemma_decided_outcome_is_unique(v: ReplicaView, events: Seq<ReplicaEvent>, id: TransactionId)
    requires
        v.inv(),
        v.holds(id),
        v.commands[id].phase.spec_is_decided(),
    ensures
        v.run(events).holds(id),
        v.run(events).commands[id].phase.spec_is_decided(),
        v.run(events).commands[id].executes_at == v.commands[id].executes_at,
        v.run(events).commands[id].deps == v.commands[id].deps,
    decreases events.len(),
{
    if events.len() > 0 {
        lemma_decided_outcome_survives_step(v, events[0], id);
        lemma_step_preserves_inv(v, events[0]);
        lemma_decided_outcome_is_unique(v.step(events[0]), events.skip(1), id);
    }
}

/// An apply request that comes again changes nothing: the replica after
/// two requests is the replica after one.
pub proof fn lemma_apply_replay_changes_nothing(v: ReplicaView, id: TransactionId)
    requires
        v.inv(),
    ensures
        v.after_apply(id).after_apply(id) == v.after_apply(id),
        v.holds(id) && v.commands[id].phase is Applied ==> v.after_apply(id) == v,
{
    if v.ready_to_apply(id) {
        assert(v.commands.contains_key(id));
        let v2 = v.after_apply(id);
        assert(v2.commands[id].phase is Applied);
        assert(!v2.ready_to_apply(id));
    }
}

} // verus!
