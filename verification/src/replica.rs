//! The executable replica: the commands it holds, its log, and what it does
//! with each message. Every function says which `ReplicaView` follows.

use crate::command::{ApplyStep, Command, CommandEvent, CommandView, Phase};
use crate::deps::DepSet;
use crate::error::AccordError;
use crate::keys::KeySet;
use crate::log::Log;
use crate::state::{lemma_latest_conflicting_is_unique, lemma_step_preserves_inv};
use crate::state::{PreAcceptReplyView, ReplicaEvent, ReplicaView};
use crate::timestamp::{NodeId, Timestamp};
use crate::transaction::{Transaction, TransactionId};
use vstd::prelude::*;

verus! {

/// The commands of a sequence, keyed by transaction; where an identifier
/// occurs twice, the later command stands.
pub open spec fn table_of(cmds: Seq<Command>) -> Map<TransactionId, CommandView>
    decreases cmds.len(),
{
    if cmds.len() == 0 {
        Map::empty()
    } else {
        table_of(cmds.drop_last()).insert(cmds.last()@.id, cmds.last()@)
    }
}

pub open spec fn unique_ids(cmds: Seq<Command>) -> bool {
    forall|i: int, j: int|
        0 <= i < cmds.len() && 0 <= j < cmds.len() && i != j ==> (#[trigger] cmds[i])@.id != (
        #[trigger] cmds[j])@.id
}

/// The table has exactly the identifiers that occur in the sequence.
pub proof fn lemma_table_keys(cmds: Seq<Command>)
    ensures
        table_of(cmds).dom().finite(),
        forall|id: TransactionId|
            table_of(cmds).contains_key(id) <==> exists|i: int|
                0 <= i < cmds.len() && (#[trigger] cmds[i])@.id == id,
    decreases cmds.len(),
{
    if cmds.len() > 0 {
        let front = cmds.drop_last();
        lemma_table_keys(front);
        assert forall|id: TransactionId|
            table_of(cmds).contains_key(id) <==> exists|i: int|
                0 <= i < cmds.len() && (#[trigger] cmds[i])@.id == id by {
            if table_of(cmds).contains_key(id) {
                if id == cmds.last()@.id {
                    assert(cmds[cmds.len() - 1]@.id == id);
                } else {
                    let i = choose|i: int| 0 <= i < front.len() && (#[trigger] front[i])@.id == id;
                    assert(cmds[i]@.id == id);
                }
            }
            if exists|i: int| 0 <= i < cmds.len() && (#[trigger] cmds[i])@.id == id {
                let i = choose|i: int| 0 <= i < cmds.len() && (#[trigger] cmds[i])@.id == id;
                if i < cmds.len() - 1 {
                    assert(front[i]@.id == id);
                }
            }
        }
    }
}

/// With distinct identifiers, the table files each command of the sequence
/// under its identifier.
pub proof fn lemma_table_at(cmds: Seq<Command>, i: int)
    requires
        unique_ids(cmds),
        0 <= i < cmds.len(),
    ensures
        table_of(cmds).contains_key(cmds[i]@.id),
        table_of(cmds)[cmds[i]@.id] == cmds[i]@,
    decreases cmds.len(),
{
    if i < cmds.len() - 1 {
        let front = cmds.drop_last();
        assert(front[i] == cmds[i]);
        assert(unique_ids(front)) by {
            assert forall|a: int, b: int|
                0 <= a < front.len() && 0 <= b < front.len() && a != b implies (
            #[trigger] front[a])@.id != (#[trigger] front[b])@.id by {
                assert(front[a] == cmds[a] && front[b] == cmds[b]);
            }
        }
        lemma_table_at(front, i);
        assert(cmds[cmds.len() - 1]@.id != cmds[i]@.id);
    }
}

/// Replacing the command at one place by one with the same identifier
/// replaces its entry in the table and leaves the others.
pub proof fn lemma_table_update(a: Seq<Command>, b: Seq<Command>, i: int)
    requires
        unique_ids(a),
        0 <= i < a.len(),
        a.len() == b.len(),
        b[i]@.id == a[i]@.id,
        forall|j: int| 0 <= j < a.len() && j != i ==> (#[trigger] b[j])@ == a[j]@,
    ensures
        unique_ids(b),
        table_of(b) == table_of(a).insert(a[i]@.id, b[i]@),
{
    assert(unique_ids(b)) by {
        assert forall|x: int, y: int| 0 <= x < b.len() && 0 <= y < b.len() && x != y implies (
        #[trigger] b[x])@.id != (#[trigger] b[y])@.id by {
            assert(b[x]@.id == a[x]@.id && b[y]@.id == a[y]@.id);
            assert(a[x]@.id != a[y]@.id);
        }
    }
    lemma_table_keys(a);
    lemma_table_keys(b);
    let want = table_of(a).insert(a[i]@.id, b[i]@);
    assert forall|id: TransactionId| table_of(b).contains_key(id) == want.contains_key(id) by {
        if table_of(b).contains_key(id) {
            let j = choose|j: int| 0 <= j < b.len() && (#[trigger] b[j])@.id == id;
            assert(a[j]@.id == id);
        }
        if want.contains_key(id) && id != a[i]@.id {
            let j = choose|j: int| 0 <= j < a.len() && (#[trigger] a[j])@.id == id;
            assert(b[j]@.id == id);
        }
        if id == a[i]@.id {
            assert(b[i]@.id == id);
        }
    }
    assert forall|id: TransactionId| table_of(b).contains_key(id) implies table_of(b)[id]
        == want[id] by {
        let j = choose|j: int| 0 <= j < b.len() && (#[trigger] b[j])@.id == id;
        lemma_table_at(b, j);
        if j != i {
            lemma_table_at(a, j);
            assert(a[j]@.id != a[i]@.id);
        }
    }
    assert(table_of(b) =~= want);
}

/// A command with a new identifier adds its entry to the table.
pub proof fn lemma_table_push(cmds: Seq<Command>, c: Command)
    requires
        unique_ids(cmds),
        !table_of(cmds).contains_key(c@.id),
    ensures
        unique_ids(cmds.push(c)),
        table_of(cmds.push(c)) == table_of(cmds).insert(c@.id, c@),
{
    lemma_table_keys(cmds);
    let next = cmds.push(c);
    assert(next.drop_last() =~= cmds);
    assert forall|x: int, y: int| 0 <= x < next.len() && 0 <= y < next.len() && x != y implies (
    #[trigger] next[x])@.id != (#[trigger] next[y])@.id by {
        if x < cmds.len() {
            assert(next[x] == cmds[x]);
        }
        if y < cmds.len() {
            assert(next[y] == cmds[y]);
        }
    }
}

/// What a replica answers to a proposal.
#[derive(Debug)]
pub struct PreAcceptReply {
    pub witnessed_ts: Timestamp,
    pub deps: DepSet,
    pub agreed: bool,
}

impl View for PreAcceptReply {
    type V = PreAcceptReplyView;

    open spec fn view(&self) -> PreAcceptReplyView {
        PreAcceptReplyView { witnessed_ts: self.witnessed_ts, deps: self.deps@, agreed: self.agreed }
    }
}

/// What an apply request found.
#[derive(Debug)]
pub enum ApplyOutcome {
    /// The command was ready and is now applied: the storage engine is to
    /// execute this payload.
    Execute(Vec<u8>),
    /// The command was applied before. Nothing is to be executed.
    AlreadyApplied,
    /// The command is not committed yet.
    NotCommitted,
    /// The replica does not hold the transaction.
    Unknown,
    /// The command is committed, and waits for this dependency.
    WaitingOn(TransactionId),
}

/// What a replica reports of a command to a recovering replica.
#[derive(Debug)]
pub struct CommandSummary {
    pub phase: Phase,
    pub proposed_ts: Timestamp,
    pub executes_at: Option<Timestamp>,
    pub deps: DepSet,
    pub ballot: u32,
}

pub struct CommandSummaryView {
    pub phase: Phase,
    pub proposed_ts: Timestamp,
    pub executes_at: Option<Timestamp>,
    pub deps: Set<TransactionId>,
    pub ballot: u32,
}

impl View for CommandSummary {
    type V = CommandSummaryView;

    open spec fn view(&self) -> CommandSummaryView {
        CommandSummaryView {
            phase: self.phase,
            proposed_ts: self.proposed_ts,
            executes_at: self.executes_at,
            deps: self.deps@,
            ballot: self.ballot,
        }
    }
}

/// The summary of a command.
pub open spec fn summary_of(c: CommandView) -> CommandSummaryView {
    CommandSummaryView {
        phase: c.phase,
        proposed_ts: c.proposed_ts,
        executes_at: c.executes_at,
        deps: c.deps,
        ballot: c.ballot,
    }
}

/// The timestamp a replica holds a proposal to, given the latest timestamp
/// among the conflicting transactions.
pub fn witness_for(latest: Option<Timestamp>, proposed_ts: Timestamp, node: NodeId) -> (w: Option<
    Timestamp,
>)
    ensures
        w == (match latest {
            None => Some(proposed_ts),
            Some(m) => if m.spec_lt(proposed_ts) {
                Some(proposed_ts)
            } else {
                m.spec_successor_at(node)
            },
        }),
{
    match latest {
        None => Some(proposed_ts),
        Some(m) => if m.lt(&proposed_ts) {
            Some(proposed_ts)
        } else {
            m.successor_at(node)
        },
    }
}

#[derive(Debug)]
pub struct Replica {
    pub node_id: NodeId,
    pub log: Log,
    pub commands: Vec<Command>,
}

impl View for Replica {
    type V = ReplicaView;

    open spec fn view(&self) -> ReplicaView {
        ReplicaView {
            node_id: self.node_id,
            latest_committed: self.log.latest_committed(),
            latest_applied: self.log.latest_applied(),
            commands: table_of(self.commands@),
        }
    }
}

impl Replica {
    /// No two commands are for one transaction, each command is
    /// well-formed, and the replica's invariant holds.
    pub open spec fn wf(self) -> bool {
        &&& unique_ids(self.commands@)
        &&& forall|i: int| 0 <= i < self.commands.len() ==> (#[trigger] self.commands[i]).wf()
        &&& self@.inv()
    }

    /// Whether the command at `j` is another transaction's and its keys
    /// intersect `keys`.
    pub open spec fn conflicts_at(self, j: int, id: TransactionId, keys: Set<Seq<u8>>) -> bool {
        self.commands[j]@.id != id && !self.commands[j]@.keys.disjoint(keys)
    }

    /// A replica that holds nothing yet.
    pub fn new(node_id: NodeId) -> (replica: Replica)
        ensures
            replica.wf(),
            replica@ == ReplicaView::initial(node_id),
    {
        let replica = Replica { node_id, log: Log::new(), commands: Vec::new() };
        assert(replica@.commands =~= Map::empty());
        replica
    }

    /// Where the command for `id` stands in `commands`.
    pub fn index_of(&self, id: TransactionId) -> (found: Option<usize>)
        requires
            unique_ids(self.commands@),
        ensures
            found matches Some(i) ==> i < self.commands.len() && self.commands[i as int]@.id == id
                && self@.commands[id] == self.commands[i as int]@,
            found is Some <==> self@.holds(id),
    {
        proof {
            lemma_table_keys(self.commands@);
        }
        let mut i: usize = 0;
        while i < self.commands.len()
            invariant
                i <= self.commands.len(),
                unique_ids(self.commands@),
                forall|j: int| 0 <= j < i ==> (#[trigger] self.commands[j])@.id != id,
            decreases self.commands.len() - i,
        {
            if self.commands[i].transaction.id == id {
                proof {
                    lemma_table_at(self.commands@, i as int);
                }
                return Some(i);
            }
            i += 1;
        }
        None
    }

    /// Whether the replica has seen the transaction.
    pub fn has_seen(&self, id: TransactionId) -> (r: bool)
        requires
            self.wf(),
        ensures
            r == self@.holds(id),
    {
        self.index_of(id).is_some()
    }

    /// The phase of the transaction's command, if the replica holds one.
    pub fn phase_of(&self, id: TransactionId) -> (phase: Option<Phase>)
        requires
            self.wf(),
        ensures
            phase == (if self@.holds(id) {
                Some(self@.commands[id].phase)
            } else {
                None
            }),
    {
        match self.index_of(id) {
            Some(i) => Some(self.commands[i].phase),
            None => None,
        }
    }

    /// The other transactions held whose keys intersect `keys`, and the
    /// latest of their timestamps.
    pub fn scan_conflicts(&self, id: TransactionId, keys: &KeySet) -> (found: (
        DepSet,
        Option<Timestamp>,
    ))
        requires
            self.wf(),
        ensures
            found.0@ == self@.conflicting(id, keys@),
            found.1 == self@.latest_conflicting(id, keys@),
            self@.is_latest_conflicting(id, keys@, found.1),
    {
        let mut deps = DepSet::new();
        let mut latest: Option<Timestamp> = None;
        let mut i: usize = 0;
        while i < self.commands.len()
            invariant
                i <= self.commands.len(),
                forall|o: TransactionId|
                    deps@.contains(o) <==> exists|j: int|
                        0 <= j < i && self.conflicts_at(j, id, keys@) && (
                        #[trigger] self.commands[j])@.id == o,
                latest is None ==> forall|j: int| 0 <= j < i ==> !self.conflicts_at(j, id, keys@),
                latest matches Some(t) ==> {
                    &&& exists|j: int|
                        0 <= j < i && self.conflicts_at(j, id, keys@) && (
                        #[trigger] self.commands[j])@.ts() == t
                    &&& forall|j: int|
                        0 <= j < i && self.conflicts_at(j, id, keys@) ==> (
                        #[trigger] self.commands[j])@.ts().spec_le(t)
                },
            decreases self.commands.len() - i,
        {
            let c = &self.commands[i];
            let ghost before = deps@;
            let ghost was = latest;
            if c.transaction.id != id && c.transaction.keys.conflicts_with(keys) {
                assert(self.conflicts_at(i as int, id, keys@));
                deps.insert(c.transaction.id);
                let t = c.ts();
                latest =
                match latest {
                    None => Some(t),
                    Some(m) => Some(Timestamp::max(m, t)),
                };
                proof {
                    assert(self.commands[i as int]@.ts() == t);
                    match was {
                        None => {},
                        Some(m) => {
                            let j0 = choose|j: int|
                                0 <= j < i && self.conflicts_at(j, id, keys@) && (
                                #[trigger] self.commands[j])@.ts() == m;
                            assert(0 <= j0 < i + 1 && self.conflicts_at(j0, id, keys@)
                                && self.commands[j0]@.ts() == m);
                        },
                    }
                    assert forall|j: int|
                        0 <= j < i + 1 && self.conflicts_at(j, id, keys@) implies (
                    #[trigger] self.commands[j])@.ts().spec_le(latest.unwrap()) by {
                        if j < i {
                            assert(self.commands[j]@.ts().spec_le(was.unwrap()));
                        }
                    }
                }
            }
            proof {
                assert forall|o: TransactionId|
                    deps@.contains(o) <==> exists|j: int|
                        0 <= j < i + 1 && self.conflicts_at(j, id, keys@) && (
                        #[trigger] self.commands[j])@.id == o by {
                    if before.contains(o) {
                        let j = choose|j: int|
                            0 <= j < i && self.conflicts_at(j, id, keys@) && (
                            #[trigger] self.commands[j])@.id == o;
                        assert(0 <= j < i + 1 && self.conflicts_at(j, id, keys@)
                            && self.commands[j]@.id == o);
                    }
                    if exists|j: int|
                        0 <= j < i + 1 && self.conflicts_at(j, id, keys@) && (
                        #[trigger] self.commands[j])@.id == o {
                        let j = choose|j: int|
                            0 <= j < i + 1 && self.conflicts_at(j, id, keys@) && (
                            #[trigger] self.commands[j])@.id == o;
                        if j < i {
                            assert(before.contains(o));
                        }
                    }
                }
            }
            i += 1;
        }
        proof {
            lemma_table_keys(self.commands@);
            let v = self@;
            assert forall|o: TransactionId| v.conflicting(id, keys@).contains(o) <==> exists|j: int|
                0 <= j < i && self.conflicts_at(j, id, keys@) && (#[trigger] self.commands[j])@.id
                    == o by {
                if v.conflicting(id, keys@).contains(o) {
                    let j = choose|j: int|
                        0 <= j < self.commands.len() && (#[trigger] self.commands@[j])@.id == o;
                    lemma_table_at(self.commands@, j);
                    assert(self.conflicts_at(j, id, keys@));
                }
                if exists|j: int|
                    0 <= j < i && self.conflicts_at(j, id, keys@) && (#[trigger] self.commands[j])@.id
                        == o {
                    let j = choose|j: int|
                        0 <= j < i && self.conflicts_at(j, id, keys@) && (
                        #[trigger] self.commands[j])@.id == o;
                    lemma_table_at(self.commands@, j);
                }
            }
            assert(deps@ =~= v.conflicting(id, keys@));
            match latest {
                None => {
                    assert forall|o: TransactionId| !v.conflicting(id, keys@).contains(o) by {
                        if v.conflicting(id, keys@).contains(o) {
                            let j = choose|j: int|
                                0 <= j < i && self.conflicts_at(j, id, keys@) && (
                                #[trigger] self.commands[j])@.id == o;
                            assert(!self.conflicts_at(j, id, keys@));
                        }
                    }
                },
                Some(t) => {
                    let j0 = choose|j: int|
                        0 <= j < i && self.conflicts_at(j, id, keys@) && (
                        #[trigger] self.commands[j])@.ts() == t;
                    lemma_table_at(self.commands@, j0);
                    let o0 = self.commands[j0]@.id;
                    assert(v.conflicting(id, keys@).contains(o0) && v.commands[o0].ts() == t);
                    assert forall|o: TransactionId|
                        v.conflicting(id, keys@).contains(o) implies (#[trigger] v.commands[o]).ts().spec_le(
                        t,
                    ) by {
                        let j = choose|j: int|
                            0 <= j < i && self.conflicts_at(j, id, keys@) && (
                            #[trigger] self.commands[j])@.id == o;
                        lemma_table_at(self.commands@, j);
                        assert(self.commands[j]@.ts().spec_le(t));
                    }
                },
            }
            lemma_latest_conflicting_is_unique(v, id, keys@, latest);
        }
        (deps, latest)
    }

    /// The latest timestamp among the transactions held that conflict with
    /// `keys`, the transaction `id` itself left out: the bound that a
    /// proposal for `id` has to pass. It is never too low.
    pub fn latest_conflicting(&self, id: TransactionId, keys: &KeySet) -> (latest: Option<
        Timestamp,
    >)
        requires
            self.wf(),
        ensures
            latest == self@.latest_conflicting(id, keys@),
            self@.is_latest_conflicting(id, keys@, latest),
    {
        let found = self.scan_conflicts(id, keys);
        found.1
    }
}

impl Replica {
    /// Takes a proposal for `tx` at `proposed_ts`.
    ///
    /// A proposal under the ballot held for the transaction is turned away
    /// as stale. For a transaction not held yet, or held pre-accepted under
    /// a lower ballot, the replica finds the conflicting transactions it
    /// holds, makes the command depend on all of them, and holds it to a
    /// timestamp later than all of theirs: the proposal where that is so
    /// already, else its own successor of the latest. Any other proposal
    /// only reports what is held. The reply gives the timestamp and the
    /// dependencies now held, and whether the timestamp is the proposal.
    pub fn pre_accept(&mut self, tx: Transaction, proposed_ts: Timestamp, ballot: u32) -> (r:
        Result<PreAcceptReply, AccordError>)
        requires
            old(self).wf(),
        ensures
            final(self).wf(),
            final(self)@ == old(self)@.after_pre_accept(tx@, proposed_ts, ballot),
            match r {
                Ok(reply) => old(self)@.pre_accept_verdict(tx@, proposed_ts, ballot) is Ok
                    && reply@ == old(self)@.pre_accept_reply(tx@, proposed_ts, ballot),
                Err(e) => old(self)@.pre_accept_verdict(tx@, proposed_ts, ballot) == Err::<
                    (),
                    AccordError,
                >(e),
            },
    {
        let ghost before = *old(self);
        let ghost event = ReplicaEvent::PreAccept { tx: tx@, proposed_ts, ballot };
        proof {
            lemma_step_preserves_inv(before@, event);
        }
        match self.index_of(tx.id) {
            Some(i) => {
                if ballot < self.commands[i].ballot {
                    return Err(AccordError::StaleBallot);
                }
                let renew = match self.commands[i].phase {
                    Phase::PreAccepted => self.commands[i].ballot < ballot,
                    _ => false,
                };
                assert(renew == before@.proposal_is_new(tx.id, ballot));
                if renew {
                    let found = self.scan_conflicts(tx.id, &tx.keys);
                    let w = match witness_for(found.1, proposed_ts, self.node_id) {
                        Some(w) => w,
                        None => {
                            return Err(AccordError::TimestampExhausted);
                        },
                    };
                    let _ = self.commands[i].pre_accept(w, found.0, ballot);
                } else {
                    let _ = self.commands[i].pre_accept(proposed_ts, DepSet::new(), ballot);
                }
                proof {
                    lemma_table_update(before.commands@, self.commands@, i as int);
                    assert(self@.commands =~= before@.after_pre_accept(
                        tx@,
                        proposed_ts,
                        ballot,
                    ).commands);
                }
                let c = &self.commands[i];
                let ts = c.ts();
                Ok(PreAcceptReply { witnessed_ts: ts, deps: c.deps.duplicate(), agreed: ts == proposed_ts })
            },
            None => {
                let found = self.scan_conflicts(tx.id, &tx.keys);
                let w = match witness_for(found.1, proposed_ts, self.node_id) {
                    Some(w) => w,
                    None => {
                        return Err(AccordError::TimestampExhausted);
                    },
                };
                let reply = PreAcceptReply {
                    witnessed_ts: w,
                    deps: found.0.duplicate(),
                    agreed: w == proposed_ts,
                };
                let c = Command::new(tx, w, found.0, ballot);
                self.commands.push(c);
                proof {
                    lemma_table_push(before.commands@, c);
                    assert(self.commands@ == before.commands@.push(c));
                }
                Ok(reply)
            },
        }
    }

    /// Takes an accept request. One under the ballot held is turned away as
    /// stale. Otherwise, unless the outcome is decided already, the command
    /// becomes `Accepted` at `executes_at` and its dependencies grow by
    /// `deps`; a transaction not held yet gets its command now.
    pub fn accept(
        &mut self,
        tx: Transaction,
        executes_at: Timestamp,
        deps: DepSet,
        ballot: u32,
    ) -> (r: Result<(), AccordError>)
        requires
            old(self).wf(),
        ensures
            final(self).wf(),
            final(self)@ == old(self)@.after_accept(tx@, executes_at, deps@, ballot),
            r == old(self)@.accept_verdict(tx@, executes_at, deps@, ballot),
    {
        let ghost before = *old(self);
        let ghost event = ReplicaEvent::Accept { tx: tx@, executes_at, deps: deps@, ballot };
        proof {
            lemma_step_preserves_inv(before@, event);
        }
        match self.index_of(tx.id) {
            Some(i) => {
                let r = self.commands[i].accept(executes_at, deps, ballot);
                proof {
                    lemma_table_update(before.commands@, self.commands@, i as int);
                    assert(self@.commands =~= before@.after_accept(
                        tx@,
                        executes_at,
                        deps@,
                        ballot,
                    ).commands);
                }
                r
            },
            None => {
                let mut c = Command::new(tx, executes_at, DepSet::new(), ballot);
                let r = c.accept(executes_at, deps, ballot);
                self.commands.push(c);
                proof {
                    lemma_table_push(before.commands@, c);
                    assert(self.commands@ == before.commands@.push(c));
                }
                r
            },
        }
    }

    /// Takes a decided outcome. The command becomes `Committed` with
    /// exactly this timestamp and these dependencies, and the commit mark
    /// of the log covers the timestamp. Where the outcome was decided
    /// before, the same outcome changes nothing, and another one is
    /// reported as a `ConflictingFinalization` and changes nothing either.
    pub fn commit(&mut self, tx: Transaction, executes_at: Timestamp, deps: DepSet) -> (r: Result<
        (),
        AccordError,
    >)
        requires
            old(self).wf(),
        ensures
            final(self).wf(),
            final(self)@ == old(self)@.after_commit(tx@, executes_at, deps@),
            r == old(self)@.commit_verdict(tx@, executes_at, deps@),
    {
        let ghost before = *old(self);
        let ghost event = ReplicaEvent::Commit { tx: tx@, executes_at, deps: deps@ };
        proof {
            lemma_step_preserves_inv(before@, event);
        }
        match self.index_of(tx.id) {
            Some(i) => {
                let r = self.commands[i].commit(executes_at, deps);
                proof {
                    lemma_table_update(before.commands@, self.commands@, i as int);
                }
                if r.is_ok() {
                    let _ = self.log.write_committed(&tx, &executes_at);
                }
                proof {
                    assert(self@.commands =~= before@.after_commit(tx@, executes_at, deps@).commands);
                }
                r
            },
            None => {
                let _ = self.log.write_committed(&tx, &executes_at);
                let mut c = Command::new(tx, executes_at, DepSet::new(), 0);
                let r = c.commit(executes_at, deps);
                self.commands.push(c);
                proof {
                    lemma_table_push(before.commands@, c);
                    assert(self.commands@ == before.commands@.push(c));
                }
                r
            },
        }
    }

    /// Whether dependency `d` lets the command at `i` apply.
    fn dep_allows(&self, i: usize, d: TransactionId) -> (r: bool)
        requires
            unique_ids(self.commands@),
            i < self.commands.len(),
        ensures
            r == self@.dep_allows_apply(self.commands[i as int]@, d),
    {
        match self.index_of(d) {
            None => false,
            Some(j) => {
                let dep = &self.commands[j];
                match dep.phase {
                    Phase::Applied => true,
                    Phase::Committed => !dep.ts().lt(&self.commands[i].ts()),
                    _ => false,
                }
            },
        }
    }

    /// A dependency that keeps the command at `i` from applying, if there
    /// is one.
    fn blocking_dep(&self, i: usize) -> (blocker: Option<TransactionId>)
        requires
            unique_ids(self.commands@),
            i < self.commands.len(),
        ensures
            blocker matches Some(d) ==> self.commands[i as int]@.deps.contains(d)
                && !self@.dep_allows_apply(self.commands[i as int]@, d),
            blocker is None ==> forall|d: TransactionId|
                self.commands[i as int]@.deps.contains(d) ==> self@.dep_allows_apply(
                    self.commands[i as int]@,
                    d,
                ),
    {
        let n: usize = self.commands[i].deps.ids.len();
        let mut k: usize = 0;
        while k < n
            invariant
                unique_ids(self.commands@),
                i < self.commands.len(),
                n == self.commands[i as int].deps.ids.len(),
                k <= n,
                forall|m: int|
                    0 <= m < k ==> self@.dep_allows_apply(
                        self.commands[i as int]@,
                        #[trigger] self.commands[i as int].deps.ids@[m],
                    ),
            decreases n - k,
        {
            let d: TransactionId = self.commands[i].deps.ids[k];
            if !self.dep_allows(i, d) {
                assert(self.commands[i as int].deps.ids@.contains(d));
                return Some(d);
            }
            k += 1;
        }
        assert forall|d: TransactionId|
            self.commands[i as int]@.deps.contains(d) implies self@.dep_allows_apply(
            self.commands[i as int]@,
            d,
        ) by {
            let m = choose|m: int|
                0 <= m < self.commands[i as int].deps.ids@.len() && self.commands[i as int].deps.ids@[m]
                    == d;
            assert(self@.dep_allows_apply(
                self.commands[i as int]@,
                self.commands[i as int].deps.ids@[m],
            ));
        }
        None
    }

    /// Takes an apply request for `id`.
    ///
    /// A committed command applies once every dependency is held and
    /// decided and every dependency with an earlier timestamp has applied.
    /// It then becomes `Applied`, the apply mark of the log covers its
    /// timestamp, and its payload is handed out for the storage engine. In
    /// every other case nothing changes and nothing is handed out; in
    /// particular a request that comes again finds `AlreadyApplied`.
    pub fn apply(&mut self, id: TransactionId) -> (r: ApplyOutcome)
        requires
            old(self).wf(),
        ensures
            final(self).wf(),
            final(self)@ == old(self)@.after_apply(id),
            match r {
                ApplyOutcome::Execute(payload) => old(self)@.ready_to_apply(id) && payload@ == old(
                    self,
                )@.commands[id].payload,
                ApplyOutcome::AlreadyApplied => old(self)@.holds(id) && old(
                    self,
                )@.commands[id].phase is Applied && *final(self) == *old(self),
                ApplyOutcome::NotCommitted => old(self)@.holds(id) && !old(
                    self,
                )@.commands[id].phase.spec_is_decided() && *final(self) == *old(self),
                ApplyOutcome::Unknown => !old(self)@.holds(id) && *final(self) == *old(self),
                ApplyOutcome::WaitingOn(d) => {
                    &&& old(self)@.holds(id)
                    &&& old(self)@.commands[id].phase is Committed
                    &&& old(self)@.commands[id].deps.contains(d)
                    &&& !old(self)@.dep_allows_apply(old(self)@.commands[id], d)
                    &&& *final(self) == *old(self)
                },
            },
    {
        let ghost before = *old(self);
        proof {
            lemma_step_preserves_inv(before@, ReplicaEvent::Apply { id });
        }
        let i = match self.index_of(id) {
            Some(i) => i,
            None => {
                return ApplyOutcome::Unknown;
            },
        };
        match self.commands[i].phase {
            Phase::Applied => {
                return ApplyOutcome::AlreadyApplied;
            },
            Phase::Committed => {},
            _ => {
                return ApplyOutcome::NotCommitted;
            },
        }
        match self.blocking_dep(i) {
            Some(d) => {
                return ApplyOutcome::WaitingOn(d);
            },
            None => {},
        }
        assert(before@.ready_to_apply(id));
        let ts = self.commands[i].ts();
        let step = self.commands[i].mark_applied();
        proof {
            lemma_table_update(before.commands@, self.commands@, i as int);
        }
        let _ = self.log.write_applied(&self.commands[i].transaction, &ts);
        let payload = self.commands[i].transaction.payload.clone();
        proof {
            assert(self@.commands =~= before@.after_apply(id).commands);
        }
        ApplyOutcome::Execute(payload)
    }

    /// Answers the query of a recovering replica that has taken `ballot`.
    ///
    /// A ballot under the one held for the transaction is turned away as
    /// stale. Otherwise the command takes the ballot over, unless its
    /// outcome is decided, and the reply reports the command as it then
    /// stands; `None` where the replica does not hold the transaction.
    pub fn recover(&mut self, id: TransactionId, ballot: u32) -> (r: Result<
        Option<CommandSummary>,
        AccordError,
    >)
        requires
            old(self).wf(),
        ensures
            final(self).wf(),
            final(self)@ == old(self)@.after_recover(id, ballot),
            match r {
                Ok(Some(summary)) => old(self)@.holds(id) && old(self)@.recover_verdict(id, ballot) is Ok
                    && summary@ == summary_of(final(self)@.commands[id]),
                Ok(None) => !old(self)@.holds(id),
                Err(e) => old(self)@.recover_verdict(id, ballot) == Err::<(), AccordError>(e),
            },
    {
        let ghost before = *old(self);
        proof {
            lemma_step_preserves_inv(before@, ReplicaEvent::Recover { id, ballot });
        }
        let i = match self.index_of(id) {
            Some(i) => i,
            None => {
                return Ok(None);
            },
        };
        let r = self.commands[i].promise(ballot);
        proof {
            lemma_table_update(before.commands@, self.commands@, i as int);
            assert(self@.commands =~= before@.after_recover(id, ballot).commands);
            lemma_table_at(self.commands@, i as int);
        }
        match r {
            Err(e) => Err(e),
            Ok(()) => {
                let c = &self.commands[i];
                Ok(
                    Some(
                        CommandSummary {
                            phase: c.phase,
                            proposed_ts: c.proposed_ts,
                            executes_at: c.executes_at,
                            deps: c.deps.duplicate(),
                            ballot: c.ballot,
                        },
                    ),
                )
            },
        }
    }
}

impl Replica {
    /// Whether no two commands are for one transaction.
    fn has_unique_ids(&self) -> (r: bool)
        ensures
            r == unique_ids(self.commands@),
    {
        let mut i: usize = 0;
        while i < self.commands.len()
            invariant
                i <= self.commands.len(),
                forall|a: int, b: int|
                    0 <= a < i && 0 <= b < self.commands.len() && a != b ==> (
                    #[trigger] self.commands[a])@.id != (#[trigger] self.commands[b])@.id,
            decreases self.commands.len() - i,
        {
            let mut j: usize = 0;
            while j < self.commands.len()
                invariant
                    i < self.commands.len(),
                    j <= self.commands.len(),
                    forall|b: int|
                        0 <= b < j && b != i ==> self.commands[i as int]@.id != (
                        #[trigger] self.commands[b])@.id,
                decreases self.commands.len() - j,
            {
                if j != i && self.commands[i].transaction.id == self.commands[j].transaction.id {
                    return false;
                }
                j += 1;
            }
            i += 1;
        }
        true
    }

    /// Whether the command at `i` is well-formed, covered by the marks, and,
    /// if applied, was let by each of its dependencies.
    fn command_is_sound(&self, i: usize) -> (r: bool)
        requires
            unique_ids(self.commands@),
            i < self.commands.len(),
        ensures
            r == {
                let c = self.commands[i as int]@;
                &&& c.wf()
                &&& c.phase.spec_is_decided() ==> c.ts().spec_le(self@.latest_committed)
                &&& c.phase is Applied ==> c.ts().spec_le(self@.latest_applied)
                &&& c.phase is Applied ==> forall|d: TransactionId|
                    c.deps.contains(d) ==> self@.dep_allows_apply(c, d)
            },
    {
        let c = &self.commands[i];
        let formed = match c.phase {
            Phase::PreAccepted => c.executes_at.is_none(),
            _ => c.executes_at.is_some(),
        };
        if !formed {
            return false;
        }
        let ts = c.ts();
        if c.phase.is_decided() && !ts.le(self.log.get_latest_commit_ts()) {
            return false;
        }
        match c.phase {
            Phase::Applied => ts.le(self.log.get_latest_applied_ts()) && self.blocking_dep(
                i,
            ).is_none(),
            _ => true,
        }
    }

    /// Whether this is a replica that the protocol can have led to: what to
    /// ask of a replica that was read back from storage before it is used.
    pub fn is_well_formed(&self) -> (r: bool)
        ensures
            r == self.wf(),
    {
        if !self.has_unique_ids() {
            return false;
        }
        proof {
            lemma_table_keys(self.commands@);
        }
        let mut i: usize = 0;
        while i < self.commands.len()
            invariant
                i <= self.commands.len(),
                unique_ids(self.commands@),
                forall|k: int|
                    0 <= k < i ==> {
                        let c = (#[trigger] self.commands[k])@;
                        &&& c.wf()
                        &&& c.phase.spec_is_decided() ==> c.ts().spec_le(self@.latest_committed)
                        &&& c.phase is Applied ==> c.ts().spec_le(self@.latest_applied)
                        &&& c.phase is Applied ==> forall|d: TransactionId|
                            c.deps.contains(d) ==> self@.dep_allows_apply(c, d)
                    },
            decreases self.commands.len() - i,
        {
            if !self.command_is_sound(i) {
                proof {
                    lemma_table_keys(self.commands@);
                    lemma_table_at(self.commands@, i as int);
                    let id = self.commands[i as int]@.id;
                    let c = self.commands[i as int]@;
                    assert(self@.commands.contains_key(id) && self@.commands[id] == c);
                    if self.wf() {
                        assert(self.commands[i as int].wf());
                        if c.phase is Applied {
                            assert forall|d: TransactionId| c.deps.contains(d) implies self@.dep_allows_apply(
                                c,
                                d,
                            ) by {
                                assert(self@.commands[id].deps.contains(d));
                            }
                        }
                        assert(false);
                    }
                }
                return false;
            }
            i += 1;
        }
        proof {
            lemma_table_keys(self.commands@);
            let v = self@;
            assert forall|id: TransactionId| #[trigger] v.commands.contains_key(id) implies {
                let c = v.commands[id];
                &&& c.wf()
                &&& c.id == id
                &&& c.phase.spec_is_decided() ==> c.ts().spec_le(v.latest_committed)
                &&& c.phase is Applied ==> c.ts().spec_le(v.latest_applied)
                &&& c.phase is Applied ==> forall|d: TransactionId|
                    c.deps.contains(d) ==> v.dep_allows_apply(c, d)
            } by {
                let k = choose|k: int|
                    0 <= k < self.commands.len() && (#[trigger] self.commands@[k])@.id == id;
                lemma_table_at(self.commands@, k);
                assert(self.commands[k]@ == v.commands[id]);
            }
            assert(v.commands_wf());
            assert(v.marks_cover());
            assert(v.applied_in_order()) by {
                assert forall|id: TransactionId, d: TransactionId|
                    #![trigger v.commands[id].deps.contains(d)]
                    v.commands.contains_key(id) && v.commands[id].phase is Applied
                        && v.commands[id].deps.contains(d) implies v.dep_allows_apply(
                    v.commands[id],
                    d,
                ) by {
                    assert(v.commands.contains_key(id));
                }
            }
        }
        true
    }

    /// The replica made of what was read back from storage, if that is a
    /// replica that the protocol can have led to.
    pub fn restore(node_id: NodeId, log: Log, commands: Vec<Command>) -> (replica: Option<Replica>)
        ensures
            replica matches Some(r) ==> r.wf() && r.node_id == node_id && r.log == log
                && r.commands == commands,
            replica is Some <==> (Replica { node_id, log, commands }).wf(),
    {
        let replica = Replica { node_id, log, commands };
        if replica.is_well_formed() {
            Some(replica)
        } else {
            None
        }
    }
}

} // verus!
