//! The consensus record that a replica keeps for one transaction, and the
//! transitions it goes through.

use crate::deps::DepSet;
use crate::error::AccordError;
use crate::timestamp::Timestamp;
use crate::transaction::{Transaction, TransactionId};
use vstd::prelude::*;

verus! {

/// Where a command stands. A command moves forward only: from
/// `PreAccepted` to `Accepted` or straight to `Committed`, from `Accepted`
/// to `Committed`, from `Committed` to `Applied`.
#[derive(Clone, Copy, Debug, PartialEq, Eq, Structural)]
pub enum Phase {
    PreAccepted,
    Accepted,
    Committed,
    Applied,
}

impl Phase {
    pub open spec fn rank(self) -> nat {
        match self {
            Phase::PreAccepted => 0,
            Phase::Accepted => 1,
            Phase::Committed => 2,
            Phase::Applied => 3,
        }
    }

    /// Whether the outcome is decided: the command is committed or applied.
    pub open spec fn spec_is_decided(self) -> bool {
        self is Committed || self is Applied
    }

    /// The steps of the state machine.
    pub open spec fn spec_can_step_to(self, next: Phase) -> bool {
        match self {
            Phase::PreAccepted => next is Accepted || next is Committed,
            Phase::Accepted => next is Committed,
            Phase::Committed => next is Applied,
            Phase::Applied => false,
        }
    }

    pub fn is_decided(&self) -> (r: bool)
        ensures
            r == self.spec_is_decided(),
    {
        match self {
            Phase::Committed => true,
            Phase::Applied => true,
            _ => false,
        }
    }

    pub fn can_step_to(&self, next: &Phase) -> (r: bool)
        ensures
            r == self.spec_can_step_to(*next),
    {
        match (self, next) {
            (Phase::PreAccepted, Phase::Accepted) => true,
            (Phase::PreAccepted, Phase::Committed) => true,
            (Phase::Accepted, Phase::Committed) => true,
            (Phase::Committed, Phase::Applied) => true,
            _ => false,
        }
    }
}

/// What can happen to a command, as a value.
pub enum CommandEvent {
    /// A coordinator proposes a timestamp; the replica has found `deps`.
    PreAccept { proposed_ts: Timestamp, deps: Set<TransactionId>, ballot: u32 },
    /// A coordinator asks to accept a timestamp and dependencies.
    Accept { executes_at: Timestamp, deps: Set<TransactionId>, ballot: u32 },
    /// A decided outcome is announced.
    Commit { executes_at: Timestamp, deps: Set<TransactionId> },
    /// The command's effects have been handed to the storage engine.
    Apply,
    /// A recovering replica announces its ballot and asks for the state.
    Recover { ballot: u32 },
}

/// A command as a value.
pub struct CommandView {
    pub id: TransactionId,
    pub keys: Set<Seq<u8>>,
    pub payload: Seq<u8>,
    pub phase: Phase,
    pub proposed_ts: Timestamp,
    pub executes_at: Option<Timestamp>,
    pub deps: Set<TransactionId>,
    pub ballot: u32,
}

impl CommandView {
    /// A command has an `executes_at` exactly when it has left `PreAccepted`.
    pub open spec fn wf(self) -> bool {
        (self.phase is PreAccepted) <==> (self.executes_at is None)
    }

    /// The timestamp that orders the command: `executes_at` once there is
    /// one, the proposal until then.
    pub open spec fn ts(self) -> Timestamp {
        match self.executes_at {
            Some(t) => t,
            None => self.proposed_ts,
        }
    }

    pub open spec fn conflicts(self, other: CommandView) -> bool {
        !self.keys.disjoint(other.keys)
    }

    /// Whether the event is turned away, and why. A proposal or an accept
    /// request with a ballot under the command's own is stale. A commit that
    /// names another outcome than the one already decided is a conflict.
    pub open spec fn verdict(self, e: CommandEvent) -> Result<(), AccordError> {
        match e {
            CommandEvent::PreAccept { ballot, .. } => if ballot < self.ballot {
                Err(AccordError::StaleBallot)
            } else {
                Ok(())
            },
            CommandEvent::Accept { ballot, .. } => if ballot < self.ballot {
                Err(AccordError::StaleBallot)
            } else {
                Ok(())
            },
            CommandEvent::Commit { executes_at, deps } => if self.phase.spec_is_decided() && !(
            self.executes_at == Some(executes_at) && self.deps == deps) {
                Err(AccordError::ConflictingFinalization)
            } else {
                Ok(())
            },
            CommandEvent::Apply => Ok(()),
            CommandEvent::Recover { ballot } => if ballot < self.ballot {
                Err(AccordError::StaleBallot)
            } else {
                Ok(())
            },
        }
    }

    /// The command after the event. An event that is turned away changes
    /// nothing, and neither does any event that comes again or too late: a
    /// proposal with the ballot the command has already, a proposal or an
    /// accept request once the outcome is decided, a proposal once a
    /// timestamp is accepted (only the ballot is then taken over), a commit
    /// of what is committed already, an apply of a command that is not
    /// committed or is applied already.
    pub open spec fn step(self, e: CommandEvent) -> CommandView {
        if self.verdict(e) is Err {
            self
        } else {
            match e {
                CommandEvent::PreAccept { proposed_ts, deps, ballot } => match self.phase {
                    Phase::PreAccepted => if ballot == self.ballot {
                        self
                    } else {
                        CommandView { proposed_ts, deps: self.deps.union(deps), ballot, ..self }
                    },
                    Phase::Accepted => CommandView { ballot, ..self },
                    _ => self,
                },
                CommandEvent::Accept { executes_at, deps, ballot } => if self.phase.spec_is_decided() {
                    self
                } else {
                    CommandView {
                        phase: Phase::Accepted,
                        executes_at: Some(executes_at),
                        deps: self.deps.union(deps),
                        ballot,
                        ..self
                    }
                },
                CommandEvent::Commit { executes_at, deps } => if self.phase.spec_is_decided() {
                    self
                } else {
                    CommandView {
                        phase: Phase::Committed,
                        executes_at: Some(executes_at),
                        deps,
                        ..self
                    }
                },
                CommandEvent::Apply => if self.phase is Committed {
                    CommandView { phase: Phase::Applied, ..self }
                } else {
                    self
                },
                CommandEvent::Recover { ballot } => if self.phase.spec_is_decided() {
                    self
                } else {
                    CommandView { ballot, ..self }
                },
            }
        }
    }

    /// The command after a sequence of events, first to last.
    pub open spec fn run(self, events: Seq<CommandEvent>) -> CommandView
        decreases events.len(),
    {
        if events.len() == 0 {
            self
        } else {
            self.step(events[0]).run(events.skip(1))
        }
    }
}

/// The record a replica keeps for one transaction.
#[derive(Debug)]
pub struct Command {
    pub transaction: Transaction,
    pub phase: Phase,
    pub proposed_ts: Timestamp,
    pub executes_at: Option<Timestamp>,
    pub deps: DepSet,
    pub ballot: u32,
}

impl View for Command {
    type V = CommandView;

    open spec fn view(&self) -> CommandView {
        CommandView {
            id: self.transaction.id,
            keys: self.transaction.keys@,
            payload: self.transaction.payload@,
            phase: self.phase,
            proposed_ts: self.proposed_ts,
            executes_at: self.executes_at,
            deps: self.deps@,
            ballot: self.ballot,
        }
    }
}

/// What an apply request found.
#[derive(Clone, Copy, Debug, PartialEq, Eq, Structural)]
pub enum ApplyStep {
    /// The command was committed and is now applied.
    Applied,
    /// The command was applied before; nothing changed.
    AlreadyApplied,
    /// The command is not committed yet; nothing changed.
    NotCommitted,
}

impl Command {
    pub open spec fn wf(self) -> bool {
        self@.wf()
    }

    /// The record made on first contact with a transaction: pre-accepted at
    /// the proposed timestamp, with the dependencies found.
    pub fn new(transaction: Transaction, proposed_ts: Timestamp, deps: DepSet, ballot: u32) -> (c:
        Command)
        ensures
            c.wf(),
            c.transaction == transaction,
            c@ == (CommandView {
                id: transaction.id,
                keys: transaction.keys@,
                payload: transaction.payload@,
                phase: Phase::PreAccepted,
                proposed_ts,
                executes_at: None,
                deps: deps@,
                ballot,
            }),
    {
        Command {
            transaction,
            phase: Phase::PreAccepted,
            proposed_ts,
            executes_at: None,
            deps,
            ballot,
        }
    }

    /// Whether the command has an `executes_at` exactly when it has left
    /// `PreAccepted`.
    pub fn is_well_formed(&self) -> (r: bool)
        ensures
            r == self.wf(),
    {
        match self.phase {
            Phase::PreAccepted => self.executes_at.is_none(),
            _ => self.executes_at.is_some(),
        }
    }

    pub fn id(&self) -> (id: TransactionId)
        ensures
            id == self@.id,
    {
        self.transaction.id
    }

    /// The timestamp that orders the command.
    pub fn ts(&self) -> (t: Timestamp)
        ensures
            t == self@.ts(),
    {
        match self.executes_at {
            Some(t) => t,
            None => self.proposed_ts,
        }
    }

    /// Whether the outcome named is the one this command holds.
    pub fn has_outcome(&self, executes_at: &Timestamp, deps: &DepSet) -> (r: bool)
        ensures
            r == (self@.executes_at == Some(*executes_at) && self@.deps == deps@),
    {
        match self.executes_at {
            Some(t) => t == *executes_at && self.deps.same_as(deps),
            None => false,
        }
    }

    /// Takes a proposal. One with a ballot under the command's own is
    /// turned away as stale, and one with the command's own ballot is a
    /// repetition that changes nothing. With a higher ballot, and before a
    /// timestamp is accepted, the proposal and the ballot are taken over and
    /// the dependencies grow by `deps`.
    pub fn pre_accept(&mut self, proposed_ts: Timestamp, deps: DepSet, ballot: u32) -> (r: Result<
        (),
        AccordError,
    >)
        requires
            old(self).wf(),
        ensures
            final(self).wf(),
            final(self).transaction == old(self).transaction,
            r == old(self)@.verdict(
                CommandEvent::PreAccept { proposed_ts, deps: deps@, ballot },
            ),
            final(self)@ == old(self)@.step(
                CommandEvent::PreAccept { proposed_ts, deps: deps@, ballot },
            ),
    {
        if ballot < self.ballot {
            return Err(AccordError::StaleBallot);
        }
        match self.phase {
            Phase::PreAccepted => {
                if ballot != self.ballot {
                    self.proposed_ts = proposed_ts;
                    self.deps.union_with(&deps);
                    self.ballot = ballot;
                }
            },
            Phase::Accepted => {
                self.ballot = ballot;
            },
            _ => {},
        }
        Ok(())
    }

    /// Takes the ballot of a recovering replica. A ballot under the
    /// command's own is turned away as stale. Otherwise, unless the outcome
    /// is decided, the command takes the ballot over, so that messages of
    /// earlier attempts are turned away from now on.
    pub fn promise(&mut self, ballot: u32) -> (r: Result<(), AccordError>)
        requires
            old(self).wf(),
        ensures
            final(self).wf(),
            final(self).transaction == old(self).transaction,
            r == old(self)@.verdict(CommandEvent::Recover { ballot }),
            final(self)@ == old(self)@.step(CommandEvent::Recover { ballot }),
    {
        if ballot < self.ballot {
            return Err(AccordError::StaleBallot);
        }
        if !self.phase.is_decided() {
            self.ballot = ballot;
        }
        Ok(())
    }

    /// Takes an accept request. One with a ballot under the command's own
    /// is turned away as stale. Unless the outcome is decided already, the
    /// command becomes `Accepted` at `executes_at`, and its dependencies
    /// grow by `deps`.
    pub fn accept(&mut self, executes_at: Timestamp, deps: DepSet, ballot: u32) -> (r: Result<
        (),
        AccordError,
    >)
        requires
            old(self).wf(),
        ensures
            final(self).wf(),
            final(self).transaction == old(self).transaction,
            r == old(self)@.verdict(CommandEvent::Accept { executes_at, deps: deps@, ballot }),
            final(self)@ == old(self)@.step(
                CommandEvent::Accept { executes_at, deps: deps@, ballot },
            ),
    {
        if ballot < self.ballot {
            return Err(AccordError::StaleBallot);
        }
        if !self.phase.is_decided() {
            self.phase = Phase::Accepted;
            self.executes_at = Some(executes_at);
            self.deps.union_with(&deps);
            self.ballot = ballot;
        }
        Ok(())
    }

    /// Takes a decided outcome. The command becomes `Committed` with
    /// exactly this timestamp and these dependencies. Where it was decided
    /// before, the same outcome changes nothing and another one is a
    /// `ConflictingFinalization`.
    pub fn commit(&mut self, executes_at: Timestamp, deps: DepSet) -> (r: Result<(), AccordError>)
        requires
            old(self).wf(),
        ensures
            final(self).wf(),
            final(self).transaction == old(self).transaction,
            r == old(self)@.verdict(CommandEvent::Commit { executes_at, deps: deps@ }),
            final(self)@ == old(self)@.step(CommandEvent::Commit { executes_at, deps: deps@ }),
    {
        if self.phase.is_decided() {
            if self.has_outcome(&executes_at, &deps) {
                Ok(())
            } else {
                Err(AccordError::ConflictingFinalization)
            }
        } else {
            self.phase = Phase::Committed;
            self.executes_at = Some(executes_at);
            self.deps = deps;
            Ok(())
        }
    }

    /// Marks a committed command as applied. On any other command it
    /// changes nothing, and says which of the two it found.
    pub fn mark_applied(&mut self) -> (r: ApplyStep)
        requires
            old(self).wf(),
        ensures
            final(self).wf(),
            final(self).transaction == old(self).transaction,
            final(self)@ == old(self)@.step(CommandEvent::Apply),
            r == (match old(self)@.phase {
                Phase::Committed => ApplyStep::Applied,
                Phase::Applied => ApplyStep::AlreadyApplied,
                _ => ApplyStep::NotCommitted,
            }),
    {
        match self.phase {
            Phase::Committed => {
                self.phase = Phase::Applied;
                ApplyStep::Applied
            },
            Phase::Applied => ApplyStep::AlreadyApplied,
            _ => ApplyStep::NotCommitted,
        }
    }
}

/// Whatever the event, a well-formed command stays well-formed, keeps its
/// transaction, and moves by at most the steps of the state machine; its
/// ballot does not decrease.
pub proof fn lemma_step_moves_forward(c: CommandView, e: CommandEvent)
    requires
        c.wf(),
    ensures
        c.step(e).wf(),
        c.step(e).id == c.id,
        c.step(e).keys == c.keys,
        c.step(e).payload == c.payload,
        c.step(e).phase == c.phase || c.phase.spec_can_step_to(c.step(e).phase),
        c.phase.rank() <= c.step(e).phase.rank(),
        c.ballot <= c.step(e).ballot,
{
}

/// Once the outcome is decided, no event changes the timestamp or the
/// dependencies.
pub proof fn lemma_decided_outcome_is_frozen(c: CommandView, e: CommandEvent)
    requires
        c.phase.spec_is_decided(),
    ensures
        c.step(e).phase.spec_is_decided(),
        c.step(e).executes_at == c.executes_at,
        c.step(e).deps == c.deps,
{
}

/// Once the outcome is decided, no sequence of events changes it: messages
/// that are repeated, late or out of order, and commits that name another
/// outcome, all leave the timestamp and the dependencies as they were.
pub proof fn lemma_decided_outcome_is_final(c: CommandView, events: Seq<CommandEvent>)
    requires
        c.phase.spec_is_decided(),
    ensures
        c.run(events).phase.spec_is_decided(),
        c.run(events).executes_at == c.executes_at,
        c.run(events).deps == c.deps,
    decreases events.len(),
{
    if events.len() > 0 {
        lemma_decided_outcome_is_frozen(c, events[0]);
        lemma_decided_outcome_is_final(c.step(events[0]), events.skip(1));
    }
}

/// Until the outcome is decided, the dependencies only grow.
pub proof fn lemma_deps_grow_until_decided(c: CommandView, e: CommandEvent)
    requires
        !c.step(e).phase.spec_is_decided(),
    ensures
        c.deps.subset_of(c.step(e).deps),
{
}

/// Across any sequence of events the phase and the ballot never go back,
/// and the command stays well-formed.
pub proof fn lemma_run_moves_forward(c: CommandView, events: Seq<CommandEvent>)
    requires
        c.wf(),
    ensures
        c.run(events).wf(),
        c.run(events).id == c.id,
        c.phase.rank() <= c.run(events).phase.rank(),
        c.ballot <= c.run(events).ballot,
    decreases events.len(),
{
    if events.len() > 0 {
        lemma_step_moves_forward(c, events[0]);
        lemma_run_moves_forward(c.step(events[0]), events.skip(1));
    }
}

/// A message with a ballot under the command's own changes nothing and is
/// reported as stale.
pub proof fn lemma_stale_ballot_is_fenced(c: CommandView, e: CommandEvent)
    requires
        e matches CommandEvent::PreAccept { ballot, .. } ==> ballot < c.ballot,
        e matches CommandEvent::Accept { ballot, .. } ==> ballot < c.ballot,
        e matches CommandEvent::Recover { ballot } ==> ballot < c.ballot,
        e is PreAccept || e is Accept || e is Recover,
    ensures
        c.verdict(e) == Err::<(), AccordError>(AccordError::StaleBallot),
        c.step(e) == c,
{
}

/// Applying twice is applying once: the second apply changes nothing.
pub proof fn lemma_apply_is_idempotent(c: CommandView)
    ensures
        c.step(CommandEvent::Apply).step(CommandEvent::Apply) == c.step(CommandEvent::Apply),
        c.phase is Applied ==> c.step(CommandEvent::Apply) == c,
{
}

/// Any event delivered twice in a row leaves the command as the event
/// delivered once does.
pub proof fn lemma_duplicate_delivery_is_harmless(c: CommandView, e: CommandEvent)
    requires
        c.wf(),
    ensures
        c.step(e).step(e) == c.step(e),
{
    let d = c.step(e);
    match e {
        CommandEvent::PreAccept { proposed_ts, deps, ballot } => {
            assert(c.deps.union(deps).union(deps) =~= c.deps.union(deps));
        },
        CommandEvent::Accept { executes_at, deps, ballot } => {
            assert(c.deps.union(deps).union(deps) =~= c.deps.union(deps));
        },
        CommandEvent::Commit { executes_at, deps } => {},
        CommandEvent::Apply => {},
        CommandEvent::Recover { ballot } => {},
    }
}

} // verus!
