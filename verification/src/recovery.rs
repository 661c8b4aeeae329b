//! Recovery: what a replica decides for a transaction whose coordinator is
//! presumed gone, from what the other replicas report of it.

use crate::command::Phase;
use crate::deps::DepSet;
use crate::error::AccordError;
use crate::quorum::Quorums;
use crate::replica::CommandSummary;
use crate::timestamp::Timestamp;
use crate::transaction::TransactionId;
use vstd::prelude::*;

verus! {

/// What the recovering replica is to do.
#[derive(Debug)]
pub enum RecoveryDecision {
    /// A replica holds a decided outcome: announce that commit again.
    PropagateCommit { executes_at: Timestamp, deps: DepSet },
    /// A majority holds the same accepted state: commit it.
    CommitAccepted { executes_at: Timestamp, deps: DepSet },
    /// The proposal may have committed on the fast path: propose the same
    /// timestamp again, under the new ballot.
    RetryPreAccept { proposed_ts: Timestamp },
    /// Nothing binds the outcome: start over with a new proposal, under
    /// the new ballot.
    Restart,
}

pub enum RecoveryDecisionView {
    PropagateCommit { executes_at: Timestamp, deps: Set<TransactionId> },
    CommitAccepted { executes_at: Timestamp, deps: Set<TransactionId> },
    RetryPreAccept { proposed_ts: Timestamp },
    Restart,
}

impl View for RecoveryDecision {
    type V = RecoveryDecisionView;

    open spec fn view(&self) -> RecoveryDecisionView {
        match self {
            RecoveryDecision::PropagateCommit { executes_at, deps } => RecoveryDecisionView::PropagateCommit {
                executes_at: *executes_at,
                deps: deps@,
            },
            RecoveryDecision::CommitAccepted { executes_at, deps } => RecoveryDecisionView::CommitAccepted {
                executes_at: *executes_at,
                deps: deps@,
            },
            RecoveryDecision::RetryPreAccept { proposed_ts } => RecoveryDecisionView::RetryPreAccept {
                proposed_ts: *proposed_ts,
            },
            RecoveryDecision::Restart => RecoveryDecisionView::Restart,
        }
    }
}

/// The replies of the replicas asked, one each: `None` from a replica that
/// does not hold the transaction.
pub type Replies = Seq<Option<CommandSummary>>;

/// Whether reply `i` reports a decided outcome.
pub open spec fn decided_at(replies: Replies, i: int) -> bool {
    &&& 0 <= i < replies.len()
    &&& replies[i] matches Some(s) && s.phase.spec_is_decided() && s.executes_at is Some
}

/// Whether reply `i` reports an accepted timestamp.
pub open spec fn accepted_at(replies: Replies, i: int) -> bool {
    &&& 0 <= i < replies.len()
    &&& replies[i] matches Some(s) && s.phase is Accepted && s.executes_at is Some
}

/// Whether reply `i` reports a pre-accepted command.
pub open spec fn pre_accepted_at(replies: Replies, i: int) -> bool {
    &&& 0 <= i < replies.len()
    &&& replies[i] matches Some(s) && s.phase is PreAccepted
}

pub open spec fn same_outcome(a: CommandSummary, b: CommandSummary) -> bool {
    a.executes_at == b.executes_at && a.deps@ == b.deps@
}

/// Whether two replies report different decided outcomes.
pub open spec fn decided_disagree(replies: Replies) -> bool {
    exists|i: int, j: int|
        decided_at(replies, i) && decided_at(replies, j) && !same_outcome(
            replies[i].unwrap(),
            replies[j].unwrap(),
        )
}

/// How many of the first `n` replies report the accepted state of `s`.
pub open spec fn count_accepted_like(replies: Replies, s: CommandSummary, n: int) -> nat
    decreases n,
{
    if n <= 0 {
        0
    } else {
        count_accepted_like(replies, s, n - 1) + if accepted_at(replies, n - 1) && same_outcome(
            replies[n - 1].unwrap(),
            s,
        ) {
            1nat
        } else {
            0nat
        }
    }
}

/// Whether reply `i` reports an accepted state that a majority of the
/// group reports.
pub open spec fn accepted_majority_at(replies: Replies, quorums: Quorums, i: int) -> bool {
    accepted_at(replies, i) && count_accepted_like(
        replies,
        replies[i].unwrap(),
        replies.len() as int,
    ) >= quorums.majority()
}

/// Whether reply `i` reports a pre-accepted command that fits a fast-path
/// outcome: every pre-accepted reply has its proposed timestamp, and its
/// dependencies hold those of every one of them.
pub open spec fn fast_candidate_at(replies: Replies, i: int) -> bool {
    &&& pre_accepted_at(replies, i)
    &&& forall|j: int|
        pre_accepted_at(replies, j) ==> (#[trigger] replies[j]).unwrap().proposed_ts
            == replies[i].unwrap().proposed_ts && replies[j].unwrap().deps@.subset_of(
            replies[i].unwrap().deps@,
        )
}

/// Whether `i` is the first reply that reports a decided outcome.
pub open spec fn is_first_decided(replies: Replies, i: int) -> bool {
    decided_at(replies, i) && forall|j: int| 0 <= j < i ==> !decided_at(replies, j)
}

/// Whether `i` is the first reply whose accepted state a majority reports.
pub open spec fn is_first_accepted_majority(replies: Replies, quorums: Quorums, i: int) -> bool {
    accepted_majority_at(replies, quorums, i) && forall|j: int|
        0 <= j < i ==> !accepted_majority_at(replies, quorums, j)
}

/// Whether `i` is the first reply that fits a fast-path outcome.
pub open spec fn is_first_fast_candidate(replies: Replies, i: int) -> bool {
    fast_candidate_at(replies, i) && forall|j: int| 0 <= j < i ==> !fast_candidate_at(replies, j)
}

pub open spec fn first_decided(replies: Replies) -> int {
    choose|i: int| is_first_decided(replies, i)
}

pub open spec fn first_accepted_majority(replies: Replies, quorums: Quorums) -> int {
    choose|i: int| is_first_accepted_majority(replies, quorums, i)
}

pub open spec fn first_fast_candidate(replies: Replies) -> int {
    choose|i: int| is_first_fast_candidate(replies, i)
}

/// The decision rule.
///
/// Fewer replies than a majority of the group decide nothing. Otherwise,
/// in this order: a decided outcome that some reply reports is adopted,
/// unless two replies report different ones, which is a
/// `ConflictingFinalization`; an accepted state that a majority reports is
/// committed; a pre-accepted proposal that fits a fast-path outcome is
/// proposed again; and failing all that the protocol starts over. Where
/// several replies qualify, the first of them is taken.
pub open spec fn spec_decide(replies: Replies, quorums: Quorums) -> Result<
    RecoveryDecisionView,
    AccordError,
> {
    if replies.len() < quorums.majority() {
        Err(AccordError::QuorumUnavailable)
    } else if exists|i: int| decided_at(replies, i) {
        if decided_disagree(replies) {
            Err(AccordError::ConflictingFinalization)
        } else {
            let s = replies[first_decided(replies)].unwrap();
            Ok(
                RecoveryDecisionView::PropagateCommit {
                    executes_at: s.executes_at.unwrap(),
                    deps: s.deps@,
                },
            )
        }
    } else if exists|i: int| accepted_majority_at(replies, quorums, i) {
        let s = replies[first_accepted_majority(replies, quorums)].unwrap();
        Ok(
            RecoveryDecisionView::CommitAccepted {
                executes_at: s.executes_at.unwrap(),
                deps: s.deps@,
            },
        )
    } else if exists|i: int| fast_candidate_at(replies, i) {
        let s = replies[first_fast_candidate(replies)].unwrap();
        Ok(RecoveryDecisionView::RetryPreAccept { proposed_ts: s.proposed_ts })
    } else {
        Ok(RecoveryDecisionView::Restart)
    }
}

/// The first reply of each kind is determined.
pub proof fn lemma_first_is_unique(replies: Replies, quorums: Quorums, i: int)
    ensures
        is_first_decided(replies, i) ==> first_decided(replies) == i,
        is_first_accepted_majority(replies, quorums, i) ==> first_accepted_majority(
            replies,
            quorums,
        ) == i,
        is_first_fast_candidate(replies, i) ==> first_fast_candidate(replies) == i,
{
    if is_first_decided(replies, i) {
        let c = first_decided(replies);
        assert(is_first_decided(replies, c));
        if c < i {
            assert(!decided_at(replies, c));
        }
        if i < c {
            assert(!decided_at(replies, i));
        }
    }
    if is_first_accepted_majority(replies, quorums, i) {
        let c = first_accepted_majority(replies, quorums);
        assert(is_first_accepted_majority(replies, quorums, c));
        if c < i {
            assert(!accepted_majority_at(replies, quorums, c));
        }
        if i < c {
            assert(!accepted_majority_at(replies, quorums, i));
        }
    }
    if is_first_fast_candidate(replies, i) {
        let c = first_fast_candidate(replies);
        assert(is_first_fast_candidate(replies, c));
        if c < i {
            assert(!fast_candidate_at(replies, c));
        }
        if i < c {
            assert(!fast_candidate_at(replies, i));
        }
    }
}

/// Where some reply reports a decided outcome and no two replies report
/// different ones, recovery adopts that outcome, whichever reply reports
/// it and in whatever order the replies stand.
pub proof fn lemma_recovery_adopts_decided_outcome(replies: Replies, quorums: Quorums, i: int)
    requires
        replies.len() >= quorums.majority(),
        decided_at(replies, i),
        !decided_disagree(replies),
    ensures
        spec_decide(replies, quorums) == Ok::<RecoveryDecisionView, AccordError>(
            RecoveryDecisionView::PropagateCommit {
                executes_at: replies[i].unwrap().executes_at.unwrap(),
                deps: replies[i].unwrap().deps@,
            },
        ),
{
    lemma_first_decided_exists(replies, i);
    let c = first_decided(replies);
    assert(is_first_decided(replies, c));
    assert(same_outcome(replies[c].unwrap(), replies[i].unwrap()));
}

/// Where a reply reports a decided outcome, there is a first such reply.
proof fn lemma_first_decided_exists(replies: Replies, i: int)
    requires
        decided_at(replies, i),
    ensures
        exists|c: int| is_first_decided(replies, c),
    decreases i,
{
    if exists|j: int| 0 <= j < i && decided_at(replies, j) {
        let j = choose|j: int| 0 <= j < i && decided_at(replies, j);
        lemma_first_decided_exists(replies, j);
    } else {
        assert(is_first_decided(replies, i));
    }
}

/// Two accepted states that differ are reported by at most `n` of the
/// first `n` replies together.
proof fn lemma_unlike_counts_are_disjoint(replies: Replies, a: CommandSummary, b: CommandSummary, n: int)
    requires
        !same_outcome(a, b),
        0 <= n <= replies.len(),
    ensures
        count_accepted_like(replies, a, n) + count_accepted_like(replies, b, n) <= n,
    decreases n,
{
    if n > 0 {
        lemma_unlike_counts_are_disjoint(replies, a, b, n - 1);
    }
}

/// With one reply from each replica at most, only one accepted state can
/// be reported by a majority.
pub proof fn lemma_accepted_majority_is_unique(replies: Replies, quorums: Quorums, i: int, j: int)
    requires
        quorums.wf(),
        replies.len() <= quorums.replicas,
        accepted_majority_at(replies, quorums, i),
        accepted_majority_at(replies, quorums, j),
    ensures
        same_outcome(replies[i].unwrap(), replies[j].unwrap()),
{
    if !same_outcome(replies[i].unwrap(), replies[j].unwrap()) {
        lemma_unlike_counts_are_disjoint(
            replies,
            replies[i].unwrap(),
            replies[j].unwrap(),
            replies.len() as int,
        );
    }
}

/// Recovery decides nothing on fewer replies than a majority, and always
/// decides on a majority or more unless two decided outcomes differ.
pub proof fn lemma_recovery_needs_majority(replies: Replies, quorums: Quorums)
    ensures
        replies.len() < quorums.majority() <==> spec_decide(replies, quorums) == Err::<
            RecoveryDecisionView,
            AccordError,
        >(AccordError::QuorumUnavailable),
        spec_decide(replies, quorums) is Err ==> replies.len() < quorums.majority()
            || decided_disagree(replies),
{
}

fn is_decided_reply(reply: &Option<CommandSummary>) -> (r: bool)
    ensures
        r == (reply matches Some(s) && s.phase.spec_is_decided() && s.executes_at is Some),
{
    match reply {
        Some(s) => s.phase.is_decided() && s.executes_at.is_some(),
        None => false,
    }
}

fn is_accepted_reply(reply: &Option<CommandSummary>) -> (r: bool)
    ensures
        r == (reply matches Some(s) && s.phase is Accepted && s.executes_at is Some),
{
    match reply {
        Some(s) => match s.phase {
            Phase::Accepted => s.executes_at.is_some(),
            _ => false,
        },
        None => false,
    }
}

fn is_pre_accepted_reply(reply: &Option<CommandSummary>) -> (r: bool)
    ensures
        r == (reply matches Some(s) && s.phase is PreAccepted),
{
    match reply {
        Some(s) => match s.phase {
            Phase::PreAccepted => true,
            _ => false,
        },
        None => false,
    }
}

fn outcomes_match(a: &CommandSummary, b: &CommandSummary) -> (r: bool)
    ensures
        r == same_outcome(*a, *b),
{
    let same_ts = match (a.executes_at, b.executes_at) {
        (Some(x), Some(y)) => x == y,
        (None, None) => true,
        _ => false,
    };
    same_ts && a.deps.same_as(&b.deps)
}

/// The first reply that reports a decided outcome, with where it stands
/// and its timestamp.
fn find_decided(replies: &Vec<Option<CommandSummary>>) -> (found: Option<
    (usize, &CommandSummary, Timestamp),
>)
    ensures
        found matches Some((i, s, t)) ==> is_first_decided(replies@, i as int) && replies@[i as int]
            == Some(*s) && s.executes_at == Some(t),
        found is None ==> forall|k: int| !decided_at(replies@, k),
{
    let mut i: usize = 0;
    while i < replies.len()
        invariant
            i <= replies.len(),
            forall|k: int| 0 <= k < i ==> !decided_at(replies@, k),
        decreases replies.len() - i,
    {
        match &replies[i] {
            Some(s) => {
                if s.phase.is_decided() {
                    match s.executes_at {
                        Some(t) => {
                            return Some((i, s, t));
                        },
                        None => {},
                    }
                }
            },
            None => {},
        }
        i += 1;
    }
    None
}

/// Whether every decided reply reports the outcome of reply `i`.
fn decided_all_match(replies: &Vec<Option<CommandSummary>>, i: usize) -> (r: bool)
    requires
        decided_at(replies@, i as int),
    ensures
        r == !decided_disagree(replies@),
{
    let mut j: usize = 0;
    while j < replies.len()
        invariant
            j <= replies.len(),
            decided_at(replies@, i as int),
            forall|k: int|
                0 <= k < j && decided_at(replies@, k) ==> same_outcome(
                    (#[trigger] replies@[k]).unwrap(),
                    replies@[i as int].unwrap(),
                ),
        decreases replies.len() - j,
    {
        if is_decided_reply(&replies[j]) {
            let same = match (&replies[j], &replies[i]) {
                (Some(a), Some(b)) => outcomes_match(a, b),
                _ => false,
            };
            if !same {
                assert(decided_at(replies@, j as int) && decided_at(replies@, i as int));
                return false;
            }
        }
        j += 1;
    }
    proof {
        if decided_disagree(replies@) {
            let (a, b) = choose|a: int, b: int|
                decided_at(replies@, a) && decided_at(replies@, b) && !same_outcome(
                    replies@[a].unwrap(),
                    replies@[b].unwrap(),
                );
            assert(same_outcome(replies@[a].unwrap(), replies@[i as int].unwrap()));
            assert(same_outcome(replies@[b].unwrap(), replies@[i as int].unwrap()));
        }
    }
    true
}

/// How many replies report the accepted state of reply `i`.
fn count_like(replies: &Vec<Option<CommandSummary>>, i: usize) -> (n: usize)
    requires
        accepted_at(replies@, i as int),
    ensures
        n == count_accepted_like(replies@, replies@[i as int].unwrap(), replies@.len() as int),
{
    let mut n: usize = 0;
    let mut j: usize = 0;
    while j < replies.len()
        invariant
            j <= replies.len(),
            n <= j,
            accepted_at(replies@, i as int),
            n == count_accepted_like(replies@, replies@[i as int].unwrap(), j as int),
        decreases replies.len() - j,
    {
        if is_accepted_reply(&replies[j]) {
            let same = match (&replies[j], &replies[i]) {
                (Some(a), Some(b)) => outcomes_match(a, b),
                _ => false,
            };
            if same {
                n += 1;
            }
        }
        j += 1;
    }
    n
}

/// The first reply that reports an accepted state which a majority
/// reports, with its timestamp.
fn find_accepted_majority<'a>(replies: &'a Vec<Option<CommandSummary>>, quorums: &Quorums) -> (found:
    Option<(&'a CommandSummary, Timestamp)>)
    requires
        quorums.wf(),
    ensures
        found matches Some((s, t)) ==> exists|i: int|
            is_first_accepted_majority(replies@, *quorums, i) && replies@[i] == Some(*s)
                && s.executes_at == Some(t),
        found is None ==> forall|k: int| !accepted_majority_at(replies@, *quorums, k),
{
    let mut i: usize = 0;
    while i < replies.len()
        invariant
            i <= replies.len(),
            quorums.wf(),
            forall|k: int| 0 <= k < i ==> !accepted_majority_at(replies@, *quorums, k),
        decreases replies.len() - i,
    {
        if is_accepted_reply(&replies[i]) {
            let n = count_like(replies, i);
            if quorums.is_majority(n) {
                match &replies[i] {
                    Some(s) => match s.executes_at {
                        Some(t) => {
                            assert(is_first_accepted_majority(replies@, *quorums, i as int));
                            return Some((s, t));
                        },
                        None => {},
                    },
                    None => {},
                }
            }
        }
        i += 1;
    }
    None
}

/// Whether reply `i` fits a fast-path outcome.
fn fits_fast_path(replies: &Vec<Option<CommandSummary>>, i: usize) -> (r: bool)
    requires
        pre_accepted_at(replies@, i as int),
    ensures
        r == fast_candidate_at(replies@, i as int),
{
    let mut j: usize = 0;
    while j < replies.len()
        invariant
            j <= replies.len(),
            pre_accepted_at(replies@, i as int),
            forall|k: int|
                0 <= k < j && pre_accepted_at(replies@, k) ==> (
                #[trigger] replies@[k]).unwrap().proposed_ts
                    == replies@[i as int].unwrap().proposed_ts
                    && replies@[k].unwrap().deps@.subset_of(replies@[i as int].unwrap().deps@),
        decreases replies.len() - j,
    {
        if is_pre_accepted_reply(&replies[j]) {
            let fits = match (&replies[j], &replies[i]) {
                (Some(a), Some(b)) => a.proposed_ts == b.proposed_ts && a.deps.is_subset_of(&b.deps),
                _ => false,
            };
            if !fits {
                assert(pre_accepted_at(replies@, j as int));
                return false;
            }
        }
        j += 1;
    }
    true
}

/// The first reply that fits a fast-path outcome.
fn find_fast_candidate(replies: &Vec<Option<CommandSummary>>) -> (found: Option<&CommandSummary>)
    ensures
        found matches Some(s) ==> exists|i: int|
            is_first_fast_candidate(replies@, i) && replies@[i] == Some(*s),
        found is None ==> forall|k: int| !fast_candidate_at(replies@, k),
{
    let mut i: usize = 0;
    while i < replies.len()
        invariant
            i <= replies.len(),
            forall|k: int| 0 <= k < i ==> !fast_candidate_at(replies@, k),
        decreases replies.len() - i,
    {
        match &replies[i] {
            Some(s) => {
                if is_pre_accepted_reply(&replies[i]) && fits_fast_path(replies, i) {
                    assert(is_first_fast_candidate(replies@, i as int));
                    return Some(s);
                }
            },
            None => {},
        }
        i += 1;
    }
    None
}

/// Decides what to do for a stalled transaction from the replies of the
/// replicas asked.
pub fn decide_recovery(replies: &Vec<Option<CommandSummary>>, quorums: &Quorums) -> (r: Result<
    RecoveryDecision,
    AccordError,
>)
    requires
        quorums.wf(),
    ensures
        match r {
            Ok(decision) => spec_decide(replies@, *quorums) == Ok::<
                RecoveryDecisionView,
                AccordError,
            >(decision@),
            Err(e) => spec_decide(replies@, *quorums) == Err::<RecoveryDecisionView, AccordError>(e),
        },
{
    if !quorums.is_majority(replies.len()) {
        return Err(AccordError::QuorumUnavailable);
    }
    match find_decided(replies) {
        Some((i, s, executes_at)) => {
            proof {
                lemma_first_is_unique(replies@, *quorums, i as int);
            }
            if !decided_all_match(replies, i) {
                return Err(AccordError::ConflictingFinalization);
            }
            return Ok(RecoveryDecision::PropagateCommit { executes_at, deps: s.deps.duplicate() });
        },
        None => {},
    }
    match find_accepted_majority(replies, quorums) {
        Some((s, executes_at)) => {
            proof {
                let i = choose|i: int|
                    is_first_accepted_majority(replies@, *quorums, i) && replies@[i] == Some(*s)
                        && s.executes_at == Some(executes_at);
                lemma_first_is_unique(replies@, *quorums, i);
            }
            return Ok(RecoveryDecision::CommitAccepted { executes_at, deps: s.deps.duplicate() });
        },
        None => {},
    }
    match find_fast_candidate(replies) {
        Some(s) => {
            proof {
                let i = choose|i: int|
                    is_first_fast_candidate(replies@, i) && replies@[i] == Some(*s);
                lemma_first_is_unique(replies@, *quorums, i);
            }
            Ok(RecoveryDecision::RetryPreAccept { proposed_ts: s.proposed_ts })
        },
        None => Ok(RecoveryDecision::Restart),
    }
}

/// The ballot of the next attempt: one more than `ballot`. `None` where
/// there is no greater ballot.
pub fn next_ballot(ballot: u32) -> (next: Option<u32>)
    ensures
        next == (if ballot < u32::MAX {
            Some((ballot + 1) as u32)
        } else {
            None
        }),
        next matches Some(b) ==> b > ballot,
{
    if ballot < u32::MAX {
        Some(ballot + 1)
    } else {
        None
    }
}

/// Whether a command has stalled: it is neither committed nor applied, and
/// has waited longer than the timeout.
pub fn is_stalled(phase: Phase, waited: u64, timeout: u64) -> (r: bool)
    ensures
        r == (!phase.spec_is_decided() && waited > timeout),
{
    !phase.is_decided() && waited > timeout
}

} // verus!
