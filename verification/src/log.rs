//! The high-water marks of a replica: the latest timestamp it has seen
//! committed and the latest it has seen applied.

use crate::error::AccordError;
use crate::timestamp::Timestamp;
use crate::transaction::Transaction;
use vstd::prelude::*;

verus! {

#[derive(Debug)]
pub struct Log {
    latest_committed: Timestamp,
    latest_applied: Timestamp,
}

/// One write to the log, as a value: which mark it is for, and the
/// timestamp written.
pub enum LogWrite {
    Committed(Timestamp),
    Applied(Timestamp),
}

impl Log {
    pub closed spec fn latest_committed(self) -> Timestamp {
        self.latest_committed
    }

    pub closed spec fn latest_applied(self) -> Timestamp {
        self.latest_applied
    }

    /// The log that has the two marks given.
    pub closed spec fn with_marks(committed: Timestamp, applied: Timestamp) -> Log {
        Log { latest_committed: committed, latest_applied: applied }
    }

    /// The log after one write: the mark written moves up to the timestamp
    /// if that is later, and the other mark stays.
    pub open spec fn after(self, w: LogWrite) -> Log {
        match w {
            LogWrite::Committed(ts) => Log::with_marks(
                self.latest_committed().spec_max(ts),
                self.latest_applied(),
            ),
            LogWrite::Applied(ts) => Log::with_marks(
                self.latest_committed(),
                self.latest_applied().spec_max(ts),
            ),
        }
    }

    /// The log after a sequence of writes, first to last.
    pub open spec fn after_all(self, ws: Seq<LogWrite>) -> Log
        decreases ws.len(),
    {
        if ws.len() == 0 {
            self
        } else {
            self.after(ws[0]).after_all(ws.skip(1))
        }
    }

    /// A log with both marks at the least timestamp.
    pub fn new() -> (log: Log)
        ensures
            log.latest_committed() == Timestamp::spec_zero(),
            log.latest_applied() == Timestamp::spec_zero(),
    {
        Log { latest_applied: Timestamp::zero(), latest_committed: Timestamp::zero() }
    }

    /// The timestamp of the latest commit written.
    pub fn get_latest_commit_ts(&self) -> (ts: &Timestamp)
        ensures
            *ts == self.latest_committed(),
    {
        &self.latest_committed
    }

    /// The timestamp of the latest apply written.
    pub fn get_latest_applied_ts(&self) -> (ts: &Timestamp)
        ensures
            *ts == self.latest_applied(),
    {
        &self.latest_applied
    }

    /// Records that `tx` committed at `ts`. The mark moves only forward, so
    /// a write that is replayed or arrives late changes nothing.
    pub fn write_committed(&mut self, tx: &Transaction, ts: &Timestamp) -> (r: Result<
        (),
        AccordError,
    >)
        ensures
            r is Ok,
            *final(self) == old(self).after(LogWrite::Committed(*ts)),
            final(self).latest_committed() == old(self).latest_committed().spec_max(*ts),
            final(self).latest_applied() == old(self).latest_applied(),
    {
        if self.latest_committed.lt(ts) {
            self.latest_committed = *ts;
        }
        Ok(())
    }

    /// Records that `tx` applied at `ts`. The mark moves only forward.
    pub fn write_applied(&mut self, tx: &Transaction, ts: &Timestamp) -> (r: Result<
        (),
        AccordError,
    >)
        ensures
            r is Ok,
            *final(self) == old(self).after(LogWrite::Applied(*ts)),
            final(self).latest_applied() == old(self).latest_applied().spec_max(*ts),
            final(self).latest_committed() == old(self).latest_committed(),
    {
        if self.latest_applied.lt(ts) {
            self.latest_applied = *ts;
        }
        Ok(())
    }
}

/// Neither mark decreases by a write, whatever it writes.
pub proof fn lemma_write_is_monotonic(log: Log, w: LogWrite)
    ensures
        log.latest_committed().spec_le(log.after(w).latest_committed()),
        log.latest_applied().spec_le(log.after(w).latest_applied()),
{
}

/// Neither mark decreases across any sequence of writes, in whatever order
/// they come and however often one is repeated.
pub proof fn lemma_marks_never_decrease(log: Log, ws: Seq<LogWrite>)
    ensures
        log.latest_committed().spec_le(log.after_all(ws).latest_committed()),
        log.latest_applied().spec_le(log.after_all(ws).latest_applied()),
    decreases ws.len(),
{
    if ws.len() > 0 {
        lemma_write_is_monotonic(log, ws[0]);
        lemma_marks_never_decrease(log.after(ws[0]), ws.skip(1));
    }
}

/// A write made twice leaves the log as the write made once does.
pub proof fn lemma_write_is_idempotent(log: Log, w: LogWrite)
    ensures
        log.after(w).after(w) == log.after(w),
{
}

/// Two writes leave the same log in either order.
pub proof fn lemma_writes_commute(log: Log, w1: LogWrite, w2: LogWrite)
    ensures
        log.after(w1).after(w2) == log.after(w2).after(w1),
{
}

/// After a sequence of writes each mark is at least every timestamp that
/// was written to it.
pub proof fn lemma_marks_cover_writes(log: Log, ws: Seq<LogWrite>, i: int)
    requires
        0 <= i < ws.len(),
    ensures
        ws[i] matches LogWrite::Committed(ts) ==> ts.spec_le(log.after_all(ws).latest_committed()),
        ws[i] matches LogWrite::Applied(ts) ==> ts.spec_le(log.after_all(ws).latest_applied()),
    decreases ws.len(),
{
    if i == 0 {
        lemma_marks_never_decrease(log.after(ws[0]), ws.skip(1));
    } else {
        lemma_marks_cover_writes(log.after(ws[0]), ws.skip(1), i - 1);
    }
}

} // verus!
