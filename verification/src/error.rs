//! The ways in which a step of the protocol can fail.

use vstd::prelude::*;

verus! {

#[derive(Clone, Copy, Debug, PartialEq, Eq, Structural)]
pub enum AccordError {
    /// A message carried a ballot lower than one already accepted for the
    /// transaction. The sender may retry with a higher ballot.
    StaleBallot,
    /// Too few replicas answered. The attempt may be retried.
    QuorumUnavailable,
    /// Two different outcomes were presented as committed for one
    /// transaction. This breaks the protocol's invariant and is never
    /// retried.
    ConflictingFinalization,
    /// The storage engine rejected the effects of a committed transaction.
    /// The transaction stays committed.
    PayloadApplyFailure,
    /// No later timestamp exists: physical time and counter are both at
    /// their greatest value.
    TimestampExhausted,
}

impl AccordError {
    pub open spec fn spec_is_retryable(self) -> bool {
        self is StaleBallot || self is QuorumUnavailable
    }

    /// Whether the caller may try again: with a higher ballot after
    /// `StaleBallot`, as it is after `QuorumUnavailable`.
    pub fn is_retryable(&self) -> (r: bool)
        ensures
            r == self.spec_is_retryable(),
    {
        match self {
            AccordError::StaleBallot => true,
            AccordError::QuorumUnavailable => true,
            AccordError::ConflictingFinalization => false,
            AccordError::PayloadApplyFailure => false,
            AccordError::TimestampExhausted => false,
        }
    }
}

/// Whether a failed attempt is made again: the failure is one that may be
/// retried, and fewer than `max_attempts` attempts have been made.
pub fn should_retry(error: AccordError, attempts: u32, max_attempts: u32) -> (r: bool)
    ensures
        r == (error.spec_is_retryable() && attempts < max_attempts),
{
    error.is_retryable() && attempts < max_attempts
}

/// What the storage engine's answer means for a committed transaction:
/// a rejection is an apply failure. It is reported and changes nothing of
/// the order, which is decided.
pub fn apply_result(engine_accepted: bool) -> (r: Result<(), AccordError>)
    ensures
        r == (if engine_accepted {
            Ok::<(), AccordError>(())
        } else {
            Err::<(), AccordError>(AccordError::PayloadApplyFailure)
        }),
{
    if engine_accepted {
        Ok(())
    } else {
        Err(AccordError::PayloadApplyFailure)
    }
}

} // verus!
