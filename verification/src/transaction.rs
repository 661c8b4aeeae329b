//! A transaction: what a client submits.

use crate::keys::KeySet;
use vstd::prelude::*;

verus! {

/// Chosen by the client. It tells resubmissions of one transaction from
/// different transactions, and has no part in the order.
pub type TransactionId = u64;

/// The keys a transaction declares, its identifier and the operation that
/// the storage engine is handed when the transaction applies.
#[derive(Clone, Debug)]
pub struct Transaction {
    pub id: TransactionId,
    pub keys: KeySet,
    pub payload: Vec<u8>,
}

/// A transaction as a value: its identifier, the set of keys it declares
/// and the bytes of its operation.
pub struct TransactionView {
    pub id: TransactionId,
    pub keys: Set<Seq<u8>>,
    pub payload: Seq<u8>,
}

impl View for Transaction {
    type V = TransactionView;

    open spec fn view(&self) -> TransactionView {
        TransactionView { id: self.id, keys: self.keys@, payload: self.payload@ }
    }
}

impl Transaction {
    pub fn new(id: TransactionId, keys: KeySet, payload: Vec<u8>) -> (tx: Transaction)
        ensures
            tx.id == id,
            tx.keys == keys,
            tx.payload == payload,
    {
        Transaction { id, keys, payload }
    }

    /// Two transactions conflict when their key sets intersect.
    pub open spec fn spec_conflicts(self, other: Transaction) -> bool {
        !self@.keys.disjoint(other@.keys)
    }

    /// Whether the two transactions declare a common key.
    pub fn conflicts_with(&self, other: &Transaction) -> (r: bool)
        ensures
            r == self.spec_conflicts(*other),
    {
        self.keys.conflicts_with(&other.keys)
    }
}

} // verus!
