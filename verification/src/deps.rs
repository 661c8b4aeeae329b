//! Sets of transaction identifiers: the transactions that another one must
//! follow.

use crate::transaction::TransactionId;
use vstd::prelude::*;

verus! {

/// A finite set of transaction identifiers. Its view is the set; the order
/// in which the identifiers are stored means nothing.
#[derive(Debug)]
pub struct DepSet {
    pub ids: Vec<TransactionId>,
}

impl View for DepSet {
    type V = Set<TransactionId>;

    open spec fn view(&self) -> Set<TransactionId> {
        Set::new(|id: TransactionId| self.ids@.contains(id))
    }
}

impl DepSet {
    pub fn new() -> (set: DepSet)
        ensures
            set@ == Set::<TransactionId>::empty(),
    {
        let set = DepSet { ids: Vec::new() };
        assert(set@ =~= Set::<TransactionId>::empty());
        set
    }

    /// The set of the identifiers in `ids`.
    pub fn from_vec(ids: Vec<TransactionId>) -> (set: DepSet)
        ensures
            set@ == Set::new(|id: TransactionId| ids@.contains(id)),
    {
        DepSet { ids }
    }

    pub fn contains(&self, id: TransactionId) -> (r: bool)
        ensures
            r == self@.contains(id),
    {
        let mut i: usize = 0;
        while i < self.ids.len()
            invariant
                i <= self.ids.len(),
                forall|j: int| 0 <= j < i ==> self.ids@[j] != id,
            decreases self.ids.len() - i,
        {
            if self.ids[i] == id {
                assert(self.ids@.contains(id));
                return true;
            }
            i += 1;
        }
        false
    }

    pub fn is_empty(&self) -> (r: bool)
        ensures
            r == (self@ == Set::<TransactionId>::empty()),
    {
        if self.ids.len() == 0 {
            assert(self@ =~= Set::<TransactionId>::empty());
            true
        } else {
            assert(self.ids@.contains(self.ids@[0]));
            assert(self@.contains(self.ids@[0]));
            false
        }
    }

    /// Adds `id` to the set.
    pub fn insert(&mut self, id: TransactionId)
        ensures
            final(self)@ == old(self)@.insert(id),
    {
        if !self.contains(id) {
            self.ids.push(id);
            assert forall|x: TransactionId| final(self)@.contains(x) == old(self)@.insert(
                id,
            ).contains(x) by {
                if old(self).ids@.contains(x) {
                    let j = choose|j: int| 0 <= j < old(self).ids@.len() && old(self).ids@[j] == x;
                    assert(self.ids@[j] == x);
                }
                if x == id {
                    assert(self.ids@[self.ids@.len() - 1] == id);
                }
            }
        }
        assert(final(self)@ =~= old(self)@.insert(id));
    }

    /// Adds every identifier of `other` to the set.
    pub fn union_with(&mut self, other: &DepSet)
        ensures
            final(self)@ == old(self)@.union(other@),
    {
        let mut i: usize = 0;
        while i < other.ids.len()
            invariant
                i <= other.ids.len(),
                forall|x: TransactionId|
                    self@.contains(x) <==> old(self)@.contains(x) || exists|j: int|
                        0 <= j < i && other.ids@[j] == x,
            decreases other.ids.len() - i,
        {
            let ghost before = self@;
            self.insert(other.ids[i]);
            assert forall|x: TransactionId|
                self@.contains(x) <==> old(self)@.contains(x) || exists|j: int|
                    0 <= j < i + 1 && other.ids@[j] == x by {
                if before.contains(x) && !old(self)@.contains(x) {
                    let j = choose|j: int| 0 <= j < i && other.ids@[j] == x;
                    assert(0 <= j < i + 1 && other.ids@[j] == x);
                }
                if x == other.ids@[i as int] {
                    assert(0 <= i < i + 1 && other.ids@[i as int] == x);
                }
            }
            i += 1;
        }
        assert forall|x: TransactionId| self@.contains(x) == old(self)@.union(other@).contains(
            x,
        ) by {
            if other@.contains(x) {
                let j = choose|j: int| 0 <= j < other.ids@.len() && other.ids@[j] == x;
                assert(0 <= j < i && other.ids@[j] == x);
            }
        }
        assert(self@ =~= old(self)@.union(other@));
    }

    pub fn is_subset_of(&self, other: &DepSet) -> (r: bool)
        ensures
            r == self@.subset_of(other@),
    {
        let mut i: usize = 0;
        while i < self.ids.len()
            invariant
                i <= self.ids.len(),
                forall|j: int| 0 <= j < i ==> other@.contains(self.ids@[j]),
            decreases self.ids.len() - i,
        {
            if !other.contains(self.ids[i]) {
                assert(self.ids@.contains(self.ids@[i as int]));
                assert(self@.contains(self.ids@[i as int]));
                return false;
            }
            i += 1;
        }
        assert forall|x: TransactionId| self@.contains(x) implies other@.contains(x) by {
            let j = choose|j: int| 0 <= j < self.ids@.len() && self.ids@[j] == x;
            assert(other@.contains(self.ids@[j]));
        }
        true
    }

    /// Whether the two hold the same identifiers.
    pub fn same_as(&self, other: &DepSet) -> (r: bool)
        ensures
            r == (self@ == other@),
    {
        let r = self.is_subset_of(other) && other.is_subset_of(self);
        proof {
            if r {
                assert(self@ =~= other@);
            }
        }
        r
    }

    /// A set with the same identifiers.
    pub fn duplicate(&self) -> (copy: DepSet)
        ensures
            copy@ == self@,
    {
        let mut copy = DepSet::new();
        copy.union_with(self);
        assert(copy@ =~= self@);
        copy
    }
}

impl Clone for DepSet {
    fn clone(&self) -> (copy: DepSet)
        ensures
            copy@ == self@,
    {
        self.duplicate()
    }
}

} // verus!
