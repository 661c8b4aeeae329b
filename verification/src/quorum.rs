//! Quorums: how many replicas have to answer, and why two quorums always
//! share a replica.

use crate::timestamp::NodeId;
use vstd::prelude::*;

verus! {

/// The least number of replicas that is more than half of `n`.
pub open spec fn spec_majority(n: nat) -> nat {
    n / 2 + 1
}

/// The size of a replica group and of its fast quorum.
#[derive(Clone, Copy, Debug, PartialEq, Eq, Structural)]
pub struct Quorums {
    pub replicas: usize,
    pub fast: usize,
}

impl Quorums {
    /// There is at least one replica, and the fast quorum is at least a
    /// majority and at most all of them.
    pub open spec fn wf(self) -> bool {
        &&& 1 <= self.replicas
        &&& spec_majority(self.replicas as nat) <= self.fast <= self.replicas
    }

    pub open spec fn majority(self) -> nat {
        spec_majority(self.replicas as nat)
    }

    /// The quorums of a group of `replicas` with a fast quorum of `fast`.
    /// `None` unless there is a replica and `fast` is at least a majority
    /// and at most `replicas`.
    pub fn new(replicas: usize, fast: usize) -> (q: Option<Quorums>)
        ensures
            q is Some <==> (Quorums { replicas, fast }).wf(),
            q matches Some(quorums) ==> quorums == (Quorums { replicas, fast }),
    {
        if replicas >= 1 && fast <= replicas && replicas / 2 + 1 <= fast {
            Some(Quorums { replicas, fast })
        } else {
            None
        }
    }

    /// The quorums of a group in which the fast quorum is a majority.
    pub fn simple(replicas: usize) -> (q: Option<Quorums>)
        ensures
            q is Some <==> replicas >= 1,
            q matches Some(quorums) ==> quorums.wf() && quorums.replicas == replicas
                && quorums.fast == spec_majority(replicas as nat),
    {
        if replicas >= 1 {
            Some(Quorums { replicas, fast: replicas / 2 + 1 })
        } else {
            None
        }
    }

    /// Whether these are quorums of a group: there is a replica, and the
    /// fast quorum is at least a majority and at most the group.
    pub fn is_valid(&self) -> (r: bool)
        ensures
            r == self.wf(),
    {
        self.replicas >= 1 && self.fast <= self.replicas && self.replicas / 2 + 1 <= self.fast
    }

    /// The size of a simple majority.
    pub fn majority_size(&self) -> (m: usize)
        requires
            self.wf(),
        ensures
            m == self.majority(),
            2 * m > self.replicas,
            m <= self.fast,
    {
        self.replicas / 2 + 1
    }

    pub fn is_majority(&self, count: usize) -> (r: bool)
        requires
            self.wf(),
        ensures
            r == (count >= self.majority()),
    {
        count >= self.replicas / 2 + 1
    }

    pub fn is_fast_quorum(&self, count: usize) -> (r: bool)
        requires
            self.wf(),
        ensures
            r == (count >= self.fast),
            r ==> count >= self.majority(),
    {
        count >= self.fast
    }
}

/// Any two majorities of one group share a replica. So do a fast quorum
/// and a majority, a fast quorum being at least a majority.
pub proof fn lemma_majorities_intersect(group: Set<NodeId>, a: Set<NodeId>, b: Set<NodeId>)
    requires
        group.finite(),
        a.subset_of(group),
        b.subset_of(group),
        a.len() >= spec_majority(group.len()),
        b.len() >= spec_majority(group.len()),
    ensures
        exists|node: NodeId| a.contains(node) && b.contains(node),
{
    vstd::set_lib::lemma_len_subset(a, group);
    vstd::set_lib::lemma_len_subset(b, group);
    vstd::set_lib::lemma_set_intersect_union_lens(a, b);
    assert((a + b).subset_of(group));
    vstd::set_lib::lemma_len_subset(a + b, group);
    let both = a.intersect(b);
    assert(both.len() >= 1);
    assert(both.finite());
    assert(both.contains(both.choose()));
    assert(a.contains(both.choose()) && b.contains(both.choose()));
}

/// A finite set of replicas, with its size.
#[derive(Debug)]
pub struct NodeSet {
    pub ids: Vec<NodeId>,
}

impl View for NodeSet {
    type V = Set<NodeId>;

    open spec fn view(&self) -> Set<NodeId> {
        self.ids@.to_set()
    }
}

impl NodeSet {
    /// No replica is stored twice.
    pub open spec fn wf(self) -> bool {
        self.ids@.no_duplicates()
    }

    pub fn new() -> (set: NodeSet)
        ensures
            set.wf(),
            set@ == Set::<NodeId>::empty(),
    {
        let set = NodeSet { ids: Vec::new() };
        assert(set@ =~= Set::<NodeId>::empty());
        set
    }

    /// Whether no replica is stored twice.
    pub fn is_well_formed(&self) -> (r: bool)
        ensures
            r == self.wf(),
    {
        let mut i: usize = 0;
        while i < self.ids.len()
            invariant
                i <= self.ids.len(),
                forall|a: int, b: int|
                    0 <= a < i && 0 <= b < self.ids.len() && a != b ==> self.ids@[a] != self.ids@[b],
            decreases self.ids.len() - i,
        {
            let mut j: usize = 0;
            while j < self.ids.len()
                invariant
                    i < self.ids.len(),
                    j <= self.ids.len(),
                    forall|b: int| 0 <= b < j && b != i ==> self.ids@[i as int] != self.ids@[b],
                decreases self.ids.len() - j,
            {
                if j != i && self.ids[i] == self.ids[j] {
                    return false;
                }
                j += 1;
            }
            i += 1;
        }
        true
    }

    pub fn contains(&self, node: NodeId) -> (r: bool)
        ensures
            r == self@.contains(node),
    {
        let mut i: usize = 0;
        while i < self.ids.len()
            invariant
                i <= self.ids.len(),
                forall|j: int| 0 <= j < i ==> self.ids@[j] != node,
            decreases self.ids.len() - i,
        {
            if self.ids[i] == node {
                assert(self.ids@.contains(node));
                return true;
            }
            i += 1;
        }
        false
    }

    /// The number of replicas in the set.
    pub fn len(&self) -> (n: usize)
        requires
            self.wf(),
        ensures
            n == self@.len(),
            self@.finite(),
    {
        proof {
            self.ids@.unique_seq_to_set();
            vstd::seq_lib::seq_to_set_is_finite(self.ids@);
        }
        self.ids.len()
    }

    /// Adds `node`; a replica that is in the set already is not added
    /// again. Says whether it was new.
    pub fn insert(&mut self, node: NodeId) -> (added: bool)
        requires
            old(self).wf(),
        ensures
            final(self).wf(),
            final(self)@ == old(self)@.insert(node),
            added == !old(self)@.contains(node),
    {
        if self.contains(node) {
            assert(self@ =~= old(self)@.insert(node));
            false
        } else {
            proof {
                self.ids@.lemma_push_to_set_commute(node);
            }
            self.ids.push(node);
            true
        }
    }
}

} // verus!
