//! Timestamps: wall-clock time, a logical counter and the issuing node,
//! ordered lexicographically in that order.

use vstd::prelude::*;

verus! {

/// Identifies a replica. It is the last component of a timestamp, so two
/// nodes never issue the same one.
pub type NodeId = u64;

#[derive(Clone, Copy, Debug, PartialEq, Eq, Structural, Hash, PartialOrd, Ord)]
pub struct Timestamp {
    pub physical: u64,
    pub logical: u16,
    pub node_id: NodeId,
}

impl Timestamp {
    /// Strictly earlier, comparing `physical`, then `logical`, then `node_id`.
    pub open spec fn spec_lt(self, other: Timestamp) -> bool {
        self.physical < other.physical || (self.physical == other.physical && (self.logical
            < other.logical || (self.logical == other.logical && self.node_id < other.node_id)))
    }

    pub open spec fn spec_le(self, other: Timestamp) -> bool {
        self == other || self.spec_lt(other)
    }

    /// The later of the two.
    pub open spec fn spec_max(self, other: Timestamp) -> Timestamp {
        if self.spec_lt(other) {
            other
        } else {
            self
        }
    }

    pub open spec fn spec_zero() -> Timestamp {
        Timestamp { physical: 0, logical: 0, node_id: 0 }
    }

    /// The least timestamp of node `node` that is later than this one, if
    /// there is one: the same time and counter where `node` is the greater
    /// node, else the next counter, else the next physical time.
    pub open spec fn spec_successor_at(self, node: NodeId) -> Option<Timestamp> {
        if self.node_id < node {
            Some(Timestamp { node_id: node, ..self })
        } else if self.logical < u16::MAX {
            Some(
                Timestamp {
                    physical: self.physical,
                    logical: (self.logical + 1) as u16,
                    node_id: node,
                },
            )
        } else if self.physical < u64::MAX {
            Some(Timestamp { physical: (self.physical + 1) as u64, logical: 0, node_id: node })
        } else {
            None
        }
    }

    pub fn new(physical: u64, logical: u16, node_id: NodeId) -> (ts: Timestamp)
        ensures
            ts.physical == physical,
            ts.logical == logical,
            ts.node_id == node_id,
    {
        Timestamp { physical, logical, node_id }
    }

    /// The least timestamp.
    pub fn zero() -> (ts: Timestamp)
        ensures
            ts == Timestamp::spec_zero(),
            forall|other: Timestamp| ts.spec_le(other),
    {
        Timestamp { physical: 0, logical: 0, node_id: 0 }
    }

    pub fn lt(&self, other: &Timestamp) -> (r: bool)
        ensures
            r == self.spec_lt(*other),
    {
        if self.physical != other.physical {
            self.physical < other.physical
        } else if self.logical != other.logical {
            self.logical < other.logical
        } else {
            self.node_id < other.node_id
        }
    }

    pub fn le(&self, other: &Timestamp) -> (r: bool)
        ensures
            r == self.spec_le(*other),
    {
        !other.lt(self)
    }

    /// The least timestamp of node `node` that is later than this one.
    /// `None` exactly where no timestamp of that node is later.
    pub fn successor_at(&self, node: NodeId) -> (next: Option<Timestamp>)
        ensures
            next == self.spec_successor_at(node),
            next matches Some(t) ==> self.spec_lt(t) && t.node_id == node,
            next is None <==> forall|u: Timestamp| u.node_id == node ==> !self.spec_lt(u),
    {
        proof {
            lemma_successor_is_least(*self, node);
        }
        if self.node_id < node {
            Some(Timestamp { physical: self.physical, logical: self.logical, node_id: node })
        } else if self.logical < u16::MAX {
            Some(Timestamp { physical: self.physical, logical: self.logical + 1, node_id: node })
        } else if self.physical < u64::MAX {
            Some(Timestamp { physical: self.physical + 1, logical: 0, node_id: node })
        } else {
            None
        }
    }

    pub fn max(a: Timestamp, b: Timestamp) -> (m: Timestamp)
        ensures
            m == a.spec_max(b),
            a.spec_le(m),
            b.spec_le(m),
            m == a || m == b,
    {
        if a.lt(&b) {
            b
        } else {
            a
        }
    }
}

/// The order is strict: nothing is earlier than itself, and of two
/// timestamps at most one is earlier than the other.
pub proof fn lemma_lt_asymmetric(a: Timestamp, b: Timestamp)
    ensures
        !a.spec_lt(a),
        !(a.spec_lt(b) && b.spec_lt(a)),
{
}

pub proof fn lemma_lt_transitive(a: Timestamp, b: Timestamp, c: Timestamp)
    requires
        a.spec_lt(b),
        b.spec_lt(c),
    ensures
        a.spec_lt(c),
{
}

/// The order is total: two timestamps that are not equal are ordered, so an
/// exact tie means the same physical time, counter and node.
pub proof fn lemma_lt_total(a: Timestamp, b: Timestamp)
    ensures
        a.spec_lt(b) || b.spec_lt(a) || a == b,
        a.spec_le(b) <==> !b.spec_lt(a),
{
}

/// `spec_max` is the least upper bound of its arguments, and it does not
/// depend on their order.
pub proof fn lemma_max_is_least_upper_bound(a: Timestamp, b: Timestamp, c: Timestamp)
    ensures
        a.spec_le(a.spec_max(b)),
        b.spec_le(a.spec_max(b)),
        a.spec_max(b) == b.spec_max(a),
        a.spec_le(c) && b.spec_le(c) ==> a.spec_max(b).spec_le(c),
{
}

/// The successor at a node is later than the timestamp, belongs to the
/// node, and is the least such timestamp; there is none exactly where no
/// timestamp of the node is later.
pub proof fn lemma_successor_is_least(t: Timestamp, node: NodeId)
    ensures
        t.spec_successor_at(node) matches Some(s) ==> {
            &&& t.spec_lt(s)
            &&& s.node_id == node
            &&& forall|u: Timestamp| u.node_id == node && t.spec_lt(u) ==> s.spec_le(u)
        },
        t.spec_successor_at(node) is None <==> forall|u: Timestamp|
            u.node_id == node ==> !t.spec_lt(u),
{
    if t.spec_successor_at(node) is Some {
        let s = t.spec_successor_at(node).unwrap();
        assert(s.node_id == node && t.spec_lt(s));
    }
}

/// A node's clock. It remembers the last timestamp it issued, and issues
/// only later ones, whatever the wall clock reads.
#[derive(Clone, Copy, Debug)]
pub struct Clock {
    node_id: NodeId,
    last: Timestamp,
}

impl Clock {
    pub closed spec fn node(self) -> NodeId {
        self.node_id
    }

    /// The last timestamp issued, or the least timestamp if none was.
    pub closed spec fn last_issued(self) -> Timestamp {
        self.last
    }

    /// What `now` issues for a wall-clock reading: the reading itself with
    /// counter 0 where it is past the last issued physical time; else the
    /// last physical time with the counter bumped; and where the counter is
    /// exhausted, the next physical time with counter 0.
    pub open spec fn next(self, physical: u64) -> Timestamp {
        let last = self.last_issued();
        if physical > last.physical {
            Timestamp { physical, logical: 0, node_id: self.node() }
        } else if last.logical < u16::MAX {
            Timestamp {
                physical: last.physical,
                logical: (last.logical + 1) as u16,
                node_id: self.node(),
            }
        } else {
            Timestamp {
                physical: (last.physical + 1) as u64,
                logical: 0,
                node_id: self.node(),
            }
        }
    }

    /// Whether both the physical time and the counter are used up, so that
    /// no later timestamp exists for this reading.
    pub open spec fn exhausted(self, physical: u64) -> bool {
        let last = self.last_issued();
        physical <= last.physical && last.logical == u16::MAX && last.physical == u64::MAX
    }

    pub fn new(node_id: NodeId) -> (clock: Clock)
        ensures
            clock.node() == node_id,
            clock.last_issued() == Timestamp::spec_zero(),
    {
        Clock { node_id, last: Timestamp { physical: 0, logical: 0, node_id: 0 } }
    }

    pub fn node_id(&self) -> (id: NodeId)
        ensures
            id == self.node(),
    {
        self.node_id
    }

    pub fn last(&self) -> (ts: Timestamp)
        ensures
            ts == self.last_issued(),
    {
        self.last
    }

    /// Issues the next timestamp for the wall-clock reading `physical`.
    /// `None` only where the clock is exhausted; the clock is then unchanged.
    pub fn now(&mut self, physical: u64) -> (issued: Option<Timestamp>)
        ensures
            final(self).node() == old(self).node(),
            old(self).exhausted(physical) <==> issued is None,
            issued is None ==> *final(self) == *old(self),
            issued matches Some(ts) ==> {
                &&& ts == old(self).next(physical)
                &&& ts.node_id == old(self).node()
                &&& final(self).last_issued() == ts
                &&& old(self).last_issued().spec_lt(ts)
            },
    {
        let last: Timestamp = self.last;
        if physical > last.physical {
            let ts = Timestamp { physical, logical: 0, node_id: self.node_id };
            self.last = ts;
            Some(ts)
        } else if last.logical < u16::MAX {
            let ts = Timestamp {
                physical: last.physical,
                logical: last.logical + 1,
                node_id: self.node_id,
            };
            self.last = ts;
            Some(ts)
        } else if last.physical < u64::MAX {
            let ts = Timestamp { physical: last.physical + 1, logical: 0, node_id: self.node_id };
            self.last = ts;
            Some(ts)
        } else {
            None
        }
    }

    /// Moves the clock past a timestamp seen elsewhere, so that what it
    /// issues next is later than `seen` too. The clock never moves back.
    pub fn observe(&mut self, seen: Timestamp)
        ensures
            final(self).node() == old(self).node(),
            final(self).last_issued() == old(self).last_issued().spec_max(seen),
    {
        if self.last.lt(&seen) {
            self.last = seen;
        }
    }
}

} // verus!
