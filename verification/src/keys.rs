//! Keys, key ranges and key sets: what a transaction declares that it
//! touches, and when two declarations conflict.

use vstd::prelude::*;

verus! {

/// Lexicographic order on byte sequences: a proper prefix comes first,
/// otherwise the first byte that differs decides.
pub open spec fn lex_lt(a: Seq<u8>, b: Seq<u8>) -> bool
    decreases a.len(),
{
    if b.len() == 0 {
        false
    } else if a.len() == 0 {
        true
    } else if a[0] == b[0] {
        lex_lt(a.skip(1), b.skip(1))
    } else {
        a[0] < b[0]
    }
}

pub open spec fn lex_le(a: Seq<u8>, b: Seq<u8>) -> bool {
    a == b || lex_lt(a, b)
}

pub proof fn lemma_lex_irreflexive(a: Seq<u8>)
    ensures
        !lex_lt(a, a),
    decreases a.len(),
{
    if a.len() > 0 {
        lemma_lex_irreflexive(a.skip(1));
    }
}

pub proof fn lemma_lex_transitive(a: Seq<u8>, b: Seq<u8>, c: Seq<u8>)
    requires
        lex_lt(a, b),
        lex_lt(b, c),
    ensures
        lex_lt(a, c),
    decreases a.len(),
{
    if a.len() > 0 && a[0] == b[0] && b[0] == c[0] {
        lemma_lex_transitive(a.skip(1), b.skip(1), c.skip(1));
    }
}

/// Two byte sequences are equal or one comes first.
pub proof fn lemma_lex_total(a: Seq<u8>, b: Seq<u8>)
    ensures
        lex_lt(a, b) || lex_lt(b, a) || a == b,
    decreases a.len(),
{
    if a.len() > 0 && b.len() > 0 && a[0] == b[0] {
        lemma_lex_total(a.skip(1), b.skip(1));
        if a.skip(1) == b.skip(1) {
            assert(a.len() == a.skip(1).len() + 1);
            assert(b.len() == b.skip(1).len() + 1);
            assert forall|i: int| 0 <= i < a.len() implies a[i] == b[i] by {
                if i > 0 {
                    assert(a[i] == a.skip(1)[i - 1]);
                    assert(b[i] == b.skip(1)[i - 1]);
                }
            }
            assert(a =~= b);
        }
    } else if a.len() == 0 && b.len() == 0 {
        assert(a =~= b);
    }
}

/// `lex_le` is the negation of the reversed strict order.
pub proof fn lemma_lex_le_not_gt(a: Seq<u8>, b: Seq<u8>)
    ensures
        lex_le(a, b) <==> !lex_lt(b, a),
{
    lemma_lex_total(a, b);
    lemma_lex_irreflexive(a);
    if lex_lt(a, b) && lex_lt(b, a) {
        lemma_lex_transitive(a, b, a);
    }
}

pub proof fn lemma_lex_le_lt_transitive(a: Seq<u8>, b: Seq<u8>, c: Seq<u8>)
    requires
        lex_le(a, b),
        lex_lt(b, c),
    ensures
        lex_lt(a, c),
{
    if a != b {
        lemma_lex_transitive(a, b, c);
    }
}

/// Whether two byte strings are the same.
pub fn bytes_equal(a: &Vec<u8>, b: &Vec<u8>) -> (r: bool)
    ensures
        r == (a@ == b@),
{
    if a.len() != b.len() {
        return false;
    }
    let mut i: usize = 0;
    while i < a.len()
        invariant
            a.len() == b.len(),
            i <= a.len(),
            forall|j: int| 0 <= j < i ==> a@[j] == b@[j],
        decreases a.len() - i,
    {
        if a[i] != b[i] {
            return false;
        }
        i += 1;
    }
    assert(a@ =~= b@);
    true
}

/// Whether `a` comes before `b` in lexicographic order.
pub fn bytes_less(a: &Vec<u8>, b: &Vec<u8>) -> (r: bool)
    ensures
        r == lex_lt(a@, b@),
{
    let mut i: usize = 0;
    proof {
        assert(a@.skip(0) =~= a@);
        assert(b@.skip(0) =~= b@);
    }
    while i < a.len() && i < b.len()
        invariant
            i <= a.len(),
            i <= b.len(),
            lex_lt(a@, b@) == lex_lt(a@.skip(i as int), b@.skip(i as int)),
        decreases a.len() - i,
    {
        if a[i] != b[i] {
            return a[i] < b[i];
        }
        proof {
            assert(a@.skip(i as int).skip(1) =~= a@.skip(i + 1));
            assert(b@.skip(i as int).skip(1) =~= b@.skip(i + 1));
        }
        i += 1;
    }
    i < b.len()
}

/// An opaque byte string that names a row or a resource.
#[derive(Clone, Debug, PartialEq, Eq, PartialOrd, Ord, Hash)]
pub struct Key {
    pub bytes: Vec<u8>,
}

impl View for Key {
    type V = Seq<u8>;

    open spec fn view(&self) -> Seq<u8> {
        self.bytes@
    }
}

impl Key {
    pub fn new(bytes: Vec<u8>) -> (key: Key)
        ensures
            key@ == bytes@,
    {
        Key { bytes }
    }

    pub fn same(&self, other: &Key) -> (r: bool)
        ensures
            r == (self@ == other@),
    {
        bytes_equal(&self.bytes, &other.bytes)
    }

    pub fn lt(&self, other: &Key) -> (r: bool)
        ensures
            r == lex_lt(self@, other@),
    {
        bytes_less(&self.bytes, &other.bytes)
    }

    pub fn le(&self, other: &Key) -> (r: bool)
        ensures
            r == lex_le(self@, other@),
    {
        proof {
            lemma_lex_le_not_gt(self@, other@);
        }
        !bytes_less(&other.bytes, &self.bytes)
    }
}

/// The keys from `low` up to, and not including, `high`.
#[derive(Clone, Debug)]
pub struct KeyRange {
    pub low: Key,
    pub high: Key,
}

impl KeyRange {
    pub open spec fn spec_contains(self, k: Seq<u8>) -> bool {
        lex_le(self.low@, k) && lex_lt(k, self.high@)
    }

    /// A range holds a key exactly when `low` comes before `high`.
    pub open spec fn spec_is_empty(self) -> bool {
        !lex_lt(self.low@, self.high@)
    }

    /// Two ranges overlap when the later of the lows comes before both highs.
    pub open spec fn spec_overlaps(self, other: KeyRange) -> bool {
        &&& lex_lt(self.low@, self.high@)
        &&& lex_lt(other.low@, other.high@)
        &&& lex_lt(self.low@, other.high@)
        &&& lex_lt(other.low@, self.high@)
    }

    pub fn new(low: Key, high: Key) -> (range: KeyRange)
        ensures
            range.low == low,
            range.high == high,
    {
        KeyRange { low, high }
    }

    pub fn is_empty(&self) -> (r: bool)
        ensures
            r == self.spec_is_empty(),
            r <==> forall|k: Seq<u8>| !self.spec_contains(k),
    {
        proof {
            lemma_range_nonempty_iff(*self);
        }
        !self.low.lt(&self.high)
    }

    pub fn contains(&self, key: &Key) -> (r: bool)
        ensures
            r == self.spec_contains(key@),
    {
        self.low.le(key) && key.lt(&self.high)
    }

    /// Whether some key lies in both ranges.
    pub fn overlaps(&self, other: &KeyRange) -> (r: bool)
        ensures
            r == self.spec_overlaps(*other),
            r <==> exists|k: Seq<u8>| self.spec_contains(k) && other.spec_contains(k),
    {
        proof {
            lemma_overlap_iff_common_key(*self, *other);
        }
        self.low.lt(&self.high) && other.low.lt(&other.high) && self.low.lt(&other.high)
            && other.low.lt(&self.high)
    }
}

/// A range holds some key exactly when its low end comes before its high
/// end, and then it holds its low end.
pub proof fn lemma_range_nonempty_iff(r: KeyRange)
    ensures
        r.spec_is_empty() <==> forall|k: Seq<u8>| !r.spec_contains(k),
        !r.spec_is_empty() ==> r.spec_contains(r.low@),
{
    if r.spec_is_empty() {
        assert forall|k: Seq<u8>| !r.spec_contains(k) by {
            if r.spec_contains(k) {
                lemma_lex_le_lt_transitive(r.low@, k, r.high@);
            }
        }
    } else {
        assert(r.spec_contains(r.low@));
    }
}

/// Two ranges overlap, by their ends, exactly when a key lies in both.
pub proof fn lemma_overlap_iff_common_key(a: KeyRange, b: KeyRange)
    ensures
        a.spec_overlaps(b) <==> exists|k: Seq<u8>| a.spec_contains(k) && b.spec_contains(k),
        a.spec_overlaps(b) == b.spec_overlaps(a),
{
    if a.spec_overlaps(b) {
        lemma_lex_total(a.low@, b.low@);
        if lex_lt(a.low@, b.low@) {
            assert(a.spec_contains(b.low@) && b.spec_contains(b.low@));
        } else {
            assert(a.spec_contains(a.low@) && b.spec_contains(a.low@));
        }
    }
    if exists|k: Seq<u8>| a.spec_contains(k) && b.spec_contains(k) {
        let k = choose|k: Seq<u8>| a.spec_contains(k) && b.spec_contains(k);
        lemma_lex_le_lt_transitive(a.low@, k, a.high@);
        lemma_lex_le_lt_transitive(b.low@, k, b.high@);
        lemma_lex_le_lt_transitive(a.low@, k, b.high@);
        lemma_lex_le_lt_transitive(b.low@, k, a.high@);
    }
}

/// What a transaction declares: exact keys and ranges. It stands for the
/// union of them.
#[derive(Clone, Debug)]
pub struct KeySet {
    pub keys: Vec<Key>,
    pub ranges: Vec<KeyRange>,
}

impl View for KeySet {
    type V = Set<Seq<u8>>;

    open spec fn view(&self) -> Set<Seq<u8>> {
        Set::new(|k: Seq<u8>| self.spec_contains(k))
    }
}

impl KeySet {
    pub open spec fn has_key(self, k: Seq<u8>) -> bool {
        exists|i: int| 0 <= i < self.keys.len() && #[trigger] self.keys[i]@ == k
    }

    pub open spec fn has_range_with(self, k: Seq<u8>) -> bool {
        exists|j: int| 0 <= j < self.ranges.len() && (#[trigger] self.ranges[j]).spec_contains(k)
    }

    /// Whether `k` is one of the exact keys or lies in one of the ranges.
    pub open spec fn spec_contains(self, k: Seq<u8>) -> bool {
        self.has_key(k) || self.has_range_with(k)
    }

    /// Whether some key of the set lies in `range`.
    pub open spec fn spec_meets_range(self, range: KeyRange) -> bool {
        exists|k: Seq<u8>| self.spec_contains(k) && range.spec_contains(k)
    }

    /// Two key sets conflict when they intersect.
    pub open spec fn spec_conflicts(self, other: KeySet) -> bool {
        exists|k: Seq<u8>| self.spec_contains(k) && other.spec_contains(k)
    }

    /// The empty key set.
    pub fn new() -> (set: KeySet)
        ensures
            set.keys@.len() == 0,
            set.ranges@.len() == 0,
            set@ == Set::<Seq<u8>>::empty(),
    {
        let set = KeySet { keys: Vec::new(), ranges: Vec::new() };
        assert(set@ =~= Set::<Seq<u8>>::empty());
        set
    }

    pub fn from_parts(keys: Vec<Key>, ranges: Vec<KeyRange>) -> (set: KeySet)
        ensures
            set.keys == keys,
            set.ranges == ranges,
    {
        KeySet { keys, ranges }
    }

    pub fn contains(&self, key: &Key) -> (r: bool)
        ensures
            r == self.spec_contains(key@),
            r == self@.contains(key@),
    {
        let mut i: usize = 0;
        while i < self.keys.len()
            invariant
                i <= self.keys.len(),
                forall|j: int| 0 <= j < i ==> (#[trigger] self.keys[j])@ != key@,
            decreases self.keys.len() - i,
        {
            if self.keys[i].same(key) {
                return true;
            }
            i += 1;
        }
        let mut j: usize = 0;
        while j < self.ranges.len()
            invariant
                j <= self.ranges.len(),
                !self.has_key(key@),
                forall|m: int| 0 <= m < j ==> !(#[trigger] self.ranges[m]).spec_contains(key@),
            decreases self.ranges.len() - j,
        {
            if self.ranges[j].contains(key) {
                return true;
            }
            j += 1;
        }
        false
    }

    /// Whether some key of the set lies in `range`.
    pub fn meets_range(&self, range: &KeyRange) -> (r: bool)
        ensures
            r == self.spec_meets_range(*range),
    {
        let mut i: usize = 0;
        while i < self.keys.len()
            invariant
                i <= self.keys.len(),
                forall|j: int| 0 <= j < i ==> !range.spec_contains((#[trigger] self.keys[j])@),
            decreases self.keys.len() - i,
        {
            if range.contains(&self.keys[i]) {
                assert(self.spec_contains(self.keys[i as int]@));
                return true;
            }
            i += 1;
        }
        let mut j: usize = 0;
        while j < self.ranges.len()
            invariant
                j <= self.ranges.len(),
                forall|m: int|
                    0 <= m < self.keys.len() ==> !range.spec_contains((#[trigger] self.keys[m])@),
                forall|m: int| 0 <= m < j ==> !(#[trigger] self.ranges[m]).spec_overlaps(*range),
            decreases self.ranges.len() - j,
        {
            if self.ranges[j].overlaps(range) {
                let ghost k = choose|k: Seq<u8>|
                    self.ranges[j as int].spec_contains(k) && range.spec_contains(k);
                assert(self.spec_contains(k));
                return true;
            }
            j += 1;
        }
        proof {
            if self.spec_meets_range(*range) {
                let k = choose|k: Seq<u8>| self.spec_contains(k) && range.spec_contains(k);
                if self.has_key(k) {
                    let m = choose|m: int| 0 <= m < self.keys.len() && #[trigger] self.keys[m]@ == k;
                    assert(!range.spec_contains(self.keys[m]@));
                } else {
                    let m = choose|m: int|
                        0 <= m < self.ranges.len() && (#[trigger] self.ranges[m]).spec_contains(k);
                    lemma_overlap_iff_common_key(self.ranges[m], *range);
                    assert(!self.ranges[m].spec_overlaps(*range));
                }
            }
        }
        false
    }

    /// Whether the two sets intersect.
    pub fn conflicts_with(&self, other: &KeySet) -> (r: bool)
        ensures
            r == self.spec_conflicts(*other),
            r == !self@.disjoint(other@),
    {
        proof {
            lemma_conflicts_is_intersection(*self, *other);
        }
        let mut i: usize = 0;
        while i < self.keys.len()
            invariant
                i <= self.keys.len(),
                self.spec_conflicts(*other) == !self@.disjoint(other@),
                forall|j: int| 0 <= j < i ==> !other.spec_contains((#[trigger] self.keys[j])@),
            decreases self.keys.len() - i,
        {
            if other.contains(&self.keys[i]) {
                assert(self.spec_contains(self.keys[i as int]@));
                return true;
            }
            i += 1;
        }
        let mut j: usize = 0;
        while j < self.ranges.len()
            invariant
                j <= self.ranges.len(),
                self.spec_conflicts(*other) == !self@.disjoint(other@),
                forall|m: int|
                    0 <= m < self.keys.len() ==> !other.spec_contains((#[trigger] self.keys[m])@),
                forall|m: int| 0 <= m < j ==> !other.spec_meets_range(#[trigger] self.ranges[m]),
            decreases self.ranges.len() - j,
        {
            if other.meets_range(&self.ranges[j]) {
                let ghost k = choose|k: Seq<u8>|
                    other.spec_contains(k) && self.ranges[j as int].spec_contains(k);
                assert(self.spec_contains(k));
                return true;
            }
            j += 1;
        }
        proof {
            if self.spec_conflicts(*other) {
                let k = choose|k: Seq<u8>| self.spec_contains(k) && other.spec_contains(k);
                if self.has_key(k) {
                    let m = choose|m: int| 0 <= m < self.keys.len() && #[trigger] self.keys[m]@ == k;
                    assert(!other.spec_contains(self.keys[m]@));
                } else {
                    let m = choose|m: int|
                        0 <= m < self.ranges.len() && (#[trigger] self.ranges[m]).spec_contains(k);
                    assert(!other.spec_meets_range(self.ranges[m]));
                }
            }
        }
        false
    }
}

/// A conflict is a non-empty intersection of the two sets of keys, and it
/// does not depend on which set is asked.
pub proof fn lemma_conflicts_is_intersection(a: KeySet, b: KeySet)
    ensures
        a.spec_conflicts(b) == !a@.disjoint(b@),
        a.spec_conflicts(b) == b.spec_conflicts(a),
{
    if a.spec_conflicts(b) {
        let k = choose|k: Seq<u8>| a.spec_contains(k) && b.spec_contains(k);
        assert(a@.contains(k) && b@.contains(k));
        assert(b.spec_contains(k) && a.spec_contains(k));
    }
    if !a@.disjoint(b@) {
        let k = choose|k: Seq<u8>| a@.contains(k) && b@.contains(k);
        assert(a.spec_contains(k) && b.spec_contains(k));
    }
    if b.spec_conflicts(a) {
        let k = choose|k: Seq<u8>| b.spec_contains(k) && a.spec_contains(k);
        assert(a.spec_contains(k) && b.spec_contains(k));
    }
}

} // verus!
