//! A map whose entries stand in the order of their keys.
use vstd::prelude::*;

use crate::decimal::Decimal;

verus! {

/// A key with a place in a linear order. Keys of equal rank are one key.
pub trait Ranked: Copy {
    /// The place in the order.
    spec fn rank(self) -> int;

    /// Whether this key comes before the other.
    fn before(&self, other: &Self) -> (r: bool)
        ensures
            r == (self.rank() < other.rank()),
    ;
}

impl Ranked for i64 {
    open spec fn rank(self) -> int {
        self as int
    }

    fn before(&self, other: &Self) -> (r: bool) {
        *self < *other
    }
}

impl Ranked for u64 {
    open spec fn rank(self) -> int {
        self as int
    }

    fn before(&self, other: &Self) -> (r: bool) {
        *self < *other
    }
}

impl Ranked for usize {
    open spec fn rank(self) -> int {
        self as int
    }

    fn before(&self, other: &Self) -> (r: bool) {
        *self < *other
    }
}

impl Ranked for Decimal {
    open spec fn rank(self) -> int {
        self@
    }

    fn before(&self, other: &Self) -> (r: bool) {
        self.lt(*other)
    }
}

/// Whether entries stand in the order of their keys, each key once.
pub open spec fn ordered<K: Ranked, V>(s: Seq<(K, V)>) -> bool {
    forall|i: int, j: int| 0 <= i < j < s.len() ==> (#[trigger] s[i]).0.rank() < (#[trigger] s[j]).0.rank()
}

/// How many entries have a key below `rank`.
pub open spec fn below<K: Ranked, V>(s: Seq<(K, V)>, rank: int) -> int
    decreases s.len(),
{
    if s.len() == 0 {
        0
    } else {
        below(s.drop_last(), rank) + if s.last().0.rank() < rank {
            1int
        } else {
            0int
        }
    }
}

/// Whether there is an entry with a key of this rank.
pub open spec fn holds<K: Ranked, V>(s: Seq<(K, V)>, rank: int) -> bool {
    below(s, rank) < s.len() && s[below(s, rank)].0.rank() == rank
}

/// The value under a key of this rank.
pub open spec fn lookup<K: Ranked, V>(s: Seq<(K, V)>, rank: int) -> Option<V> {
    if holds(s, rank) {
        Some(s[below(s, rank)].1)
    } else {
        None
    }
}

/// The entries after a value was put under a key. A key that was there stays as it was written
/// first.
pub open spec fn inserted<K: Ranked, V>(s: Seq<(K, V)>, key: K, value: V) -> Seq<(K, V)> {
    let i = below(s, key.rank());
    if holds(s, key.rank()) {
        s.update(i, (s[i].0, value))
    } else {
        s.insert(i, (key, value))
    }
}

/// The entries without that of this rank.
pub open spec fn removed<K: Ranked, V>(s: Seq<(K, V)>, rank: int) -> Seq<(K, V)> {
    if holds(s, rank) {
        s.remove(below(s, rank))
    } else {
        s
    }
}

/// The number of keys below a rank is where the keys stop being below it.
pub proof fn lemma_below<K: Ranked, V>(s: Seq<(K, V)>, rank: int, k: int)
    requires
        0 <= k <= s.len(),
        forall|i: int| 0 <= i < k ==> (#[trigger] s[i]).0.rank() < rank,
        forall|i: int| k <= i < s.len() ==> (#[trigger] s[i]).0.rank() >= rank,
    ensures
        below(s, rank) == k,
    decreases s.len(),
{
    if s.len() > 0 {
        let t = s.drop_last();
        assert forall|i: int| 0 <= i < t.len() implies #[trigger] t[i] == s[i] by {}
        lemma_below(
            t,
            rank,
            if k == s.len() {
                k - 1
            } else {
                k
            },
        );
        assert(s.last() == s[s.len() - 1]);
    }
}

/// The keys in front of that place are below the rank, and those behind it are not.
pub proof fn lemma_below_splits<K: Ranked, V>(s: Seq<(K, V)>, rank: int)
    requires
        ordered(s),
    ensures
        0 <= below(s, rank) <= s.len(),
        forall|i: int| 0 <= i < below(s, rank) ==> (#[trigger] s[i]).0.rank() < rank,
        forall|i: int| below(s, rank) <= i < s.len() ==> (#[trigger] s[i]).0.rank() >= rank,
    decreases s.len(),
{
    if s.len() > 0 {
        let t = s.drop_last();
        assert forall|i: int| 0 <= i < t.len() implies #[trigger] t[i] == s[i] by {}
        assert(ordered(t));
        lemma_below_splits(t, rank);
        assert forall|i: int| 0 <= i < t.len() implies #[trigger] s[i] == t[i] by {}
        let last = s.len() - 1;
        assert(s.last() == s[last]);
        if s.last().0.rank() < rank {
            if below(t, rank) < t.len() {
                let k = below(t, rank);
                assert(t[k].0.rank() >= rank);
                assert(s[k].0.rank() < s[last].0.rank());
            }
        }
    }
}

/// The number of keys below a rank only grows with the rank.
pub proof fn lemma_below_grows<K: Ranked, V>(s: Seq<(K, V)>, a: int, b: int)
    ensures
        0 <= below(s, a) <= s.len(),
        0 <= below(s, b) <= s.len(),
        a <= b ==> below(s, a) <= below(s, b),
    decreases s.len(),
{
    if s.len() > 0 {
        lemma_below_grows(s.drop_last(), a, b);
    }
}

/// Putting an entry in keeps the order, and changes what is under its own key only.
pub proof fn lemma_inserted<K: Ranked, V>(s: Seq<(K, V)>, key: K, value: V)
    requires
        ordered(s),
    ensures
        ordered(inserted(s, key, value)),
        lookup(inserted(s, key, value), key.rank()) == Some(value),
        forall|r: int| r != key.rank() ==> #[trigger] lookup(inserted(s, key, value), r) == lookup(s, r),
{
    let t = inserted(s, key, value);
    let i = below(s, key.rank());
    lemma_below_splits(s, key.rank());
    if holds(s, key.rank()) {
        assert forall|a: int, b: int| 0 <= a < b < t.len() implies (#[trigger] t[a]).0.rank() < (
        #[trigger] t[b]).0.rank() by {
            assert(s[a].0.rank() < s[b].0.rank());
        }
        lemma_below(t, key.rank(), i);
        assert forall|r: int| r != key.rank() implies #[trigger] lookup(t, r) == lookup(s, r) by {
            lemma_below_splits(s, r);
            let k = below(s, r);
            assert forall|a: int| 0 <= a < k implies (#[trigger] t[a]).0.rank() < r by {
                assert(s[a].0.rank() < r);
            }
            assert forall|a: int| k <= a < t.len() implies (#[trigger] t[a]).0.rank() >= r by {
                assert(s[a].0.rank() >= r);
            }
            lemma_below(t, r, k);
        }
    } else {
        assert forall|a: int, b: int| 0 <= a < b < t.len() implies (#[trigger] t[a]).0.rank() < (
        #[trigger] t[b]).0.rank() by {
            if b < i {
                assert(s[a].0.rank() < s[b].0.rank());
            } else if b == i {
                assert(s[a].0.rank() < key.rank());
            } else if a < i {
                assert(s[a].0.rank() < s[b - 1].0.rank());
            } else if a == i {
                assert(s[i].0.rank() >= key.rank());
                if b - 1 > i {
                    assert(s[i].0.rank() < s[b - 1].0.rank());
                }
            } else {
                assert(s[a - 1].0.rank() < s[b - 1].0.rank());
            }
        }
        lemma_below(t, key.rank(), i);
        assert forall|r: int| r != key.rank() implies #[trigger] lookup(t, r) == lookup(s, r) by {
            lemma_below_splits(s, r);
            let k = below(s, r);
            let n = if key.rank() < r {
                k + 1
            } else {
                k
            };
            lemma_below_grows(s, key.rank(), r);
            lemma_below_grows(s, r, key.rank());
            assert forall|a: int| 0 <= a < n implies (#[trigger] t[a]).0.rank() < r by {
                if a < i {
                    assert(s[a].0.rank() < key.rank());
                    assert(key.rank() < r || s[a].0.rank() < r);
                } else if a > i {
                    assert(s[a - 1].0.rank() < r);
                }
            }
            assert forall|a: int| n <= a < t.len() implies (#[trigger] t[a]).0.rank() >= r by {
                if a < i {
                    assert(s[a].0.rank() >= r);
                } else if a > i {
                    assert(s[a - 1].0.rank() >= r);
                }
            }
            lemma_below(t, r, n);
        }
    }
}

/// Taking an entry out keeps the order, and changes what is under its own key only.
pub proof fn lemma_removed<K: Ranked, V>(s: Seq<(K, V)>, rank: int)
    requires
        ordered(s),
    ensures
        ordered(removed(s, rank)),
        lookup(removed(s, rank), rank) is None,
        forall|r: int| r != rank ==> #[trigger] lookup(removed(s, rank), r) == lookup(s, r),
{
    let t = removed(s, rank);
    let i = below(s, rank);
    lemma_below_splits(s, rank);
    if holds(s, rank) {
        assert forall|a: int, b: int| 0 <= a < b < t.len() implies (#[trigger] t[a]).0.rank() < (
        #[trigger] t[b]).0.rank() by {
            let x = if a < i {
                a
            } else {
                a + 1
            };
            let y = if b < i {
                b
            } else {
                b + 1
            };
            assert(t[a] == s[x] && t[b] == s[y]);
        }
        assert forall|a: int| i <= a < t.len() implies (#[trigger] t[a]).0.rank() > rank by {
            assert(s[i].0.rank() < s[a + 1].0.rank());
        }
        lemma_below(t, rank, i);
        assert forall|r: int| r != rank implies #[trigger] lookup(t, r) == lookup(s, r) by {
            lemma_below_splits(s, r);
            let k = below(s, r);
            let n = if rank < r {
                k - 1
            } else {
                k
            };
            lemma_below_grows(s, rank, r);
            lemma_below_grows(s, r, rank);
            if rank < r {
                if k <= i {
                    assert(s[i].0.rank() >= r);
                }
            } else {
                if k > i {
                    assert(s[i].0.rank() < r);
                }
            }
            assert forall|a: int| 0 <= a < n implies (#[trigger] t[a]).0.rank() < r by {
                if a < i {
                    assert(s[a].0.rank() < r);
                } else {
                    assert(s[a + 1].0.rank() < r);
                }
            }
            assert forall|a: int| n <= a < t.len() implies (#[trigger] t[a]).0.rank() >= r by {
                if a < i {
                    assert(s[a].0.rank() >= r);
                } else {
                    assert(s[a + 1].0.rank() >= r);
                }
            }
            lemma_below(t, r, n);
        }
    }
}

/// A row of entries cut out of an ordered one is ordered.
pub proof fn lemma_ordered_part<K: Ranked, V>(s: Seq<(K, V)>, from: int, to: int)
    requires
        ordered(s),
        0 <= from <= to <= s.len(),
    ensures
        ordered(s.subrange(from, to)),
{
    let t = s.subrange(from, to);
    assert forall|a: int, b: int| 0 <= a < b < t.len() implies (#[trigger] t[a]).0.rank() < (
    #[trigger] t[b]).0.rank() by {
        assert(s[a + from].0.rank() < s[b + from].0.rank());
    }
}

/// Keeping the entries below a rank keeps what is under the keys below it, and nothing else.
pub proof fn lemma_keep_below<K: Ranked, V>(s: Seq<(K, V)>, rank: int)
    requires
        ordered(s),
    ensures
        ordered(s.take(below(s, rank))),
        forall|r: int|
            #[trigger] lookup(s.take(below(s, rank)), r) == (if r < rank {
                lookup(s, r)
            } else {
                None
            }),
{
    let n = below(s, rank);
    let t = s.take(n);
    lemma_below_splits(s, rank);
    lemma_ordered_part(s, 0, n);
    assert(t =~= s.subrange(0, n));
    assert forall|r: int| #[trigger] lookup(t, r) == (if r < rank {
        lookup(s, r)
    } else {
        None
    }) by {
        lemma_below_splits(s, r);
        lemma_below_splits(t, r);
        lemma_below_grows(s, r, rank);
        lemma_below_grows(s, rank, r);
        let k = if r < rank {
            below(s, r)
        } else {
            n
        };
        assert forall|a: int| 0 <= a < t.len() implies #[trigger] t[a] == s[a] by {}
        lemma_below(t, r, k);
        if r < rank && below(s, r) < s.len() && below(s, r) == n {
            assert(s[n].0.rank() >= rank);
        }
    }
}

/// Dropping the entries below a rank keeps what is under the other keys, and nothing else.
pub proof fn lemma_drop_below<K: Ranked, V>(s: Seq<(K, V)>, rank: int)
    requires
        ordered(s),
    ensures
        ordered(s.skip(below(s, rank))),
        forall|r: int|
            #[trigger] lookup(s.skip(below(s, rank)), r) == (if r < rank {
                None
            } else {
                lookup(s, r)
            }),
{
    let n = below(s, rank);
    let t = s.skip(n);
    lemma_below_splits(s, rank);
    lemma_ordered_part(s, n, s.len() as int);
    assert(t =~= s.subrange(n, s.len() as int));
    assert forall|r: int| #[trigger] lookup(t, r) == (if r < rank {
        None
    } else {
        lookup(s, r)
    }) by {
        lemma_below_splits(s, r);
        lemma_below_grows(s, r, rank);
        lemma_below_grows(s, rank, r);
        let k = if r < rank {
            0
        } else {
            below(s, r) - n
        };
        assert forall|a: int| 0 <= a < t.len() implies #[trigger] t[a] == s[a + n] by {}
        lemma_below(t, r, k);
        if r < rank && t.len() > 0 {
            assert(s[n].0.rank() >= rank);
            assert(t[0] == s[n]);
        }
    }
}

/// An entry is what is under its key.
pub proof fn lemma_lookup_entry<K: Ranked, V>(s: Seq<(K, V)>, i: int)
    requires
        ordered(s),
        0 <= i < s.len(),
    ensures
        below(s, s[i].0.rank()) == i,
        lookup(s, s[i].0.rank()) == Some(s[i].1),
{
    assert forall|a: int| 0 <= a < i implies (#[trigger] s[a]).0.rank() < s[i].0.rank() by {}
    assert forall|a: int| i <= a < s.len() implies (#[trigger] s[a]).0.rank()
        >= s[i].0.rank() by {}
    lemma_below(s, s[i].0.rank(), i);
}

/// The entries with the views of their values.
pub open spec fn viewed<K: Ranked, V: View>(s: Seq<(K, V)>) -> Seq<(K, V::V)> {
    Seq::new(s.len(), |i: int| (s[i].0, s[i].1@))
}

/// Looking at the views of the values changes nothing about the keys.
pub proof fn lemma_viewed_below<K: Ranked, V: View>(s: Seq<(K, V)>, rank: int)
    ensures
        below(viewed(s), rank) == below(s, rank),
        0 <= below(s, rank) <= s.len(),
        holds(viewed(s), rank) == holds(s, rank),
        ordered(viewed(s)) == ordered(s),
    decreases s.len(),
{
    lemma_below_grows(s, rank, rank);
    if s.len() > 0 {
        lemma_viewed_below(s.drop_last(), rank);
        assert(viewed(s.drop_last()) =~= viewed(s).drop_last());
    }
    assert(ordered(viewed(s)) == ordered(s)) by {
        if ordered(s) {
            assert forall|i: int, j: int| 0 <= i < j < s.len() implies (
            #[trigger] viewed(s)[i]).0.rank() < (#[trigger] viewed(s)[j]).0.rank() by {
                assert(s[i].0.rank() < s[j].0.rank());
            }
        }
        if ordered(viewed(s)) {
            assert forall|i: int, j: int| 0 <= i < j < s.len() implies (#[trigger] s[i]).0.rank()
                < (#[trigger] s[j]).0.rank() by {
                assert(viewed(s)[i].0.rank() < viewed(s)[j].0.rank());
            }
        }
    }
}

/// Putting an entry in and looking at the views can be exchanged.
pub proof fn lemma_viewed_inserted<K: Ranked, V: View>(s: Seq<(K, V)>, key: K, value: V)
    ensures
        viewed(inserted(s, key, value)) == inserted(viewed(s), key, value@),
{
    lemma_viewed_below(s, key.rank());
    assert(viewed(inserted(s, key, value)) =~= inserted(viewed(s), key, value@));
}

/// Taking an entry out and looking at the views can be exchanged.
pub proof fn lemma_viewed_removed<K: Ranked, V: View>(s: Seq<(K, V)>, rank: int)
    ensures
        viewed(removed(s, rank)) == removed(viewed(s), rank),
{
    lemma_viewed_below(s, rank);
    assert(viewed(removed(s, rank)) =~= removed(viewed(s), rank));
}

/// A map from keys to values, kept in the order of the keys.
#[derive(Debug)]
pub struct SortedMap<K, V> {
    /// The entries, in the order of their keys.
    pub entries: Vec<(K, V)>,
}

impl<K: Ranked, V> View for SortedMap<K, V> {
    type V = Seq<(K, V)>;

    open spec fn view(&self) -> Seq<(K, V)> {
        self.entries@
    }
}

impl<K: Ranked, V> SortedMap<K, V> {
    /// Whether the entries are in order.
    pub open spec fn wf(&self) -> bool {
        ordered(self@)
    }

    /// An empty map.
    pub fn new() -> (r: Self)
        ensures
            r@ == Seq::<(K, V)>::empty(),
            r.wf(),
    {
        SortedMap { entries: Vec::new() }
    }

    /// The number of entries.
    pub fn len(&self) -> (r: usize)
        ensures
            r == self@.len(),
    {
        self.entries.len()
    }

    /// Whether there is no entry.
    pub fn is_empty(&self) -> (r: bool)
        ensures
            r == (self@.len() == 0),
    {
        self.entries.len() == 0
    }

    /// The number of entries with a key before this one.
    pub fn lower(&self, key: &K) -> (r: usize)
        requires
            self.wf(),
        ensures
            r == below(self@, key.rank()),
            r <= self@.len(),
    {
        let mut low: usize = 0;
        let mut high: usize = self.entries.len();
        while low < high
            invariant
                self.wf(),
                low <= high <= self@.len(),
                forall|i: int| 0 <= i < low ==> (#[trigger] self@[i]).0.rank() < key.rank(),
                forall|i: int|
                    high <= i < self@.len() ==> (#[trigger] self@[i]).0.rank() >= key.rank(),
            decreases high - low,
        {
            let middle: usize = low + (high - low) / 2;
            if self.entries[middle].0.before(key) {
                assert forall|i: int| 0 <= i <= middle implies (#[trigger] self@[i]).0.rank()
                    < key.rank() by {
                    if i < middle {
                        assert(self@[i].0.rank() < self@[middle as int].0.rank());
                    }
                }
                low = middle + 1;
            } else {
                assert forall|i: int| middle <= i < self@.len() implies (
                #[trigger] self@[i]).0.rank() >= key.rank() by {
                    if i > middle {
                        assert(self@[middle as int].0.rank() < self@[i].0.rank());
                    }
                }
                high = middle;
            }
        }
        proof {
            lemma_below(self@, key.rank(), low as int);
        }
        low
    }

    /// The number of entries with this key or a key before it.
    pub fn upper(&self, key: &K) -> (r: usize)
        requires
            self.wf(),
        ensures
            r == below(self@, key.rank() + 1),
            r <= self@.len(),
    {
        let low: usize = self.lower(key);
        proof {
            lemma_below_splits(self@, key.rank());
            lemma_below_splits(self@, key.rank() + 1);
        }
        let r: usize = if low < self.entries.len() && !key.before(&self.entries[low].0) {
            low + 1
        } else {
            low
        };
        proof {
            assert forall|i: int| 0 <= i < r implies (#[trigger] self@[i]).0.rank() < key.rank()
                + 1 by {}
            assert forall|i: int| r <= i < self@.len() implies (#[trigger] self@[i]).0.rank()
                >= key.rank() + 1 by {
                if low < i {
                    assert(self@[low as int].0.rank() < self@[i].0.rank());
                }
            }
            lemma_below(self@, key.rank() + 1, r as int);
        }
        r
    }

    /// The place of a key.
    pub fn find(&self, key: &K) -> (r: Option<usize>)
        requires
            self.wf(),
        ensures
            r matches Some(i) ==> holds(self@, key.rank()) && i == below(self@, key.rank()) && i
                < self@.len(),
            r is None ==> !holds(self@, key.rank()),
    {
        let low: usize = self.lower(key);
        proof {
            lemma_below_splits(self@, key.rank());
        }
        if low < self.entries.len() && !key.before(&self.entries[low].0) {
            Some(low)
        } else {
            None
        }
    }

    /// Whether there is an entry with this key.
    pub fn contains(&self, key: &K) -> (r: bool)
        requires
            self.wf(),
        ensures
            r == holds(self@, key.rank()),
    {
        self.find(key).is_some()
    }

    /// The value under a key.
    pub fn get(&self, key: &K) -> (r: Option<&V>)
        requires
            self.wf(),
        ensures
            r matches Some(v) ==> lookup(self@, key.rank()) == Some(*v),
            r is None ==> lookup(self@, key.rank()) is None,
    {
        match self.find(key) {
            Some(i) => Some(&self.entries[i].1),
            None => None,
        }
    }

    /// Puts a value under a key.
    pub fn insert(&mut self, key: K, value: V)
        requires
            old(self).wf(),
        ensures
            final(self).wf(),
            final(self)@ == inserted(old(self)@, key, value),
    {
        proof {
            lemma_inserted(self@, key, value);
        }
        let low: usize = self.lower(&key);
        proof {
            lemma_below_splits(self@, key.rank());
        }
        if low < self.entries.len() && !key.before(&self.entries[low].0) {
            let kept: K = self.entries[low].0;
            self.entries[low] = (kept, value);
        } else {
            self.entries.insert(low, (key, value));
        }
    }

    /// Takes the value under a key out.
    pub fn remove(&mut self, key: &K) -> (r: Option<V>)
        requires
            old(self).wf(),
        ensures
            final(self).wf(),
            final(self)@ == removed(old(self)@, key.rank()),
            r == lookup(old(self)@, key.rank()),
    {
        proof {
            lemma_removed(self@, key.rank());
        }
        match self.find(key) {
            Some(i) => Some(self.entries.remove(i).1),
            None => None,
        }
    }

    /// Keeps the first `count` entries.
    pub fn keep_first(&mut self, count: usize)
        requires
            old(self).wf(),
            count <= old(self)@.len(),
        ensures
            final(self).wf(),
            final(self)@ == old(self)@.take(count as int),
    {
        proof {
            lemma_ordered_part(self@, 0, count as int);
        }
        self.entries.truncate(count);
    }

    /// Drops the first `count` entries.
    pub fn drop_first(&mut self, count: usize)
        requires
            old(self).wf(),
            count <= old(self)@.len(),
        ensures
            final(self).wf(),
            final(self)@ == old(self)@.skip(count as int),
    {
        let rest: Vec<(K, V)> = self.entries.split_off(count);
        self.entries = rest;
        proof {
            lemma_ordered_part(old(self)@, count as int, old(self)@.len() as int);
            assert(old(self)@.skip(count as int) =~= old(self)@.subrange(
                count as int,
                old(self)@.len() as int,
            ));
        }
    }

    /// Copies the map.
    pub fn copy(&self) -> (r: Self) where V: Copy
        ensures
            r@ == self@,
    {
        let mut entries: Vec<(K, V)> = Vec::new();
        let mut i: usize = 0;
        while i < self.entries.len()
            invariant
                i <= self.entries@.len(),
                entries@ =~= self.entries@.take(i as int),
            decreases self.entries@.len() - i,
        {
            let (key, value): (K, V) = self.entries[i];
            entries.push((key, value));
            i = i + 1;
        }
        SortedMap { entries }
    }

    /// Drops every entry.
    pub fn clear(&mut self)
        ensures
            final(self).wf(),
            final(self)@ == Seq::<(K, V)>::empty(),
    {
        self.entries.clear();
    }
}

} // verus!
