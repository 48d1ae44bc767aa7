//! Maps that keep their entries in the order of the keys.

use vstd::prelude::*;

use crate::bytes;
use crate::bytes::{lex_rank, Rank};

verus! {

/// A type of keys with a strict total order.
pub trait Key: Copy {
    /// `self` comes before `other`.
    spec fn before(self, other: Self) -> bool;

    proof fn irreflexive(a: Self)
        ensures
            !a.before(a),
    ;

    proof fn transitive(a: Self, b: Self, c: Self)
        requires
            a.before(b),
            b.before(c),
        ensures
            a.before(c),
    ;

    /// Where `self` stands with respect to `other`.
    fn rank(&self, other: &Self) -> (rank: Rank)
        ensures
            match rank {
                Rank::Less => self.before(*other),
                Rank::Equal => *self == *other,
                Rank::Greater => other.before(*self),
            },
    ;
}

impl Key for u32 {
    open spec fn before(self, other: Self) -> bool {
        self < other
    }

    proof fn irreflexive(a: Self) {
    }

    proof fn transitive(a: Self, b: Self, c: Self) {
    }

    fn rank(&self, other: &Self) -> (rank: Rank) {
        if *self < *other {
            Rank::Less
        } else if *self == *other {
            Rank::Equal
        } else {
            Rank::Greater
        }
    }
}

impl Key for u64 {
    open spec fn before(self, other: Self) -> bool {
        self < other
    }

    proof fn irreflexive(a: Self) {
    }

    proof fn transitive(a: Self, b: Self, c: Self) {
    }

    fn rank(&self, other: &Self) -> (rank: Rank) {
        if *self < *other {
            Rank::Less
        } else if *self == *other {
            Rank::Equal
        } else {
            Rank::Greater
        }
    }
}

impl Key for [u8; 32] {
    open spec fn before(self, other: Self) -> bool {
        bytes::lex_before(self@, other@)
    }

    proof fn irreflexive(a: Self) {
        bytes::lemma_lex_irreflexive(a@);
    }

    proof fn transitive(a: Self, b: Self, c: Self) {
        bytes::lemma_lex_transitive(a@, b@, c@);
    }

    fn rank(&self, other: &Self) -> (rank: Rank) {
        lex_rank(self, other)
    }
}

/// The keys of `entries` are strictly increasing.
pub open spec fn sorted<K: Key, V>(entries: Seq<(K, V)>) -> bool {
    forall|i: int, j: int|
        #![trigger entries[i], entries[j]]
        0 <= i < j < entries.len() ==> entries[i].0.before(entries[j].0)
}

/// Entry `i` is the one under `key`.
pub open spec fn entry_at<K, V>(entries: Seq<(K, V)>, key: K, i: int) -> bool {
    0 <= i < entries.len() && entries[i].0 == key
}

/// Some entry stands under `key`.
pub open spec fn has_key<K, V>(entries: Seq<(K, V)>, key: K) -> bool {
    exists|i: int| entry_at(entries, key, i)
}

/// The value that stands under `key`, if any.
pub open spec fn lookup<K, V>(entries: Seq<(K, V)>, key: K) -> Option<V> {
    if has_key(entries, key) {
        Some(entries[choose|i: int| entry_at(entries, key, i)].1)
    } else {
        None
    }
}

/// The keys of `entries`, in order.
pub open spec fn keys<K, V>(entries: Seq<(K, V)>) -> Seq<K> {
    entries.map_values(|entry: (K, V)| entry.0)
}

/// The mapping that `entries` spell out.
pub open spec fn contents<K, V>(entries: Seq<(K, V)>) -> Map<K, V> {
    Map::new(|key: K| has_key(entries, key), |key: K| lookup(entries, key)->0)
}

/// A key stands in one place only.
pub proof fn lemma_lookup_at<K: Key, V>(entries: Seq<(K, V)>, i: int)
    requires
        sorted(entries),
        0 <= i < entries.len(),
    ensures
        has_key(entries, entries[i].0),
        lookup(entries, entries[i].0) == Some(entries[i].1),
{
    let key = entries[i].0;
    assert(entry_at(entries, key, i));
    let j = choose|j: int| entry_at(entries, key, j);
    K::irreflexive(key);
    if i < j {
        assert(entries[i].0.before(entries[j].0));
    } else if j < i {
        assert(entries[j].0.before(entries[i].0));
    }
}

/// Sorted entries under the same number of keys, all of them known to
/// `others`, stand under exactly the keys of `others`.
pub proof fn lemma_same_keys<K: Key, V, W>(entries: Seq<(K, V)>, others: Seq<(K, W)>)
    requires
        sorted(entries),
        sorted(others),
        entries.len() == others.len(),
        forall|i: int| 0 <= i < entries.len() ==> has_key(others, #[trigger] entries[i].0),
    ensures
        keys(entries) == keys(others),
{
    assert forall|i: int| 0 <= i < entries.len() implies entries[i].0 == others[i].0 by {
        lemma_place_at_least(entries, others, i);
        lemma_place_at_most(entries, others, i);
    }
    assert(keys(entries) =~= keys(others));
}

spec fn place<K, V>(entries: Seq<(K, V)>, key: K) -> int {
    choose|i: int| entry_at(entries, key, i)
}

proof fn lemma_place_increases<K: Key, V, W>(
    entries: Seq<(K, V)>,
    others: Seq<(K, W)>,
    i: int,
    j: int,
)
    requires
        sorted(entries),
        sorted(others),
        0 <= i < j < entries.len(),
        has_key(others, entries[i].0),
        has_key(others, entries[j].0),
    ensures
        place(others, entries[i].0) < place(others, entries[j].0),
{
    let p = place(others, entries[i].0);
    let q = place(others, entries[j].0);
    assert(entry_at(others, entries[i].0, p));
    assert(entry_at(others, entries[j].0, q));
    assert(entries[i].0.before(entries[j].0));
    K::irreflexive(entries[i].0);
    if q < p {
        assert(others[q].0.before(others[p].0));
        K::transitive(entries[i].0, entries[j].0, entries[i].0);
    }
}

proof fn lemma_place_at_least<K: Key, V, W>(entries: Seq<(K, V)>, others: Seq<(K, W)>, i: int)
    requires
        sorted(entries),
        sorted(others),
        0 <= i < entries.len(),
        forall|i: int| 0 <= i < entries.len() ==> has_key(others, #[trigger] entries[i].0),
    ensures
        entry_at(others, entries[i].0, place(others, entries[i].0)),
        place(others, entries[i].0) >= i,
    decreases i,
{
    assert(has_key(others, entries[i].0));
    if i > 0 {
        lemma_place_at_least(entries, others, i - 1);
        lemma_place_increases(entries, others, i - 1, i);
    }
}

proof fn lemma_place_at_most<K: Key, V, W>(entries: Seq<(K, V)>, others: Seq<(K, W)>, i: int)
    requires
        sorted(entries),
        sorted(others),
        entries.len() == others.len(),
        0 <= i < entries.len(),
        forall|i: int| 0 <= i < entries.len() ==> has_key(others, #[trigger] entries[i].0),
    ensures
        place(others, entries[i].0) <= i,
    decreases entries.len() - i,
{
    assert(has_key(others, entries[i].0));
    assert(entry_at(others, entries[i].0, place(others, entries[i].0)));
    if i + 1 < entries.len() {
        assert(has_key(others, entries[i + 1].0));
        lemma_place_at_most(entries, others, i + 1);
        lemma_place_increases(entries, others, i, i + 1);
    }
}

/// A map whose entries stand in the order of their keys, at most one per key.
#[derive(Clone, Debug, PartialEq, Eq)]
pub struct SortedMap<K, V> {
    entries: Vec<(K, V)>,
}

impl<K, V> View for SortedMap<K, V> {
    type V = Seq<(K, V)>;

    closed spec fn view(&self) -> Seq<(K, V)> {
        self.entries@
    }
}

impl<K: Key, V> SortedMap<K, V> {
    /// The entries are in order.
    pub open spec fn wf(self) -> bool {
        sorted(self@)
    }

    /// The mapping that the entries spell out.
    pub open spec fn to_map(self) -> Map<K, V> {
        contents(self@)
    }

    pub fn new() -> (map: Self)
        ensures
            map.wf(),
            map@ == Seq::<(K, V)>::empty(),
    {
        SortedMap { entries: Vec::new() }
    }

    pub fn len(&self) -> (len: usize)
        ensures
            len == self@.len(),
    {
        self.entries.len()
    }

    /// The entry at position `i`, counted in the order of the keys.
    pub fn entry(&self, i: usize) -> (entry: &(K, V))
        requires
            i < self@.len(),
        ensures
            *entry == self@[i as int],
    {
        &self.entries[i]
    }

    /// All entries, in the order of the keys.
    pub fn entries(&self) -> (entries: &Vec<(K, V)>)
        ensures
            entries@ == self@,
    {
        &self.entries
    }

    /// The first position whose key does not come before `key`, and whether it
    /// is `key` that stands there.
    fn find(&self, key: &K) -> (found: (usize, bool))
        requires
            self.wf(),
        ensures
            found.0 <= self@.len(),
            forall|i: int| 0 <= i < found.0 ==> (#[trigger] self@[i]).0.before(*key),
            found.1 ==> entry_at(self@, *key, found.0 as int),
            !found.1 ==> !has_key(self@, *key) && forall|i: int|
                found.0 <= i < self@.len() ==> key.before((#[trigger] self@[i]).0),
    {
        let mut i: usize = 0;
        while i < self.entries.len()
            invariant
                self.wf(),
                self@ == self.entries@,
                i <= self@.len(),
                forall|j: int| 0 <= j < i ==> (#[trigger] self@[j]).0.before(*key),
            decreases self.entries@.len() - i,
        {
            match self.entries[i].0.rank(key) {
                Rank::Less => {},
                Rank::Equal => {
                    return (i, true);
                },
                Rank::Greater => {
                    proof {
                        assert forall|j: int| i <= j < self@.len() implies key.before(
                            (#[trigger] self@[j]).0,
                        ) by {
                            if j > i {
                                assert(self@[i as int].0.before(self@[j].0));
                                K::transitive(*key, self@[i as int].0, self@[j].0);
                            }
                        }
                        if has_key(self@, *key) {
                            let j = choose|j: int| entry_at(self@, *key, j);
                            K::irreflexive(*key);
                            assert(self@[j].0 == *key);
                        }
                    }
                    return (i, false);
                },
            }
            i += 1;
        }
        proof {
            if has_key(self@, *key) {
                let j = choose|j: int| entry_at(self@, *key, j);
                K::irreflexive(*key);
                assert(self@[j].0 == *key);
            }
        }
        (i, false)
    }

    /// The value under `key`, if any.
    pub fn get(&self, key: &K) -> (value: Option<&V>)
        requires
            self.wf(),
        ensures
            match value {
                Some(value) => lookup(self@, *key) == Some(*value),
                None => lookup(self@, *key) is None,
            },
    {
        let (i, known) = self.find(key);
        if known {
            proof {
                lemma_lookup_at(self@, i as int);
            }
            Some(&self.entries[i].1)
        } else {
            None
        }
    }

    /// Puts `value` under `key`, in place of what stood there.
    pub fn set(&mut self, key: K, value: V)
        requires
            old(self).wf(),
        ensures
            final(self).wf(),
            final(self).to_map() == old(self).to_map().insert(key, value),
            keys(final(self)@) == keys(old(self)@) || !has_key(old(self)@, key),
            forall|i: int| #[trigger]
                entry_at(old(self)@, key, i) ==> final(self)@ == old(self)@.update(
                    i,
                    (key, value),
                ),
            (forall|i: int| 0 <= i < old(self)@.len() ==> (#[trigger] old(self)@[i]).0.before(key))
                ==> final(self)@ == old(self)@.push((key, value)),
    {
        let (at, known) = self.find(&key);
        let ghost before = self@;
        if known {
            self.entries[at] = (key, value);
            assert(self@ =~= before.update(at as int, (key, value)));
        } else {
            self.entries.insert(at, (key, value));
            assert(self@ =~= before.insert(at as int, (key, value)));
        }
        proof {
            lemma_set(before, self@, at as int, known, key, value);
        }
    }

    /// Takes away what stands under `key`.
    pub fn remove(&mut self, key: &K)
        requires
            old(self).wf(),
        ensures
            final(self).wf(),
            final(self).to_map() == old(self).to_map().remove(*key),
    {
        let (at, known) = self.find(key);
        let ghost before = self@;
        if known {
            self.entries.remove(at);
            assert(self@ =~= before.remove(at as int));
        }
        proof {
            lemma_remove(before, self@, at as int, known, *key);
        }
    }
}

impl<K: Key, V: Copy> SortedMap<K, V> {
    /// A map with the same entries.
    pub fn duplicate(&self) -> (map: Self)
        ensures
            map@ == self@,
    {
        let mut entries: Vec<(K, V)> = Vec::new();
        let mut i: usize = 0;
        while i < self.entries.len()
            invariant
                i <= self.entries@.len(),
                entries@ == self.entries@.take(i as int),
            decreases self.entries@.len() - i,
        {
            entries.push((self.entries[i].0, self.entries[i].1));
            i += 1;
        }
        assert(entries@ =~= self.entries@);
        SortedMap { entries }
    }
}

proof fn lemma_set<K: Key, V>(
    before: Seq<(K, V)>,
    after: Seq<(K, V)>,
    at: int,
    known: bool,
    key: K,
    value: V,
)
    requires
        sorted(before),
        0 <= at <= before.len(),
        forall|i: int| 0 <= i < at ==> (#[trigger] before[i]).0.before(key),
        known ==> entry_at(before, key, at) && after == before.update(at, (key, value)),
        !known ==> !has_key(before, key) && after == before.insert(at, (key, value)) && forall|
            i: int,
        |
            at <= i < before.len() ==> key.before((#[trigger] before[i]).0),
    ensures
        sorted(after),
        contents(after) == contents(before).insert(key, value),
        keys(after) == keys(before) || !has_key(before, key),
        forall|i: int| #[trigger]
            entry_at(before, key, i) ==> after == before.update(i, (key, value)),
        (forall|i: int| 0 <= i < before.len() ==> (#[trigger] before[i]).0.before(key)) ==> after
            == before.push((key, value)),
{
    assert(sorted(after)) by {
        assert forall|i: int, j: int|
            #![trigger after[i], after[j]]
            0 <= i < j < after.len() implies after[i].0.before(after[j].0) by {
            if !known {
                if i < at {
                    assert(after[i] == before[i]);
                } else if i > at {
                    assert(after[i] == before[i - 1]);
                }
                if j < at {
                    assert(after[j] == before[j]);
                } else if j > at {
                    assert(after[j] == before[j - 1]);
                }
            }
        }
    }
    if known {
        assert(keys(after) =~= keys(before));
    }
    assert(after[at] == (key, value));
    assert forall|other: K| has_key(after, other) == (has_key(before, other) || other == key) by {
        if has_key(after, other) {
            let i = choose|i: int| entry_at(after, other, i);
            if i < at || known {
                assert(other == key || entry_at(before, other, i));
            } else if i > at {
                assert(entry_at(before, other, i - 1));
            }
        }
        if has_key(before, other) {
            let i = choose|i: int| entry_at(before, other, i);
            if i < at || known {
                assert(entry_at(after, other, i));
            } else {
                assert(entry_at(after, other, i + 1));
            }
        }
        if other == key {
            assert(entry_at(after, key, at));
        }
    }
    assert forall|other: K| has_key(after, other) implies lookup(after, other)->0 == (if other
        == key {
        value
    } else {
        lookup(before, other)->0
    }) by {
        let i = choose|i: int| entry_at(after, other, i);
        lemma_lookup_at(after, i);
        lemma_lookup_at(after, at);
        if other != key {
            if i < at || known {
                lemma_lookup_at(before, i);
            } else {
                lemma_lookup_at(before, i - 1);
            }
        }
    }
    assert(contents(after) =~= contents(before).insert(key, value));
    assert forall|i: int| #[trigger] entry_at(before, key, i) implies after == before.update(
        i,
        (key, value),
    ) by {
        assert(has_key(before, key));
        K::irreflexive(key);
        if i < at {
            assert(before[i].0.before(key));
        } else if i > at {
            assert(before[at].0.before(before[i].0));
        }
    }
    if forall|i: int| 0 <= i < before.len() ==> (#[trigger] before[i]).0.before(key) {
        K::irreflexive(key);
        if at < before.len() {
            assert(before[at].0.before(key));
            if !known {
                K::transitive(key, before[at].0, key);
            }
        }
        assert(after =~= before.push((key, value)));
    }
}

proof fn lemma_remove<K: Key, V>(
    before: Seq<(K, V)>,
    after: Seq<(K, V)>,
    at: int,
    known: bool,
    key: K,
)
    requires
        sorted(before),
        known ==> entry_at(before, key, at) && after == before.remove(at),
        !known ==> !has_key(before, key) && after == before,
    ensures
        sorted(after),
        contents(after) == contents(before).remove(key),
{
    if known {
        assert forall|i: int, j: int|
            #![trigger after[i], after[j]]
            0 <= i < j < after.len() implies after[i].0.before(after[j].0) by {
            let p = if i < at {
                i
            } else {
                i + 1
            };
            let q = if j < at {
                j
            } else {
                j + 1
            };
            assert(before[p].0.before(before[q].0));
        }
    }
    assert forall|other: K| has_key(after, other) == (has_key(before, other) && other != key) by {
        if has_key(after, other) {
            let i = choose|i: int| entry_at(after, other, i);
            let p = if known && i >= at {
                i + 1
            } else {
                i
            };
            assert(entry_at(before, other, p));
            if known && other == key {
                K::irreflexive(key);
                if p < at {
                    assert(before[p].0.before(before[at].0));
                } else {
                    assert(before[at].0.before(before[p].0));
                }
            }
        }
        if has_key(before, other) && other != key {
            let i = choose|i: int| entry_at(before, other, i);
            let p = if known && i > at {
                i - 1
            } else {
                i
            };
            assert(entry_at(after, other, p));
        }
    }
    assert forall|other: K| has_key(after, other) implies lookup(after, other)->0 == lookup(
        before,
        other,
    )->0 by {
        let i = choose|i: int| entry_at(after, other, i);
        lemma_lookup_at(after, i);
        let p = if known && i >= at {
            i + 1
        } else {
            i
        };
        lemma_lookup_at(before, p);
    }
    assert(contents(after) =~= contents(before).remove(key));
}

/// In a sorted map a key stands once: what is found under it is what stands
/// beside it, and nothing is found under a key that stands nowhere.
pub proof fn law_found_where_it_stands<K: Key, V>(entries: Seq<(K, V)>, key: K, i: int)
    requires
        forall|a: int, b: int|
            #![trigger entries[a], entries[b]]
            0 <= a < b < entries.len() ==> entries[a].0.before(entries[b].0),
    ensures
        sorted(entries),
        0 <= i < entries.len() && entries[i].0 == key ==> {
            &&& has_key(entries, key)
            &&& lookup(entries, key) == Some(entries[i].1)
            &&& contents(entries).contains_key(key)
            &&& contents(entries)[key] == entries[i].1
        },
        (forall|k: int| 0 <= k < entries.len() ==> (#[trigger] entries[k]).0 != key) ==> {
            &&& !has_key(entries, key)
            &&& lookup(entries, key) is None
            &&& !contents(entries).contains_key(key)
        },
        keys(entries).len() == entries.len(),
        0 <= i < entries.len() ==> keys(entries)[i] == entries[i].0,
{
    if 0 <= i < entries.len() && entries[i].0 == key {
        lemma_lookup_at(entries, i);
    }
}

/// The entries of a sorted map are in the order of their keys, from the smallest
/// on.
pub proof fn law_sorted_iff<K: Key, V>(entries: Seq<(K, V)>)
    ensures
        sorted(entries) <==> forall|a: int, b: int|
            #![trigger entries[a], entries[b]]
            0 <= a < b < entries.len() ==> entries[a].0.before(entries[b].0),
{
}

/// Numbers are ordered by their values, and 32-byte keys by their first
/// difference.
pub proof fn law_key_order(a: u32, b: u32, c: u64, d: u64, e: [u8; 32], f: [u8; 32])
    ensures
        a.before(b) <==> a < b,
        c.before(d) <==> c < d,
        e.before(f) <==> exists|k: int|
            0 <= k < 32 && e@[k] < f@[k] && #[trigger] e@.take(k) == f@.take(k),
{
    bytes::law_lex_order(e@, f@);
}

} // verus!
