//! Space-Saving heavy-hitter candidates: at most `limit` counters; a new key
//! takes over the counter with the smallest count.

use vstd::prelude::*;

use crate::util::dup::Duplicate;
use crate::util::sort::{SortKey, insertion_sorted, lemma_map_values_to_multiset, sort_rows, sorted_by_key};
use crate::util::text::{compare_text, lemma_text_lt_order, lemma_text_lt_transitive, text_lt};

verus! {

/// Keys that can be compared for equality and ordered, by their views.
pub trait SketchKey: View + Duplicate + Sized {
    spec fn view_lt(a: Self::V, b: Self::V) -> bool;

    fn same_key(&self, other: &Self) -> (same: bool)
        ensures
            same == (self@ == other@),
    ;

    fn key_less(&self, other: &Self) -> (less: bool)
        ensures
            less == Self::view_lt(self@, other@),
    ;

    proof fn lemma_view_order(a: Self::V, b: Self::V)
        ensures
            a == b || Self::view_lt(a, b) || Self::view_lt(b, a),
            Self::view_lt(a, b) ==> !Self::view_lt(b, a),
            !Self::view_lt(a, a),
    ;

    proof fn lemma_view_lt_transitive(a: Self::V, b: Self::V, c: Self::V)
        requires
            Self::view_lt(a, b),
            Self::view_lt(b, c),
        ensures
            Self::view_lt(a, c),
    ;
}

impl SketchKey for String {
    open spec fn view_lt(a: Seq<char>, b: Seq<char>) -> bool {
        text_lt(a, b)
    }

    fn same_key(&self, other: &Self) -> (same: bool) {
        *self == *other
    }

    fn key_less(&self, other: &Self) -> (less: bool) {
        compare_text(self.as_str(), other.as_str()) == -1
    }

    proof fn lemma_view_order(a: Seq<char>, b: Seq<char>) {
        lemma_text_lt_order(a, b);
    }

    proof fn lemma_view_lt_transitive(a: Seq<char>, b: Seq<char>, c: Seq<char>) {
        lemma_text_lt_transitive(a, b, c);
    }
}

#[derive(Debug, Clone, PartialEq, Eq)]
pub struct Counter {
    pub count: u64,
    pub error: u64,
}

#[derive(Debug, Clone, PartialEq, Eq)]
pub enum SpaceSavingUpdate<K> {
    Existing,
    Inserted,
    Replaced { evicted: K },
}

#[derive(Clone)]
pub struct SpaceSaving<K> {
    limit: usize,
    counters: Vec<(K, Counter)>,
    keys_seen: Ghost<Seq<K>>,
}

/// No key occurs twice.
pub open spec fn distinct_keys<K: View>(entries: Seq<(K, Counter)>) -> bool {
    forall|i: int, j: int| #![trigger entries[i], entries[j]]
        0 <= i < j < entries.len() ==> entries[i].0@ != entries[j].0@
}

/// Whether `key` has a counter.
pub open spec fn has_key<K: View>(entries: Seq<(K, Counter)>, key: K::V) -> bool {
    exists|i: int| 0 <= i < entries.len() && #[trigger] entries[i].0@ == key
}

/// The position of `key`'s counter, when it has one.
pub open spec fn key_position<K: View>(entries: Seq<(K, Counter)>, key: K::V) -> int {
    choose|i: int| 0 <= i < entries.len() && #[trigger] entries[i].0@ == key
}

/// Counter `a` is evicted before counter `b`: smaller count, then smaller key.
pub open spec fn evicts_before<K: SketchKey>(a: (K, Counter), b: (K, Counter)) -> bool {
    a.1.count < b.1.count || (a.1.count == b.1.count && K::view_lt(a.0@, b.0@))
}

/// The position of the counter that a new key takes over.
pub open spec fn victim_position<K: SketchKey>(entries: Seq<(K, Counter)>) -> int
    decreases entries.len(),
{
    if entries.len() <= 1 {
        0
    } else {
        let previous = victim_position::<K>(entries.drop_last());
        if evicts_before::<K>(entries.last(), entries[previous]) {
            entries.len() - 1
        } else {
            previous
        }
    }
}

/// The sum of all counts.
pub open spec fn total_count<K>(entries: Seq<(K, Counter)>) -> int
    decreases entries.len(),
{
    if entries.len() == 0 {
        0
    } else {
        total_count(entries.drop_last()) + entries.last().1.count
    }
}

/// The counters after observing `key`.
pub open spec fn observed<K: SketchKey>(limit: nat, entries: Seq<(K, Counter)>, key: K) -> Seq<(K, Counter)> {
    if limit == 0 {
        entries
    } else if has_key(entries, key@) {
        let i = key_position(entries, key@);
        entries.update(i, (entries[i].0, Counter { count: (entries[i].1.count + 1) as u64, error: entries[i].1.error }))
    } else if entries.len() < limit {
        entries.push((key, Counter { count: 1, error: 0 }))
    } else {
        let v = victim_position::<K>(entries);
        entries.remove(v).push((key, Counter { count: (entries[v].1.count + 1) as u64, error: entries[v].1.count }))
    }
}

pub proof fn lemma_victim_position<K: SketchKey>(entries: Seq<(K, Counter)>)
    requires
        entries.len() > 0,
        distinct_keys(entries),
    ensures
        0 <= victim_position::<K>(entries) < entries.len(),
        forall|k: int| 0 <= k < entries.len() && k != victim_position::<K>(entries)
            ==> evicts_before::<K>(entries[victim_position::<K>(entries)], #[trigger] entries[k]),
    decreases entries.len(),
{
    if entries.len() > 1 {
        let init = entries.drop_last();
        lemma_victim_position::<K>(init);
        let previous = victim_position::<K>(init);
        let last = entries.len() - 1;
        K::lemma_view_order(entries[last].0@, entries[previous].0@);
        assert forall|k: int| 0 <= k < entries.len() && k != victim_position::<K>(entries)
            implies evicts_before::<K>(entries[victim_position::<K>(entries)], #[trigger] entries[k]) by {
            if k < last {
                assert(entries[k] == init[k]);
                K::lemma_view_order(entries[k].0@, entries[previous].0@);
                if victim_position::<K>(entries) == last && k != previous {
                    if entries[last].1.count == entries[previous].1.count
                        && entries[previous].1.count == entries[k].1.count {
                        K::lemma_view_lt_transitive(entries[last].0@, entries[previous].0@, entries[k].0@);
                    }
                }
            } else {
                assert(entries[last].0@ != entries[previous].0@);
            }
        }
    }
}

pub proof fn lemma_total_count_update<K>(entries: Seq<(K, Counter)>, i: int, entry: (K, Counter))
    requires
        0 <= i < entries.len(),
    ensures
        total_count(entries.update(i, entry)) == total_count(entries) - entries[i].1.count + entry.1.count,
    decreases entries.len(),
{
    if i < entries.len() - 1 {
        lemma_total_count_update(entries.drop_last(), i, entry);
        assert(entries.update(i, entry).drop_last() =~= entries.drop_last().update(i, entry));
    } else {
        assert(entries.update(i, entry).drop_last() =~= entries.drop_last());
    }
}

pub proof fn lemma_total_count_remove<K>(entries: Seq<(K, Counter)>, i: int)
    requires
        0 <= i < entries.len(),
    ensures
        total_count(entries.remove(i)) == total_count(entries) - entries[i].1.count,
    decreases entries.len(),
{
    if i < entries.len() - 1 {
        lemma_total_count_remove(entries.drop_last(), i);
        assert(entries.remove(i).drop_last() =~= entries.drop_last().remove(i));
    } else {
        assert(entries.remove(i) =~= entries.drop_last());
    }
}

impl<K: SketchKey> SortKey for (K, Counter) {
    /// Larger counts first; equal counts by ascending key.
    open spec fn sort_le_spec(&self, other: &Self) -> bool {
        self.1.count > other.1.count || (self.1.count == other.1.count && !K::view_lt(other.0@, self.0@))
    }

    fn sort_le(&self, other: &Self) -> (le: bool) {
        self.1.count > other.1.count || (self.1.count == other.1.count && !other.0.key_less(&self.0))
    }

    proof fn lemma_sort_le_total(a: &Self, b: &Self) {
        K::lemma_view_order(a.0@, b.0@);
    }

    proof fn lemma_sort_le_transitive(a: &Self, b: &Self, c: &Self) {
        K::lemma_view_order(a.0@, b.0@);
        K::lemma_view_order(b.0@, c.0@);
        K::lemma_view_order(a.0@, c.0@);
        if a.1.count == b.1.count && b.1.count == c.1.count && K::view_lt(c.0@, a.0@) {
            if a.0@ == b.0@ {
            } else if b.0@ == c.0@ {
            } else {
                K::lemma_view_lt_transitive(a.0@, b.0@, c.0@);
            }
        }
    }
}

/// A key wrapper ordered by ascending key.
pub struct KeyRow<K> {
    pub key: K,
}

impl<K: SketchKey> SortKey for KeyRow<K> {
    open spec fn sort_le_spec(&self, other: &Self) -> bool {
        !K::view_lt(other.key@, self.key@)
    }

    fn sort_le(&self, other: &Self) -> (le: bool) {
        !other.key.key_less(&self.key)
    }

    proof fn lemma_sort_le_total(a: &Self, b: &Self) {
        K::lemma_view_order(a.key@, b.key@);
    }

    proof fn lemma_sort_le_transitive(a: &Self, b: &Self, c: &Self) {
        K::lemma_view_order(a.key@, b.key@);
        K::lemma_view_order(b.key@, c.key@);
        K::lemma_view_order(a.key@, c.key@);
        if K::view_lt(c.key@, a.key@) && a.key@ != b.key@ && b.key@ != c.key@ {
            K::lemma_view_lt_transitive(a.key@, b.key@, c.key@);
        }
    }
}

impl<K: SketchKey> SpaceSaving<K> {
    pub closed spec fn limit(&self) -> nat {
        self.limit as nat
    }

    /// The counters with their keys, in storage order.
    pub closed spec fn counters(&self) -> Seq<(K, Counter)> {
        self.counters@
    }

    /// The keys observed so far, in order.
    pub closed spec fn observed_keys(&self) -> Seq<K> {
        self.keys_seen@
    }

    /// At most `limit` counters, one per key, each with an error below its
    /// count.
    pub open spec fn counters_ok(&self) -> bool {
        &&& self.counters().len() <= self.limit()
        &&& distinct_keys(self.counters())
        &&& forall|i: int| 0 <= i < self.counters().len() ==> (#[trigger] self.counters()[i]).1.error < self.counters()[i].1.count
    }

    /// The counters are well formed, and they are those of a sketch that
    /// observed the observed keys in order.
    pub open spec fn wf(&self) -> bool {
        &&& self.counters_ok()
        &&& self.counters() == sketch_of(self.limit(), self.observed_keys())
    }

    pub fn new(limit: usize) -> (sketch: Self)
        ensures
            sketch.limit() == limit,
            sketch.counters() == Seq::<(K, Counter)>::empty(),
            sketch.observed_keys() == Seq::<K>::empty(),
            sketch.wf(),
    {
        let sketch = Self { limit, counters: Vec::new(), keys_seen: Ghost(Seq::empty()) };
        assert(sketch.counters() =~= sketch_of(sketch.limit(), sketch.observed_keys()));
        sketch
    }

    fn position_of(&self, key: &K) -> (position: Option<usize>)
        ensures
            position.is_some() <==> has_key(self.counters(), key@),
            position matches Some(i) ==> i < self.counters().len() && self.counters()[i as int].0@ == key@,
    {
        let mut index: usize = 0;
        while index < self.counters.len()
            invariant
                index <= self.counters@.len(),
                forall|k: int| 0 <= k < index ==> (#[trigger] self.counters@[k]).0@ != key@,
            decreases self.counters@.len() - index,
        {
            if self.counters[index].0.same_key(key) {
                return Some(index);
            }
            index = index + 1;
        }
        None
    }

    fn victim(&self) -> (position: usize)
        requires
            self.counters@.len() > 0,
        ensures
            position == victim_position::<K>(self.counters@),
            position < self.counters@.len(),
    {
        let ghost entries = self.counters@;
        let mut best: usize = 0;
        let mut index: usize = 1;
        while index < self.counters.len()
            invariant
                1 <= index <= self.counters@.len(),
                entries == self.counters@,
                best == victim_position::<K>(entries.subrange(0, index as int)),
                best < index,
            decreases self.counters@.len() - index,
        {
            let ghost prefix = entries.subrange(0, index + 1);
            assert(prefix.drop_last() =~= entries.subrange(0, index as int));
            let candidate = &self.counters[index];
            let current = &self.counters[best];
            if candidate.1.count < current.1.count
                || (candidate.1.count == current.1.count && candidate.0.key_less(&current.0)) {
                best = index;
            }
            index = index + 1;
        }
        assert(entries.subrange(0, entries.len() as int) =~= entries);
        best
    }

    pub fn observe(&mut self, key: K)
        requires
            old(self).wf(),
            forall|i: int| 0 <= i < old(self).counters().len() ==> (#[trigger] old(self).counters()[i]).1.count < u64::MAX,
        ensures
            final(self).limit() == old(self).limit(),
            final(self).counters() == observed::<K>(old(self).limit(), old(self).counters(), key),
            final(self).observed_keys() == old(self).observed_keys().push(key),
            final(self).wf(),
    {
        let _ = self.observe_update(key);
    }

    pub fn observe_update(&mut self, key: K) -> (update: SpaceSavingUpdate<K>)
        requires
            old(self).wf(),
            forall|i: int| 0 <= i < old(self).counters().len() ==> (#[trigger] old(self).counters()[i]).1.count < u64::MAX,
        ensures
            final(self).limit() == old(self).limit(),
            final(self).counters() == observed::<K>(old(self).limit(), old(self).counters(), key),
            final(self).observed_keys() == old(self).observed_keys().push(key),
            final(self).wf(),
            old(self).limit() == 0 || has_key(old(self).counters(), key@) ==> (update is Existing),
            old(self).limit() > 0 && !has_key(old(self).counters(), key@)
                && old(self).counters().len() < old(self).limit() ==> (update is Inserted),
            old(self).limit() > 0 && !has_key(old(self).counters(), key@)
                && old(self).counters().len() >= old(self).limit() ==> update == (SpaceSavingUpdate::Replaced {
                    evicted: old(self).counters()[victim_position::<K>(old(self).counters())].0 }),
    {
        let ghost seen = self.keys_seen@;
        let ghost k = key;
        let update = self.count_key(key);
        self.keys_seen = Ghost(seen.push(k));
        proof {
            assert(seen.push(k).drop_last() =~= seen);
        }
        update
    }

    fn count_key(&mut self, key: K) -> (update: SpaceSavingUpdate<K>)
        requires
            old(self).counters_ok(),
            forall|i: int| 0 <= i < old(self).counters().len() ==> (#[trigger] old(self).counters()[i]).1.count < u64::MAX,
        ensures
            final(self).limit() == old(self).limit(),
            final(self).counters() == observed::<K>(old(self).limit(), old(self).counters(), key),
            final(self).observed_keys() == old(self).observed_keys(),
            final(self).counters_ok(),
            old(self).limit() == 0 || has_key(old(self).counters(), key@) ==> (update is Existing),
            old(self).limit() > 0 && !has_key(old(self).counters(), key@)
                && old(self).counters().len() < old(self).limit() ==> (update is Inserted),
            old(self).limit() > 0 && !has_key(old(self).counters(), key@)
                && old(self).counters().len() >= old(self).limit() ==> update == (SpaceSavingUpdate::Replaced {
                    evicted: old(self).counters()[victim_position::<K>(old(self).counters())].0 }),
    {
        let ghost entries = self.counters@;
        if self.limit == 0 {
            return SpaceSavingUpdate::Existing;
        }
        match self.position_of(&key) {
            Some(position) => {
                let count = self.counters[position].1.count;
                let error = self.counters[position].1.error;
                let ghost chosen = key_position(entries, key@);
                proof {
                    assert(entries[chosen].0@ == key@);
                    if chosen != position {
                        if chosen < position {
                            assert(entries[chosen].0@ != entries[position as int].0@);
                        } else {
                            assert(entries[position as int].0@ != entries[chosen].0@);
                        }
                    }
                }
                let entry = self.counters.remove(position);
                self.counters.insert(position, (entry.0, Counter { count: count + 1, error }));
                proof {
                    assert(self.counters@ =~= entries.update(position as int,
                        (entries[position as int].0, Counter { count: (count + 1) as u64, error })));
                }
                SpaceSavingUpdate::Existing
            },
            None => {
                if self.counters.len() < self.limit {
                    self.counters.push((key, Counter { count: 1, error: 0 }));
                    return SpaceSavingUpdate::Inserted;
                }
                let victim = self.victim();
                proof { lemma_victim_position::<K>(entries); }
                let removed = self.counters.remove(victim);
                let count = removed.1.count;
                self.counters.push((key, Counter { count: count + 1, error: count }));
                proof {
                    let e = entries.remove(victim as int);
                    assert(self.counters@ =~= e.push((key, Counter { count: (count + 1) as u64, error: count })));
                    assert forall|i: int, j: int| #![trigger self.counters@[i], self.counters@[j]]
                        0 <= i < j < self.counters@.len() implies self.counters@[i].0@ != self.counters@[j].0@ by {
                        let oi = if i < victim { i } else { i + 1 };
                        assert(e[i] == entries[oi]);
                        if j < e.len() {
                            let oj = if j < victim { j } else { j + 1 };
                            assert(e[j] == entries[oj]);
                        }
                    }
                }
                SpaceSavingUpdate::Replaced { evicted: removed.0 }
            },
        }
    }

    pub fn contains_key(&self, key: &K) -> (found: bool)
        ensures
            found == has_key(self.counters(), key@),
    {
        self.position_of(key).is_some()
    }

    /// Every key, in ascending key order.
    pub fn keys(&self) -> (keys: Vec<K>)
        ensures
            keys@.to_multiset() == self.counters().map_values(|e: (K, Counter)| e.0).to_multiset(),
            keys@.len() == self.counters().len(),
            forall|i: int, j: int| #![trigger keys@[i], keys@[j]] 0 <= i < j < keys@.len()
                ==> !K::view_lt(keys@[j]@, keys@[i]@),
    {
        let mut rows: Vec<KeyRow<K>> = Vec::new();
        let mut index: usize = 0;
        while index < self.counters.len()
            invariant
                index <= self.counters@.len(),
                rows@ == self.counters@.subrange(0, index as int).map_values(|e: (K, Counter)| KeyRow { key: e.0 }),
            decreases self.counters@.len() - index,
        {
            rows.push(KeyRow { key: self.counters[index].0.duplicate() });
            assert(self.counters@.subrange(0, index + 1) =~= self.counters@.subrange(0, index as int).push(self.counters@[index as int]));
            assert(rows@ =~= self.counters@.subrange(0, index + 1).map_values(|e: (K, Counter)| KeyRow { key: e.0 }));
            index = index + 1;
        }
        assert(self.counters@.subrange(0, self.counters@.len() as int) =~= self.counters@);
        let ghost unsorted = rows@;
        let sorted = sort_rows(rows);
        let ghost sorted_view = sorted@;
        let mut keys: Vec<K> = Vec::new();
        let mut rest = sorted;
        let mut taken: usize = 0;
        assert(rest@.skip(0) =~= rest@);
        while rest.len() > 0
            invariant
                taken + rest@.len() == sorted_view.len(),
                sorted_view.len() <= usize::MAX,
                rest@ == sorted_view.skip(taken as int),
                keys@ == sorted_view.subrange(0, taken as int).map_values(|r: KeyRow<K>| r.key),
            decreases rest@.len(),
        {
            let row = rest.remove(0);
            assert(row == sorted_view[taken as int]);
            keys.push(row.key);
            proof {
                assert(rest@ =~= sorted_view.skip(taken + 1));
                assert(keys@ =~= sorted_view.subrange(0, taken + 1).map_values(|r: KeyRow<K>| r.key));
            }
            taken = taken + 1;
        }
        proof {
            assert(sorted_view.subrange(0, taken as int) =~= sorted_view);
            lemma_map_values_to_multiset(sorted_view, unsorted, |r: KeyRow<K>| r.key);
            assert(unsorted.map_values(|r: KeyRow<K>| r.key) =~= self.counters@.map_values(|e: (K, Counter)| e.0));
            assert forall|i: int, j: int| #![trigger keys@[i], keys@[j]] 0 <= i < j < keys@.len()
                implies !K::view_lt(keys@[j]@, keys@[i]@) by {
                assert(sorted_view[i].sort_le_spec(&sorted_view[j]));
            }
        }
        keys
    }

    /// Every counter with a copy of its key, by descending count, then by
    /// ascending key.
    pub fn top(&self) -> (rows: Vec<(K, Counter)>)
        ensures
            rows@ == insertion_sorted(self.counters()),
            rows@.to_multiset() == self.counters().to_multiset(),
            sorted_by_key(rows@),
    {
        let mut copies: Vec<(K, Counter)> = Vec::new();
        let mut index: usize = 0;
        while index < self.counters.len()
            invariant
                index <= self.counters@.len(),
                copies@ == self.counters@.subrange(0, index as int),
            decreases self.counters@.len() - index,
        {
            let entry = &self.counters[index];
            copies.push((entry.0.duplicate(), Counter { count: entry.1.count, error: entry.1.error }));
            assert(self.counters@.subrange(0, index + 1) =~= self.counters@.subrange(0, index as int).push(self.counters@[index as int]));
            index = index + 1;
        }
        assert(self.counters@.subrange(0, self.counters@.len() as int) =~= self.counters@);
        sort_rows(copies)
    }
}

/// Each observation adds exactly one to the sum of all counts (for a sketch
/// with room for at least one counter), and the number of counters never
/// exceeds `limit`.
pub proof fn lemma_observe_adds_one<K: SketchKey>(limit: nat, entries: Seq<(K, Counter)>, key: K)
    requires
        limit > 0,
        entries.len() <= limit,
        distinct_keys(entries),
        forall|i: int| 0 <= i < entries.len() ==> (#[trigger] entries[i]).1.count < u64::MAX,
    ensures
        total_count(observed::<K>(limit, entries, key)) == total_count(entries) + 1,
        observed::<K>(limit, entries, key).len() <= limit,
{
    if has_key(entries, key@) {
        let i = key_position(entries, key@);
        lemma_total_count_update(entries, i, (entries[i].0, Counter { count: (entries[i].1.count + 1) as u64, error: entries[i].1.error }));
    } else if entries.len() < limit {
        assert(entries.push((key, Counter { count: 1, error: 0 })).drop_last() =~= entries);
    } else {
        lemma_victim_position::<K>(entries);
        let v = victim_position::<K>(entries);
        lemma_total_count_remove(entries, v);
        let removed = entries.remove(v);
        assert(removed.push((key, Counter { count: (entries[v].1.count + 1) as u64, error: entries[v].1.count })).drop_last() =~= removed);
    }
}

/// How many keys of `stream` have the view `key`.
pub open spec fn occurrences<K: View>(stream: Seq<K>, key: K::V) -> nat
    decreases stream.len(),
{
    if stream.len() == 0 {
        0
    } else {
        occurrences(stream.drop_last(), key) + if stream.last()@ == key { 1nat } else { 0nat }
    }
}

/// The counters of a sketch with room for `limit` counters that has
/// observed `stream`, key after key, from empty.
pub open spec fn sketch_of<K: SketchKey>(limit: nat, stream: Seq<K>) -> Seq<(K, Counter)>
    decreases stream.len(),
{
    if stream.len() == 0 {
        Seq::empty()
    } else {
        observed::<K>(limit, sketch_of(limit, stream.drop_last()), stream.last())
    }
}

/// Space-Saving's bounds after `stream`: each kept key occurred at least its
/// count less its error and at most its count times; a key that was not kept
/// occurred no more often than any kept count, and never while there was
/// room for it.
pub open spec fn counts_bracketed<K: SketchKey>(limit: nat, entries: Seq<(K, Counter)>, stream: Seq<K>) -> bool {
    &&& forall|i: int| #![trigger entries[i]] 0 <= i < entries.len() ==> entries[i].1.count - entries[i].1.error
        <= occurrences(stream, entries[i].0@) <= entries[i].1.count
    &&& forall|key: K::V| !#[trigger] has_key(entries, key) ==> (entries.len() < limit ==> occurrences(stream, key) == 0)
        && forall|i: int| 0 <= i < entries.len() ==> occurrences(stream, key) <= (#[trigger] entries[i]).1.count
}

proof fn lemma_count_within_total<K>(entries: Seq<(K, Counter)>, i: int)
    requires
        0 <= i < entries.len(),
    ensures
        entries[i].1.count <= total_count(entries),
    decreases entries.len(),
{
    lemma_total_count_nonnegative(entries.drop_last());
    if i < entries.len() - 1 {
        lemma_count_within_total(entries.drop_last(), i);
    }
}

proof fn lemma_total_count_nonnegative<K>(entries: Seq<(K, Counter)>)
    ensures
        total_count(entries) >= 0,
    decreases entries.len(),
{
    if entries.len() > 0 {
        lemma_total_count_nonnegative(entries.drop_last());
    }
}

proof fn lemma_occurrences_push<K: View>(stream: Seq<K>, key: K, view: K::V)
    ensures
        occurrences(stream.push(key), view) == occurrences(stream, view) + if key@ == view { 1nat } else { 0nat },
{
    assert(stream.push(key).drop_last() =~= stream);
}

proof fn lemma_bracket_step<K: SketchKey>(limit: nat, entries: Seq<(K, Counter)>, stream: Seq<K>, key: K)
    requires
        limit > 0,
        entries.len() <= limit,
        distinct_keys(entries),
        total_count(entries) == stream.len(),
        stream.len() + 1 < u64::MAX,
        counts_bracketed(limit, entries, stream),
    ensures
        ({
            let next = observed::<K>(limit, entries, key);
            &&& next.len() <= limit
            &&& distinct_keys(next)
            &&& total_count(next) == stream.len() + 1
            &&& counts_bracketed(limit, next, stream.push(key))
        }),
{
    let next = observed::<K>(limit, entries, key);
    let longer = stream.push(key);
    assert forall|i: int| 0 <= i < entries.len() implies (#[trigger] entries[i]).1.count < u64::MAX by {
        lemma_count_within_total(entries, i);
    }
    lemma_observe_adds_one::<K>(limit, entries, key);
    assert forall|view: K::V| #[trigger] occurrences(longer, view) == occurrences(stream, view) + if key@ == view {
        1nat
    } else {
        0nat
    } by {
        lemma_occurrences_push(stream, key, view);
    }
    if has_key(entries, key@) {
        let p = key_position(entries, key@);
        assert forall|i: int| #![trigger next[i]] 0 <= i < next.len() implies next[i].1.count - next[i].1.error
            <= occurrences(longer, next[i].0@) <= next[i].1.count by {
            if i != p {
                assert(next[i] == entries[i]);
                assert(entries[i].0@ != entries[p].0@);
            }
        }
        assert forall|view: K::V| !#[trigger] has_key(next, view) implies (next.len() < limit ==> occurrences(longer, view)
            == 0) && forall|i: int| 0 <= i < next.len() ==> occurrences(longer, view) <= (#[trigger] next[i]).1.count by {
            assert(view != key@) by {
                assert(next[p].0@ == key@);
            }
            if has_key(entries, view) {
                let w = choose|w: int| 0 <= w < entries.len() && #[trigger] entries[w].0@ == view;
                assert(next[w].0@ == view);
            }
            assert forall|i: int| 0 <= i < next.len() implies occurrences(longer, view) <= (#[trigger] next[i]).1.count by {
                assert(occurrences(stream, view) <= entries[i].1.count);
            }
        }
        assert forall|i: int, j: int| #![trigger next[i], next[j]] 0 <= i < j < next.len() implies next[i].0@
            != next[j].0@ by {
            assert(entries[i].0@ != entries[j].0@);
        }
    } else if entries.len() < limit {
        let n = entries.len() as int;
        assert(occurrences(stream, key@) == 0);
        assert forall|i: int| #![trigger next[i]] 0 <= i < next.len() implies next[i].1.count - next[i].1.error
            <= occurrences(longer, next[i].0@) <= next[i].1.count by {
            if i < n {
                assert(next[i] == entries[i]);
                assert(entries[i].0@ != key@);
            }
        }
        assert forall|view: K::V| !#[trigger] has_key(next, view) implies (next.len() < limit ==> occurrences(longer, view)
            == 0) && forall|i: int| 0 <= i < next.len() ==> occurrences(longer, view) <= (#[trigger] next[i]).1.count by {
            assert(view != key@) by {
                assert(next[n].0@ == key@);
            }
            if has_key(entries, view) {
                let w = choose|w: int| 0 <= w < entries.len() && #[trigger] entries[w].0@ == view;
                assert(next[w].0@ == view);
            }
            assert(occurrences(stream, view) == 0);
        }
        assert forall|i: int, j: int| #![trigger next[i], next[j]] 0 <= i < j < next.len() implies next[i].0@
            != next[j].0@ by {
            if j < n {
                assert(entries[i].0@ != entries[j].0@);
            } else {
                assert(next[i] == entries[i]);
            }
        }
    } else {
        lemma_victim_position::<K>(entries);
        let v = victim_position::<K>(entries);
        let victim = entries[v];
        let rest = entries.remove(v);
        let n = rest.len() as int;
        assert(next == rest.push((key, Counter { count: (victim.1.count + 1) as u64, error: victim.1.count })));
        assert(occurrences(stream, key@) <= victim.1.count);
        assert forall|i: int| 0 <= i < rest.len() implies (#[trigger] rest[i]) == entries[if i < v { i } else { i + 1 }] by {
        }
        assert forall|i: int| 0 <= i < rest.len() implies victim.1.count <= (#[trigger] rest[i]).1.count by {
            let k = if i < v { i } else { i + 1 };
            assert(evicts_before::<K>(entries[v], entries[k]));
        }
        assert forall|i: int| #![trigger next[i]] 0 <= i < next.len() implies next[i].1.count - next[i].1.error
            <= occurrences(longer, next[i].0@) <= next[i].1.count by {
            if i < n {
                let k = if i < v { i } else { i + 1 };
                assert(next[i] == entries[k]);
                assert(entries[k].0@ != key@);
            }
        }
        assert forall|view: K::V| !#[trigger] has_key(next, view) implies (next.len() < limit ==> occurrences(longer, view)
            == 0) && forall|i: int| 0 <= i < next.len() ==> occurrences(longer, view) <= (#[trigger] next[i]).1.count by {
            assert(view != key@) by {
                assert(next[n].0@ == key@);
            }
            let bound: int = if has_key(entries, view) {
                let w = choose|w: int| 0 <= w < entries.len() && #[trigger] entries[w].0@ == view;
                if w != v {
                    let i = if w < v { w } else { w - 1 };
                    assert(next[i] == entries[w]);
                    assert(false);
                }
                victim.1.count as int
            } else {
                victim.1.count as int
            };
            assert(occurrences(stream, view) <= victim.1.count);
            assert forall|i: int| 0 <= i < next.len() implies occurrences(longer, view) <= (#[trigger] next[i]).1.count by {
                if i < n {
                    assert(victim.1.count <= rest[i].1.count);
                }
            }
        }
        assert forall|i: int, j: int| #![trigger next[i], next[j]] 0 <= i < j < next.len() implies next[i].0@
            != next[j].0@ by {
            let ki = if i < v { i } else { i + 1 };
            if j < n {
                let kj = if j < v { j } else { j + 1 };
                assert(entries[ki].0@ != entries[kj].0@);
            } else {
                assert(next[i] == entries[ki]);
            }
        }
    }
}

/// Space-Saving's guarantee: after any stream (shorter than the largest
/// count), every kept key's count is at least its true number of
/// occurrences and overstates it by at most the key's error; a key that was
/// not kept occurred no more often than any kept count, and not at all while
/// the sketch still had room.
pub proof fn lemma_space_saving_bounds<K: SketchKey>(limit: nat, stream: Seq<K>)
    requires
        limit > 0,
        stream.len() < u64::MAX,
    ensures
        sketch_of(limit, stream).len() <= limit,
        distinct_keys(sketch_of(limit, stream)),
        total_count(sketch_of(limit, stream)) == stream.len(),
        counts_bracketed(limit, sketch_of(limit, stream), stream),
    decreases stream.len(),
{
    if stream.len() == 0 {
        let empty = Seq::<(K, Counter)>::empty();
        assert(sketch_of(limit, stream) =~= empty);
        assert forall|key: K::V| !#[trigger] has_key(empty, key) implies (empty.len() < limit ==> occurrences(stream, key)
            == 0) && forall|i: int| 0 <= i < empty.len() ==> occurrences(stream, key) <= (#[trigger] empty[i]).1.count by {
        }
    } else {
        let init = stream.drop_last();
        lemma_space_saving_bounds::<K>(limit, init);
        lemma_bracket_step::<K>(limit, sketch_of(limit, init), init, stream.last());
        assert(init.push(stream.last()) =~= stream);
    }
}

/// Space-Saving's guarantees hold of every sketch, whatever keys it
/// observed: its counts add up to the number of observed keys, each kept
/// key occurred at least its count less its error and at most its count
/// times, and a key that was not kept occurred no more often than any kept
/// count (and never while there was room for it).
pub proof fn lemma_sketch_guarantees<K: SketchKey>(sketch: SpaceSaving<K>)
    requires
        sketch.wf(),
        sketch.limit() > 0,
        sketch.observed_keys().len() < u64::MAX,
    ensures
        total_count(sketch.counters()) == sketch.observed_keys().len(),
        counts_bracketed(sketch.limit(), sketch.counters(), sketch.observed_keys()),
{
    lemma_space_saving_bounds::<K>(sketch.limit(), sketch.observed_keys());
}

} // verus!
