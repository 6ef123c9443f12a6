//! A table from keys to values in insertion order, where no key occurs
//! twice: inserting an existing key replaces its value in place.

use vstd::prelude::*;

use crate::util::text::compare_text;

verus! {

/// A key whose executable equality agrees with equality of views.
pub trait TableKey: View + Sized {
    fn same_key(&self, other: &Self) -> (same: bool)
        ensures
            same == (self@ == other@),
    ;
}

impl TableKey for String {
    fn same_key(&self, other: &Self) -> (same: bool) {
        compare_text(self.as_str(), other.as_str()) == 0
    }
}

#[derive(Debug)]
pub struct KeyedTable<K, V> {
    entries: Vec<(K, V)>,
}

/// No key occurs twice.
pub open spec fn distinct_entry_keys<K: View, V>(entries: Seq<(K, V)>) -> bool {
    forall|i: int, j: int| #![trigger entries[i], entries[j]]
        0 <= i < j < entries.len() ==> entries[i].0@ != entries[j].0@
}

pub open spec fn entries_have_key<K: View, V>(entries: Seq<(K, V)>, key: K::V) -> bool {
    exists|i: int| 0 <= i < entries.len() && #[trigger] entries[i].0@ == key
}

pub open spec fn entry_position<K: View, V>(entries: Seq<(K, V)>, key: K::V) -> int {
    choose|i: int| 0 <= i < entries.len() && #[trigger] entries[i].0@ == key
}

/// The value stored under `key`, if any.
pub open spec fn entry_value<K: View, V>(entries: Seq<(K, V)>, key: K::V) -> Option<V> {
    if entries_have_key(entries, key) {
        Some(entries[entry_position(entries, key)].1)
    } else {
        None
    }
}

/// The entries after `key` is set to `value`: replaced in place when the
/// key is present, appended otherwise.
pub open spec fn entries_inserted<K: View, V>(entries: Seq<(K, V)>, key: K, value: V) -> Seq<(K, V)> {
    if entries_have_key(entries, key@) {
        entries.update(entry_position(entries, key@), (key, value))
    } else {
        entries.push((key, value))
    }
}

/// In a table without repeated keys, the value under a key is the value
/// of the one entry with that key.
pub proof fn lemma_entry_value<K: View, V>(entries: Seq<(K, V)>, i: int)
    requires
        distinct_entry_keys(entries),
        0 <= i < entries.len(),
    ensures
        entry_value(entries, entries[i].0@) == Some(entries[i].1),
        entry_position(entries, entries[i].0@) == i,
{
    assert(entries_have_key(entries, entries[i].0@));
    let p = entry_position(entries, entries[i].0@);
    if p != i {
        if p < i {
            assert(entries[p].0@ != entries[i].0@);
        } else {
            assert(entries[i].0@ != entries[p].0@);
        }
    }
}

/// Inserting keeps keys distinct; afterwards `key` reads `value` and every
/// other key reads what it read before.
pub proof fn lemma_entries_inserted<K: View, V>(entries: Seq<(K, V)>, key: K, value: V)
    requires
        distinct_entry_keys(entries),
    ensures
        distinct_entry_keys(entries_inserted(entries, key, value)),
        entry_value(entries_inserted(entries, key, value), key@) == Some(value),
        forall|k: K::V| k != key@ ==> #[trigger] entry_value(entries_inserted(entries, key, value), k)
            == entry_value(entries, k),
{
    let result = entries_inserted(entries, key, value);
    if entries_have_key(entries, key@) {
        let p = entry_position(entries, key@);
        assert forall|i: int, j: int| #![trigger result[i], result[j]] 0 <= i < j < result.len()
            implies result[i].0@ != result[j].0@ by {
            assert(entries[i].0@ != entries[j].0@);
        }
        lemma_entry_value(result, p);
        assert forall|k: K::V| k != key@ implies #[trigger] entry_value(result, k) == entry_value(entries, k) by {
            if entries_have_key(entries, k) {
                let q = entry_position(entries, k);
                lemma_entry_value(entries, q);
                assert(q != p);
                assert(result[q] == entries[q]);
                lemma_entry_value(result, q);
            } else {
                if entries_have_key(result, k) {
                    let q = entry_position(result, k);
                    assert(q != p);
                    assert(entries[q] == result[q]);
                }
            }
        }
    } else {
        assert forall|i: int, j: int| #![trigger result[i], result[j]] 0 <= i < j < result.len()
            implies result[i].0@ != result[j].0@ by {
            if j == entries.len() {
                assert(result[i] == entries[i]);
            } else {
                assert(entries[i].0@ != entries[j].0@);
            }
        }
        lemma_entry_value(result, entries.len() as int);
        assert forall|k: K::V| k != key@ implies #[trigger] entry_value(result, k) == entry_value(entries, k) by {
            if entries_have_key(entries, k) {
                let q = entry_position(entries, k);
                lemma_entry_value(entries, q);
                assert(result[q] == entries[q]);
                lemma_entry_value(result, q);
            } else {
                if entries_have_key(result, k) {
                    let q = entry_position(result, k);
                    assert(q != entries.len());
                    assert(entries[q] == result[q]);
                }
            }
        }
    }
}

/// The table as a map from key views to value views.
pub open spec fn entries_map<K: View, V: View>(entries: Seq<(K, V)>) -> Map<K::V, V::V> {
    Map::new(|k: K::V| entries_have_key(entries, k), |k: K::V| entries[entry_position(entries, k)].1@)
}

/// Inserting into the entries inserts into their map.
pub proof fn lemma_entries_map_inserted<K: View, V: View>(entries: Seq<(K, V)>, key: K, value: V)
    requires
        distinct_entry_keys(entries),
    ensures
        entries_map(entries_inserted(entries, key, value)) == entries_map(entries).insert(key@, value@),
{
    lemma_entries_inserted(entries, key, value);
    let after = entries_inserted(entries, key, value);
    assert forall|k: K::V| #[trigger] entries_have_key(after, k) == (entries_have_key(entries, k) || k == key@) by {
        if k == key@ {
            assert(entry_value(after, k) is Some);
        } else {
            assert(entry_value(after, k) == entry_value(entries, k));
        }
    }
    assert forall|k: K::V| entries_have_key(after, k) implies #[trigger] after[entry_position(after, k)].1@
        == entries_map(entries).insert(key@, value@)[k] by {
        if k == key@ {
            assert(entry_value(after, k) == Some(value));
        } else {
            assert(entry_value(after, k) == entry_value(entries, k));
        }
    }
    assert(entries_map(after) =~= entries_map(entries).insert(key@, value@));
}

impl<K: TableKey, V> KeyedTable<K, V> {
    /// The entries in insertion order.
    pub closed spec fn entries(&self) -> Seq<(K, V)> {
        self.entries@
    }

    /// No key occurs twice.
    pub open spec fn wf(&self) -> bool {
        distinct_entry_keys(self.entries())
    }

    /// The value stored under `key`, if any.
    pub open spec fn value_of(&self, key: K::V) -> Option<V> {
        entry_value(self.entries(), key)
    }

    pub fn new() -> (table: Self)
        ensures
            table.entries() == Seq::<(K, V)>::empty(),
            table.wf(),
    {
        KeyedTable { entries: Vec::new() }
    }

    fn position(&self, key: &K) -> (found: Option<usize>)
        ensures
            match found {
                Some(i) => i < self.entries@.len() && self.entries@[i as int].0@ == key@,
                None => !entries_have_key(self.entries@, key@),
            },
    {
        let mut index: usize = 0;
        while index < self.entries.len()
            invariant
                index <= self.entries@.len(),
                forall|k: int| 0 <= k < index ==> (#[trigger] self.entries@[k]).0@ != key@,
            decreases self.entries@.len() - index,
        {
            if self.entries[index].0.same_key(key) {
                return Some(index);
            }
            index = index + 1;
        }
        None
    }

    /// The value stored under `key`, if any.
    pub fn get(&self, key: &K) -> (value: Option<&V>)
        requires
            self.wf(),
        ensures
            match value {
                Some(v) => self.value_of(key@) == Some(*v),
                None => self.value_of(key@) is None,
            },
    {
        match self.position(key) {
            Some(i) => {
                proof { lemma_entry_value(self.entries@, i as int); }
                Some(&self.entries[i].1)
            },
            None => None,
        }
    }

    /// The position of `key`'s entry, if any.
    pub fn find(&self, key: &K) -> (found: Option<usize>)
        requires
            self.wf(),
        ensures
            match found {
                Some(i) => i < self.entries().len() && self.entries()[i as int].0@ == key@
                    && entry_position(self.entries(), key@) == i,
                None => !entries_have_key(self.entries(), key@),
            },
    {
        let found = self.position(key);
        match found {
            Some(i) => {
                proof { lemma_entry_value(self.entries@, i as int); }
            },
            None => {},
        }
        found
    }

    /// Sets the value of `key`: in place when the key is present, as a new
    /// last entry otherwise.
    pub fn insert(&mut self, key: K, value: V)
        requires
            old(self).wf(),
        ensures
            final(self).entries() == entries_inserted(old(self).entries(), key, value),
            final(self).wf(),
            final(self).value_of(key@) == Some(value),
            forall|k: K::V| k != key@ ==> #[trigger] final(self).value_of(k) == old(self).value_of(k),
    {
        proof { lemma_entries_inserted(self.entries@, key, value); }
        match self.position(&key) {
            Some(i) => {
                proof { lemma_entry_value(self.entries@, i as int); }
                self.entries.set(i, (key, value));
            },
            None => {
                self.entries.push((key, value));
            },
        }
    }

    /// The entry at `index`, in insertion order.
    pub fn entry(&self, index: usize) -> (entry: &(K, V))
        requires
            index < self.entries().len(),
        ensures
            *entry == self.entries()[index as int],
    {
        &self.entries[index]
    }

    pub fn len(&self) -> (count: usize)
        ensures
            count == self.entries().len(),
    {
        self.entries.len()
    }

    pub fn clear(&mut self)
        ensures
            final(self).entries() == Seq::<(K, V)>::empty(),
            final(self).wf(),
    {
        self.entries.clear();
    }

    /// Takes every entry out, in order, and leaves the table empty.
    pub fn take_entries(&mut self) -> (entries: Vec<(K, V)>)
        ensures
            entries@ == old(self).entries(),
            final(self).entries() == Seq::<(K, V)>::empty(),
            final(self).wf(),
    {
        let mut taken: Vec<(K, V)> = Vec::new();
        core::mem::swap(&mut taken, &mut self.entries);
        taken
    }

    /// The value at `index`, to change in place; the keys stay as they are.
    pub fn value_mut(&mut self, index: usize) -> (value: &mut V)
        requires
            index < old(self).entries().len(),
        ensures
            *value == old(self).entries()[index as int].1,
            final(self).entries() == old(self).entries().update(
                index as int,
                (old(self).entries()[index as int].0, *final(value)),
            ),
    {
        &mut self.entries[index].1
    }

    /// Replaces the value at `index`.
    pub fn set_value(&mut self, index: usize, value: V)
        requires
            index < old(self).entries().len(),
            old(self).wf(),
        ensures
            final(self).entries() == old(self).entries().update(
                index as int,
                (old(self).entries()[index as int].0, value),
            ),
            final(self).wf(),
    {
        let ghost before = self.entries@;
        let (key, _old) = self.entries.remove(index);
        self.entries.insert(index, (key, value));
        assert(self.entries@ =~= before.update(index as int, (before[index as int].0, value)));
        assert forall|i: int, j: int| #![trigger self.entries@[i], self.entries@[j]]
            0 <= i < j < self.entries@.len() implies self.entries@[i].0@ != self.entries@[j].0@ by {
            assert(before[i].0@ != before[j].0@);
        }
    }
}

} // verus!
