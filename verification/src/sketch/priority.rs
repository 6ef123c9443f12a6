//! Bounded priority sampling: keep the `limit` items with the smallest
//! priorities seen so far.

use vstd::prelude::*;

use crate::util::dup::Duplicate;
use crate::util::sort::{SortKey, insertion_sorted, sort_rows, sorted_by_key};

verus! {

#[derive(Debug, Clone, PartialEq, Eq)]
pub struct PriorityItem<T> {
    pub priority: u64,
    pub value: T,
}

#[derive(Debug, Clone, PartialEq, Eq)]
pub struct RankedPriorityItem<T> {
    pub rank: u32,
    pub priority: u64,
    pub value: T,
}

#[derive(Clone)]
pub struct PrioritySampler<T> {
    limit: usize,
    items: Vec<PriorityItem<T>>,
    pushes: Ghost<Seq<PriorityItem<T>>>,
}

/// What a sampler of `limit` items holds after the items of `stream` are
/// pushed in order onto an empty one.
pub open spec fn pushed_all<T>(limit: nat, stream: Seq<PriorityItem<T>>) -> Seq<PriorityItem<T>>
    decreases stream.len(),
{
    if stream.len() == 0 {
        Seq::empty()
    } else {
        pushed(limit, pushed_all(limit, stream.drop_last()), stream.last())
    }
}

/// The priorities of `items`, in order.
pub open spec fn priorities<T>(items: Seq<PriorityItem<T>>) -> Seq<u64> {
    items.map_values(|it: PriorityItem<T>| it.priority)
}

/// A sampler of `limit` items keeps the smallest priorities of what was
/// pushed: it holds `min(limit, n)` of the `n` pushed items, only priorities
/// that were pushed, all of them while it is not full, and no priority
/// larger than one it turned away or evicted.
pub proof fn lemma_pushed_all_smallest<T>(limit: nat, stream: Seq<PriorityItem<T>>)
    ensures
        pushed_all(limit, stream).len() == if stream.len() < limit { stream.len() } else { limit },
        forall|p: u64| #[trigger] priorities(pushed_all(limit, stream)).to_multiset().count(p)
            <= priorities(stream).to_multiset().count(p),
        forall|p: u64, k: int| 0 <= k < pushed_all(limit, stream).len() && #[trigger] priorities(pushed_all(limit, stream)).to_multiset().count(p)
            < priorities(stream).to_multiset().count(p) ==> (#[trigger] pushed_all(limit, stream)[k]).priority <= p,
        pushed_all(limit, stream).len() < limit ==> priorities(pushed_all(limit, stream)).to_multiset()
            == priorities(stream).to_multiset(),
    decreases stream.len(),
{
    broadcast use vstd::seq_lib::group_to_multiset_ensures;
    let held = pushed_all(limit, stream);
    if stream.len() == 0 {
        assert(priorities(stream) =~= Seq::<u64>::empty());
        assert(priorities(held) =~= Seq::<u64>::empty());
    } else {
        let init = stream.drop_last();
        let x = stream.last();
        lemma_pushed_all_smallest(limit, init);
        let before = pushed_all(limit, init);
        let kept0 = priorities(before).to_multiset();
        let seen0 = priorities(init).to_multiset();
        assert(priorities(stream) =~= priorities(init).push(x.priority));
        vstd::seq_lib::to_multiset_build(priorities(init), x.priority);
        let seen = priorities(stream).to_multiset();
        assert(seen == seen0.insert(x.priority));
        if before.len() > 0 {
            lemma_worst_index(before);
        }
        if !admits(limit, before, x.priority) {
            assert(held == before);
            assert forall|p: u64, k: int| 0 <= k < held.len() && #[trigger] priorities(held).to_multiset().count(p)
                < seen.count(p) implies (#[trigger] held[k]).priority <= p by {
                if p != x.priority {
                    assert(kept0.count(p) < seen0.count(p));
                }
            }
        } else if before.len() < limit {
            assert(held == before.push(x));
            assert(priorities(held) =~= priorities(before).push(x.priority));
            vstd::seq_lib::to_multiset_build(priorities(before), x.priority);
            assert(priorities(held).to_multiset() =~= seen);
        } else {
            let w = worst_index(before);
            assert(held == before.update(w, x));
            assert(priorities(held) =~= priorities(before).update(w, x.priority));
            vstd::seq_lib::to_multiset_update(priorities(before), w, x.priority);
            let kept = priorities(held).to_multiset();
            assert(priorities(before)[w] == before[w].priority);
            assert(kept == kept0.insert(x.priority).remove(before[w].priority));
            assert(kept0.count(before[w].priority) > 0) by {
                vstd::seq_lib::to_multiset_contains(priorities(before), before[w].priority);
                assert(priorities(before).contains(before[w].priority)) by {
                    assert(priorities(before)[w] == before[w].priority);
                }
            }
            assert forall|p: u64| #[trigger] kept.count(p) <= seen.count(p) by {
                assert(kept0.count(p) <= seen0.count(p));
            }
            assert forall|p: u64, k: int| 0 <= k < held.len() && #[trigger] kept.count(p) < seen.count(p) implies (#[trigger] held[k]).priority <= p by {
                if p != before[w].priority {
                    assert(kept0.count(p) < seen0.count(p));
                    assert(before[w].priority <= p);
                }
                if k != w {
                    assert(held[k] == before[k]);
                }
            }
        }
    }
}

/// A sampler keeps what was pushed, pair for pair: each held item, its
/// priority together with its value, is one that was pushed, and it is held
/// no more often than it was pushed.
pub proof fn lemma_pushed_all_keeps_pairs<T>(limit: nat, stream: Seq<PriorityItem<T>>)
    ensures
        forall|item: PriorityItem<T>| #[trigger] pushed_all(limit, stream).to_multiset().count(item)
            <= stream.to_multiset().count(item),
        forall|k: int| 0 <= k < pushed_all(limit, stream).len() ==> stream.contains(#[trigger] pushed_all(limit, stream)[k]),
    decreases stream.len(),
{
    broadcast use vstd::seq_lib::group_to_multiset_ensures;
    broadcast use vstd::multiset::group_multiset_axioms;
    let held = pushed_all(limit, stream);
    if stream.len() == 0 {
        assert(held =~= Seq::<PriorityItem<T>>::empty());
    } else {
        let init = stream.drop_last();
        let x = stream.last();
        lemma_pushed_all_keeps_pairs(limit, init);
        let before = pushed_all(limit, init);
        assert(stream =~= init.push(x));
        vstd::seq_lib::to_multiset_build(init, x);
        let seen = stream.to_multiset();
        assert(seen == init.to_multiset().insert(x));
        if before.len() > 0 {
            lemma_worst_index(before);
        }
        if !admits(limit, before, x.priority) {
            assert(held == before);
        } else if before.len() < limit {
            assert(held == before.push(x));
            vstd::seq_lib::to_multiset_build(before, x);
        } else {
            let w = worst_index(before);
            assert(held == before.update(w, x));
            vstd::seq_lib::to_multiset_update(before, w, x);
        }
        assert forall|k: int| 0 <= k < held.len() implies stream.contains(#[trigger] held[k]) by {
            vstd::seq_lib::to_multiset_contains(held, held[k]);
            assert(held.contains(held[k])) by {
                assert(held[k] == held[k]);
            }
            assert(held.to_multiset().count(held[k]) > 0);
            assert(seen.count(held[k]) > 0);
            vstd::seq_lib::to_multiset_contains(stream, held[k]);
        }
    }
}

/// The index of the item with the largest priority; among equal largest
/// priorities, the last one.
pub open spec fn worst_index<T>(items: Seq<PriorityItem<T>>) -> int
    decreases items.len(),
{
    if items.len() <= 1 {
        0
    } else {
        let previous = worst_index(items.drop_last());
        if items.last().priority >= items[previous].priority {
            items.len() - 1
        } else {
            previous
        }
    }
}

pub proof fn lemma_worst_index<T>(items: Seq<PriorityItem<T>>)
    requires
        items.len() > 0,
    ensures
        0 <= worst_index(items) < items.len(),
        forall|k: int| 0 <= k < items.len() ==> (#[trigger] items[k]).priority <= items[worst_index(items)].priority,
        forall|k: int| worst_index(items) < k < items.len() ==> (#[trigger] items[k]).priority < items[worst_index(items)].priority,
    decreases items.len(),
{
    if items.len() > 1 {
        let init = items.drop_last();
        lemma_worst_index(init);
        assert forall|k: int| 0 <= k < items.len() - 1 implies #[trigger] items[k] == init[k] by {}
    }
}

/// Whether an item of priority `priority` enters a sampler of `limit` items
/// that holds `items`.
pub open spec fn admits<T>(limit: nat, items: Seq<PriorityItem<T>>, priority: u64) -> bool {
    limit > 0 && (items.len() < limit || priority < items[worst_index(items)].priority)
}

/// What a sampler of `limit` items holds after `item` is pushed onto `items`.
pub open spec fn pushed<T>(limit: nat, items: Seq<PriorityItem<T>>, item: PriorityItem<T>) -> Seq<PriorityItem<T>> {
    if !admits(limit, items, item.priority) {
        items
    } else if items.len() < limit {
        items.push(item)
    } else {
        items.update(worst_index(items), item)
    }
}

impl<T> PriorityItem<T> {
    pub open spec fn without_rank(ranked: RankedPriorityItem<T>) -> PriorityItem<T> {
        PriorityItem { priority: ranked.priority, value: ranked.value }
    }
}

impl<T> SortKey for PriorityItem<T> {
    open spec fn sort_le_spec(&self, other: &Self) -> bool {
        self.priority <= other.priority
    }

    fn sort_le(&self, other: &Self) -> (le: bool) {
        self.priority <= other.priority
    }

    proof fn lemma_sort_le_total(a: &Self, b: &Self) {
    }

    proof fn lemma_sort_le_transitive(a: &Self, b: &Self, c: &Self) {
    }
}

impl<T> PrioritySampler<T> {
    /// The sampler never holds more than `limit` items.
    pub open spec fn wf(&self) -> bool {
        self.items().len() <= self.limit()
    }

    pub closed spec fn limit(&self) -> nat {
        self.limit as nat
    }

    /// The retained items, in the order in which they are stored.
    pub closed spec fn items(&self) -> Seq<PriorityItem<T>> {
        self.items@
    }

    /// The items pushed since the sampler was made or last cleared.
    pub closed spec fn pushed_items(&self) -> Seq<PriorityItem<T>> {
        self.pushes@
    }

    /// The retained items are what pushing the pushed items in order onto an
    /// empty sampler keeps.
    pub open spec fn tracks_pushes(&self) -> bool {
        self.items() == pushed_all(self.limit(), self.pushed_items())
    }
}

/// A sampler keeps the smallest priorities of what was pushed since it was
/// made or last cleared: `min(limit, n)` of the `n` pushed items, only
/// priorities that were pushed, no priority larger than one it turned away
/// or evicted, and each held priority with the value pushed alongside it.
pub proof fn lemma_sampler_keeps_smallest<T>(sampler: PrioritySampler<T>)
    requires
        sampler.tracks_pushes(),
    ensures
        sampler.items().len() == if sampler.pushed_items().len() < sampler.limit() {
            sampler.pushed_items().len()
        } else {
            sampler.limit()
        },
        forall|p: u64| #[trigger] priorities(sampler.items()).to_multiset().count(p)
            <= priorities(sampler.pushed_items()).to_multiset().count(p),
        forall|p: u64, k: int| 0 <= k < sampler.items().len() && #[trigger] priorities(sampler.items()).to_multiset().count(p)
            < priorities(sampler.pushed_items()).to_multiset().count(p) ==> (#[trigger] sampler.items()[k]).priority <= p,
        forall|item: PriorityItem<T>| #[trigger] sampler.items().to_multiset().count(item)
            <= sampler.pushed_items().to_multiset().count(item),
{
    lemma_pushed_all_smallest(sampler.limit(), sampler.pushed_items());
    lemma_pushed_all_keeps_pairs(sampler.limit(), sampler.pushed_items());
}

impl<T: Duplicate> PrioritySampler<T> {
    pub fn new(limit: usize) -> (sampler: Self)
        ensures
            sampler.limit() == limit,
            sampler.items() == Seq::<PriorityItem<T>>::empty(),
            sampler.pushed_items() == Seq::<PriorityItem<T>>::empty(),
            sampler.tracks_pushes(),
            sampler.wf(),
    {
        let sampler = Self { limit, items: Vec::new(), pushes: Ghost(Seq::empty()) };
        assert(sampler.items() =~= pushed_all(sampler.limit(), sampler.pushed_items()));
        sampler
    }

    fn worst(&self) -> (index: usize)
        requires
            self.items@.len() > 0,
        ensures
            index == worst_index(self.items@),
            index < self.items@.len(),
    {
        let mut best: usize = 0;
        let mut index: usize = 1;
        while index < self.items.len()
            invariant
                1 <= index <= self.items@.len(),
                best == worst_index(self.items@.subrange(0, index as int)),
            decreases self.items@.len() - index,
        {
            let ghost prefix = self.items@.subrange(0, index + 1);
            assert(prefix.drop_last() =~= self.items@.subrange(0, index as int));
            proof { lemma_worst_index(self.items@.subrange(0, index as int)); }
            if self.items[index].priority >= self.items[best].priority {
                best = index;
            }
            index = index + 1;
        }
        assert(self.items@.subrange(0, self.items@.len() as int) =~= self.items@);
        proof { lemma_worst_index(self.items@); }
        best
    }

    /// Whether an item with this priority would be kept by `push`.
    pub fn should_accept(&self, priority: u64) -> (accept: bool)
        ensures
            accept == admits(self.limit(), self.items(), priority),
    {
        if self.limit == 0 {
            return false;
        }
        if self.items.len() < self.limit {
            return true;
        }
        let worst = self.worst();
        priority < self.items[worst].priority
    }

    pub fn push(&mut self, priority: u64, value: T)
        ensures
            final(self).limit() == old(self).limit(),
            final(self).items() == pushed(old(self).limit(), old(self).items(), PriorityItem { priority, value }),
            final(self).pushed_items() == old(self).pushed_items().push(PriorityItem { priority, value }),
            old(self).wf() ==> final(self).wf(),
            old(self).tracks_pushes() ==> final(self).tracks_pushes(),
    {
        let ghost pushes = self.pushes@;
        let ghost item = PriorityItem { priority, value };
        self.pushes = Ghost(pushes.push(item));
        proof {
            assert(pushes.push(item).drop_last() =~= pushes);
        }
        if self.limit == 0 {
            return;
        }
        let item = PriorityItem { priority, value };
        if self.items.len() < self.limit {
            self.items.push(item);
            return;
        }
        let worst = self.worst();
        if priority < self.items[worst].priority {
            self.items.set(worst, item);
        }
    }

    /// The retained items ordered by priority, ranked from 1.
    pub fn ranked(&self) -> (ranked: Vec<RankedPriorityItem<T>>)
        ensures
            ranked@.len() == self.items().len(),
            ranked@.map_values(|r: RankedPriorityItem<T>| PriorityItem::without_rank(r))
                == insertion_sorted(self.items()),
            forall|i: int| 0 <= i < ranked@.len() ==> (#[trigger] ranked@[i]).rank == #[verifier::truncate] ((i + 1) as u32),
            forall|i: int, j: int| #![trigger ranked@[i], ranked@[j]] 0 <= i < j < ranked@.len() ==> ranked@[i].priority <= ranked@[j].priority,
    {
        let mut copies: Vec<PriorityItem<T>> = Vec::new();
        let mut index: usize = 0;
        while index < self.items.len()
            invariant
                index <= self.items@.len(),
                copies@ == self.items@.subrange(0, index as int),
            decreases self.items@.len() - index,
        {
            let item = &self.items[index];
            copies.push(PriorityItem { priority: item.priority, value: item.value.duplicate() });
            assert(self.items@.subrange(0, index + 1) =~= self.items@.subrange(0, index as int).push(self.items@[index as int]));
            index = index + 1;
        }
        assert(self.items@.subrange(0, self.items@.len() as int) =~= self.items@);
        let ghost copies_view = copies@;
        let sorted = sort_rows(copies);
        let ghost sorted_view = sorted@;
        let mut ranked: Vec<RankedPriorityItem<T>> = Vec::new();
        let mut rest = sorted;
        let mut rank: usize = 0;
        assert(rest@.skip(0) =~= rest@);
        while rest.len() > 0
            invariant
                rank + rest@.len() == sorted_view.len(),
                sorted_view.len() <= usize::MAX,
                rest@ == sorted_view.skip(rank as int),
                ranked@.len() == rank,
                ranked@.map_values(|r: RankedPriorityItem<T>| PriorityItem::without_rank(r))
                    == sorted_view.subrange(0, rank as int),
                forall|i: int| 0 <= i < rank ==> (#[trigger] ranked@[i]).rank == #[verifier::truncate] ((i + 1) as u32),
            decreases rest@.len(),
        {
            let item = rest.remove(0);
            assert(item == sorted_view[rank as int]);
            let next_rank = #[verifier::truncate] ((rank as u64 + 1) as u32);
            ranked.push(RankedPriorityItem { rank: next_rank, priority: item.priority, value: item.value });
            proof {
                assert(rest@ =~= sorted_view.skip(rank + 1));
                assert(ranked@.map_values(|r: RankedPriorityItem<T>| PriorityItem::without_rank(r))
                    =~= sorted_view.subrange(0, rank + 1));
            }
            rank = rank + 1;
        }
        proof {
            assert(sorted_view.subrange(0, rank as int) =~= sorted_view);
            assert(copies_view == self.items@);
            assert forall|i: int, j: int| #![trigger ranked@[i], ranked@[j]] 0 <= i < j < ranked@.len() implies ranked@[i].priority <= ranked@[j].priority by {
                assert(sorted_by_key(sorted_view));
                assert(sorted_view[i] == PriorityItem::without_rank(ranked@[i]));
                assert(sorted_view[j] == PriorityItem::without_rank(ranked@[j]));
            }
        }
        ranked
    }

    pub fn len(&self) -> (count: usize)
        ensures
            count == self.items().len(),
    {
        self.items.len()
    }

    pub fn clear(&mut self)
        ensures
            final(self).limit() == old(self).limit(),
            final(self).items() == Seq::<PriorityItem<T>>::empty(),
            final(self).pushed_items() == Seq::<PriorityItem<T>>::empty(),
            final(self).tracks_pushes(),
            final(self).wf(),
    {
        self.items.clear();
        self.pushes = Ghost(Seq::empty());
        assert(self.items() =~= pushed_all(self.limit(), self.pushed_items()));
    }
}

/// A sampler keeps the smallest priorities: an item that `push` turns away
/// has a priority no smaller than any item kept, and an item it evicts has
/// a priority no smaller than any item that stays, the new one included.
pub proof fn lemma_push_keeps_smallest_priorities<T>(limit: nat, items: Seq<PriorityItem<T>>, item: PriorityItem<T>)
    requires
        items.len() <= limit,
    ensures
        pushed(limit, items, item).len() <= limit,
        limit > 0 && !admits(limit, items, item.priority) ==> forall|k: int|
            0 <= k < items.len() ==> (#[trigger] items[k]).priority <= item.priority,
        admits(limit, items, item.priority) && items.len() == limit ==> forall|k: int|
            0 <= k < pushed(limit, items, item).len() ==> (#[trigger] pushed(limit, items, item)[k]).priority
                <= items[worst_index(items)].priority,
        forall|k: int| 0 <= k < items.len() && !(items.len() == limit && k == worst_index(items))
            ==> #[trigger] pushed(limit, items, item).contains(items[k]),
{
    if items.len() > 0 {
        lemma_worst_index(items);
    }
    let result = pushed(limit, items, item);
    assert forall|k: int| 0 <= k < items.len() && !(items.len() == limit && k == worst_index(items))
        implies result.contains(items[k]) by {
        if !admits(limit, items, item.priority) {
            assert(result[k] == items[k]);
        } else if items.len() < limit {
            assert(result[k] == items[k]);
        } else {
            assert(result[k] == items[k]);
        }
    }
}

/// An item with its value mapped by `f`.
pub open spec fn map_item<T, U>(item: PriorityItem<T>, f: spec_fn(T) -> U) -> PriorityItem<U> {
    PriorityItem { priority: item.priority, value: f(item.value) }
}

/// Items with their values mapped by `f`.
pub open spec fn map_items<T, U>(items: Seq<PriorityItem<T>>, f: spec_fn(T) -> U) -> Seq<PriorityItem<U>> {
    items.map_values(|it: PriorityItem<T>| map_item(it, f))
}

pub proof fn lemma_worst_index_map<T, U>(items: Seq<PriorityItem<T>>, f: spec_fn(T) -> U)
    ensures
        worst_index(items) == worst_index(map_items(items, f)),
    decreases items.len(),
{
    let mapped = map_items(items, f);
    if items.len() > 1 {
        lemma_worst_index_map(items.drop_last(), f);
        assert(mapped.drop_last() =~= map_items(items.drop_last(), f));
        let previous = worst_index(items.drop_last());
        lemma_worst_index(items.drop_last());
        assert(mapped[previous] == map_item(items[previous], f));
    }
}

/// Pushing commutes with mapping the values: which item is kept or evicted
/// depends on priorities alone.
pub proof fn lemma_pushed_map<T, U>(limit: nat, items: Seq<PriorityItem<T>>, item: PriorityItem<T>, f: spec_fn(T) -> U)
    ensures
        map_items(pushed(limit, items, item), f) == pushed(
            limit,
            map_items(items, f),
            map_item(item, f),
        ),
{
    let mapped = map_items(items, f);
    lemma_worst_index_map(items, f);
    if items.len() > 0 {
        lemma_worst_index(items);
        assert(mapped[worst_index(items)] == map_item(items[worst_index(items)], f));
    }
    let left = map_items(pushed(limit, items, item), f);
    let right = pushed(limit, mapped, map_item(item, f));
    assert(left =~= right);
}

/// Whether an item is admitted depends on priorities alone.
pub proof fn lemma_admits_map<T, U>(limit: nat, items: Seq<PriorityItem<T>>, priority: u64, f: spec_fn(T) -> U)
    ensures
        admits(limit, items, priority) == admits(limit, map_items(items, f), priority),
{
    lemma_worst_index_map(items, f);
    if items.len() > 0 {
        lemma_worst_index(items);
        let mapped = map_items(items, f);
        assert(mapped[worst_index(items)] == map_item(items[worst_index(items)], f));
    }
}

} // verus!
