//! A stable insertion sort for rows ordered by a total preorder.

use vstd::prelude::*;
use vstd::multiset::Multiset;

use crate::util::text::{compare_text, lemma_text_lt_order, lemma_text_lt_transitive, text_lt};

verus! {

broadcast use vstd::seq_lib::group_to_multiset_ensures;

/// A total preorder on rows, with its executable test.
pub trait SortKey: Sized {
    spec fn sort_le_spec(&self, other: &Self) -> bool;

    fn sort_le(&self, other: &Self) -> (le: bool)
        ensures
            le == self.sort_le_spec(other),
    ;

    proof fn lemma_sort_le_total(a: &Self, b: &Self)
        ensures
            a.sort_le_spec(b) || b.sort_le_spec(a),
    ;

    proof fn lemma_sort_le_transitive(a: &Self, b: &Self, c: &Self)
        requires
            a.sort_le_spec(b),
            b.sort_le_spec(c),
        ensures
            a.sort_le_spec(c),
    ;
}

/// Every row is ordered before each row that follows it.
pub open spec fn sorted_by_key<T: SortKey>(rows: Seq<T>) -> bool {
    forall|i: int, j: int| #![trigger rows[i], rows[j]] 0 <= i < j < rows.len() ==> rows[i].sort_le_spec(&rows[j])
}

/// `sorted` with `row` inserted after every row `r` with `le(r, row)` that
/// ends it, scanning from the end.
pub open spec fn insert_sorted_by<T>(sorted: Seq<T>, row: T, le: spec_fn(T, T) -> bool) -> Seq<T>
    decreases sorted.len(),
{
    if sorted.len() == 0 {
        seq![row]
    } else if le(sorted.last(), row) {
        sorted.push(row)
    } else {
        insert_sorted_by(sorted.drop_last(), row, le).push(sorted.last())
    }
}

/// Insertion sort by the preorder `le`: each row in turn is inserted after
/// the rows already placed that are ordered before or with it, so that rows
/// comparing equal keep their given order.
pub open spec fn insertion_sorted_by<T>(rows: Seq<T>, le: spec_fn(T, T) -> bool) -> Seq<T>
    decreases rows.len(),
{
    if rows.len() == 0 {
        Seq::empty()
    } else {
        insert_sorted_by(insertion_sorted_by(rows.drop_last(), le), rows.last(), le)
    }
}

/// The preorder of a `SortKey` type as a function.
pub open spec fn key_le<T: SortKey>() -> spec_fn(T, T) -> bool {
    |a: T, b: T| a.sort_le_spec(&b)
}

pub open spec fn insert_sorted<T: SortKey>(sorted: Seq<T>, row: T) -> Seq<T> {
    insert_sorted_by(sorted, row, key_le::<T>())
}

/// Insertion sort by a `SortKey` preorder.
pub open spec fn insertion_sorted<T: SortKey>(rows: Seq<T>) -> Seq<T> {
    insertion_sorted_by(rows, key_le::<T>())
}

/// Sorting commutes with a map that carries one preorder onto the other.
pub proof fn lemma_insertion_sorted_map<A, B>(
    rows: Seq<A>,
    f: spec_fn(A) -> B,
    le_a: spec_fn(A, A) -> bool,
    le_b: spec_fn(B, B) -> bool,
)
    requires
        forall|x: A, y: A| #[trigger] le_a(x, y) == le_b(f(x), f(y)),
    ensures
        insertion_sorted_by(rows, le_a).map_values(f) == insertion_sorted_by(rows.map_values(f), le_b),
    decreases rows.len(),
{
    if rows.len() > 0 {
        lemma_insertion_sorted_map(rows.drop_last(), f, le_a, le_b);
        assert(rows.map_values(f).drop_last() =~= rows.drop_last().map_values(f));
        lemma_insert_sorted_map(insertion_sorted_by(rows.drop_last(), le_a), rows.last(), f, le_a, le_b);
    } else {
        assert(insertion_sorted_by(rows, le_a).map_values(f) =~= Seq::<B>::empty());
    }
}

proof fn lemma_insert_sorted_map<A, B>(
    sorted: Seq<A>,
    row: A,
    f: spec_fn(A) -> B,
    le_a: spec_fn(A, A) -> bool,
    le_b: spec_fn(B, B) -> bool,
)
    requires
        forall|x: A, y: A| #[trigger] le_a(x, y) == le_b(f(x), f(y)),
    ensures
        insert_sorted_by(sorted, row, le_a).map_values(f) == insert_sorted_by(sorted.map_values(f), f(row), le_b),
    decreases sorted.len(),
{
    let mapped = sorted.map_values(f);
    if sorted.len() == 0 {
        assert(seq![row].map_values(f) =~= seq![f(row)]);
    } else {
        assert(mapped.last() == f(sorted.last()));
        assert(le_a(sorted.last(), row) == le_b(f(sorted.last()), f(row)));
        if le_a(sorted.last(), row) {
            assert(sorted.push(row).map_values(f) =~= mapped.push(f(row)));
        } else {
            lemma_insert_sorted_map(sorted.drop_last(), row, f, le_a, le_b);
            assert(mapped.drop_last() =~= sorted.drop_last().map_values(f));
            assert(insert_sorted_by(sorted.drop_last(), row, le_a).push(sorted.last()).map_values(f)
                =~= insert_sorted_by(sorted.drop_last(), row, le_a).map_values(f).push(f(sorted.last())));
        }
    }
}

/// The position at which `insert_sorted` places `row`.
pub open spec fn insert_position<T: SortKey>(sorted: Seq<T>, row: T) -> int
    decreases sorted.len(),
{
    if sorted.len() == 0 {
        0
    } else if sorted.last().sort_le_spec(&row) {
        sorted.len() as int
    } else {
        insert_position(sorted.drop_last(), row)
    }
}

pub proof fn lemma_insert_sorted_is_insert<T: SortKey>(sorted: Seq<T>, row: T)
    ensures
        0 <= insert_position(sorted, row) <= sorted.len(),
        insert_sorted(sorted, row) == sorted.insert(insert_position(sorted, row), row),
        forall|k: int| insert_position(sorted, row) <= k < sorted.len() ==> !(#[trigger] sorted[k]).sort_le_spec(&row),
    decreases sorted.len(),
{
    if sorted.len() > 0 && !sorted.last().sort_le_spec(&row) {
        let init = sorted.drop_last();
        lemma_insert_sorted_is_insert(init, row);
        let p = insert_position(init, row);
        assert(init.insert(p, row).push(sorted.last()) =~= sorted.insert(p, row));
        assert forall|k: int| p <= k < sorted.len() implies !(#[trigger] sorted[k]).sort_le_spec(&row) by {
            if k < sorted.len() - 1 {
                assert(sorted[k] == init[k]);
            }
        }
    } else if sorted.len() > 0 {
        assert(sorted.push(row) =~= sorted.insert(sorted.len() as int, row));
    } else {
        assert(seq![row] =~= sorted.insert(0, row));
    }
}

pub proof fn lemma_insert_sorted_keeps_order<T: SortKey>(sorted: Seq<T>, row: T)
    requires
        sorted_by_key(sorted),
    ensures
        sorted_by_key(insert_sorted(sorted, row)),
        insert_sorted(sorted, row).to_multiset() == sorted.to_multiset().insert(row),
{
    lemma_insert_sorted_is_insert(sorted, row);
    let p = insert_position(sorted, row);
    let after = insert_sorted(sorted, row);
    assert forall|k: int| 0 <= k < p implies (#[trigger] sorted[k]).sort_le_spec(&row) by {
        if p > 0 {
            assert(sorted[p - 1].sort_le_spec(&row)) by {
                lemma_position_predecessor(sorted, row);
            }
            if k < p - 1 {
                T::lemma_sort_le_transitive(&sorted[k], &sorted[p - 1], &row);
            }
        }
    }
    assert forall|k: int| p <= k < sorted.len() implies row.sort_le_spec(&#[trigger] sorted[k]) by {
        T::lemma_sort_le_total(&sorted[k], &row);
    }
    assert forall|i: int, j: int| #![trigger after[i], after[j]] 0 <= i < j < after.len()
        implies after[i].sort_le_spec(&after[j]) by {
        if i < p && j < p {
            assert(after[i] == sorted[i] && after[j] == sorted[j]);
        } else if i < p && j == p {
        } else if i < p {
            assert(after[i] == sorted[i] && after[j] == sorted[j - 1]);
        } else if i == p {
            assert(after[j] == sorted[j - 1]);
        } else {
            assert(after[i] == sorted[i - 1] && after[j] == sorted[j - 1]);
        }
    }
}

proof fn lemma_position_predecessor<T: SortKey>(sorted: Seq<T>, row: T)
    requires
        insert_position(sorted, row) > 0,
    ensures
        sorted[insert_position(sorted, row) - 1].sort_le_spec(&row),
    decreases sorted.len(),
{
    if sorted.len() > 0 && !sorted.last().sort_le_spec(&row) {
        lemma_position_predecessor(sorted.drop_last(), row);
        lemma_insert_sorted_is_insert(sorted.drop_last(), row);
    }
}

/// Insertion sort orders the rows and keeps every one of them.
pub proof fn lemma_insertion_sorted<T: SortKey>(rows: Seq<T>)
    ensures
        sorted_by_key(insertion_sorted(rows)),
        insertion_sorted(rows).to_multiset() == rows.to_multiset(),
        insertion_sorted(rows).len() == rows.len(),
    decreases rows.len(),
{
    if rows.len() > 0 {
        lemma_insertion_sorted(rows.drop_last());
        lemma_insert_sorted_keeps_order(insertion_sorted(rows.drop_last()), rows.last());
        lemma_insert_sorted_is_insert(insertion_sorted(rows.drop_last()), rows.last());
        assert(rows =~= rows.drop_last().push(rows.last()));
    } else {
        assert(rows.to_multiset() =~= Multiset::empty());
    }
}

/// Sorts `rows` by insertion, so that rows comparing equal keep their order.
pub fn sort_rows<T: SortKey>(rows: Vec<T>) -> (sorted: Vec<T>)
    ensures
        sorted@ == insertion_sorted(rows@),
        sorted@.to_multiset() == rows@.to_multiset(),
        sorted@.len() == rows@.len(),
        sorted_by_key(sorted@),
{
    let ghost given = rows@;
    let mut input = rows;
    let mut out: Vec<T> = Vec::new();
    let mut taken: usize = 0;
    let count = input.len();
    assert(given.len() == count);
    assert(given.subrange(0, 0) =~= Seq::<T>::empty());
    assert(input@ =~= given.skip(0));
    while input.len() > 0
        invariant
            taken + input@.len() == given.len(),
            given.len() <= usize::MAX,
            input@ == given.skip(taken as int),
            out@ == insertion_sorted(given.subrange(0, taken as int)),
        decreases input.len(),
    {
        let x = input.remove(0);
        assert(x == given[taken as int]);
        let mut position: usize = out.len();
        proof {
            assert(out@.subrange(0, out@.len() as int) =~= out@);
            assert(out@.subrange(out@.len() as int, out@.len() as int) =~= Seq::<T>::empty());
            assert(insert_sorted(out@, x) + Seq::<T>::empty() =~= insert_sorted(out@, x));
        }
        while position > 0 && !out[position - 1].sort_le(&x)
            invariant
                position <= out@.len(),
                insert_sorted(out@, x) == insert_sorted(out@.subrange(0, position as int), x)
                    + out@.subrange(position as int, out@.len() as int),
            decreases position,
        {
            proof {
                let prefix = out@.subrange(0, position as int);
                assert(prefix.drop_last() =~= out@.subrange(0, position - 1));
                assert(prefix.last() == out@[position - 1]);
                assert(out@.subrange(position - 1, out@.len() as int) =~= seq![out@[position - 1]]
                    + out@.subrange(position as int, out@.len() as int));
                assert(insert_sorted(prefix, x) == insert_sorted(prefix.drop_last(), x).push(prefix.last()));
                assert(insert_sorted(prefix.drop_last(), x).push(prefix.last()) + out@.subrange(position as int, out@.len() as int)
                    =~= insert_sorted(prefix.drop_last(), x) + out@.subrange(position - 1, out@.len() as int));
            }
            position = position - 1;
        }
        proof {
            let prefix = out@.subrange(0, position as int);
            if position > 0 {
                assert(prefix.last() == out@[position - 1]);
                assert(insert_sorted(prefix, x) == prefix.push(x));
            } else {
                assert(insert_sorted(prefix, x) == seq![x]);
            }
            assert(insert_sorted(out@, x) =~= out@.insert(position as int, x));
            assert(given.subrange(0, taken + 1).drop_last() =~= given.subrange(0, taken as int));
        }
        out.insert(position, x);
        proof {
            assert(input@ =~= given.skip(taken + 1));
        }
        taken = taken + 1;
    }
    proof {
        assert(given.subrange(0, taken as int) =~= given);
        lemma_insertion_sorted(given);
    }
    out
}

/// Texts in ascending byte order.
pub open spec fn text_le() -> spec_fn(Seq<char>, Seq<char>) -> bool {
    |a: Seq<char>, b: Seq<char>| !text_lt(b, a)
}

/// Pairs of texts in ascending order of the first, then of the second.
pub open spec fn text_pair_le() -> spec_fn((Seq<char>, Seq<char>), (Seq<char>, Seq<char>)) -> bool {
    |a: (Seq<char>, Seq<char>), b: (Seq<char>, Seq<char>)|
        text_lt(a.0, b.0) || (a.0 == b.0 && !text_lt(b.1, a.1))
}

/// A text to be sorted.
#[derive(Debug)]
pub struct TextRow {
    pub text: String,
}

impl SortKey for TextRow {
    open spec fn sort_le_spec(&self, other: &Self) -> bool {
        (text_le())(self.text@, other.text@)
    }

    fn sort_le(&self, other: &Self) -> (le: bool) {
        compare_text(other.text.as_str(), self.text.as_str()) != -1
    }

    proof fn lemma_sort_le_total(a: &Self, b: &Self) {
        lemma_text_lt_order(a.text@, b.text@);
    }

    proof fn lemma_sort_le_transitive(a: &Self, b: &Self, c: &Self) {
        lemma_text_lt_order(a.text@, b.text@);
        lemma_text_lt_order(b.text@, c.text@);
        lemma_text_lt_order(a.text@, c.text@);
        if text_lt(c.text@, a.text@) && a.text@ != b.text@ && b.text@ != c.text@ {
            lemma_text_lt_transitive(a.text@, b.text@, c.text@);
        }
    }
}

impl View for TextRow {
    type V = Seq<char>;

    open spec fn view(&self) -> Seq<char> {
        self.text@
    }
}

impl OrderedKey for TextRow {
    fn same_as(&self, other: &Self) -> (same: bool) {
        compare_text(self.text.as_str(), other.text.as_str()) == 0
    }

    proof fn lemma_sort_le_antisymmetric(a: &Self, b: &Self) {
        lemma_text_lt_order(a.text@, b.text@);
    }

    proof fn lemma_sort_le_same_view(a: &Self, b: &Self) {
        lemma_text_lt_order(a.text@, b.text@);
    }
}

/// A pair of texts to be sorted.
#[derive(Debug)]
pub struct TextPairRow {
    pub first: String,
    pub second: String,
}

impl SortKey for TextPairRow {
    open spec fn sort_le_spec(&self, other: &Self) -> bool {
        (text_pair_le())((self.first@, self.second@), (other.first@, other.second@))
    }

    fn sort_le(&self, other: &Self) -> (le: bool) {
        let first = compare_text(self.first.as_str(), other.first.as_str());
        first == -1 || (first == 0 && compare_text(other.second.as_str(), self.second.as_str()) != -1)
    }

    proof fn lemma_sort_le_total(a: &Self, b: &Self) {
        lemma_text_lt_order(a.first@, b.first@);
        lemma_text_lt_order(a.second@, b.second@);
    }

    proof fn lemma_sort_le_transitive(a: &Self, b: &Self, c: &Self) {
        lemma_text_lt_order(a.first@, b.first@);
        lemma_text_lt_order(b.first@, c.first@);
        lemma_text_lt_order(a.first@, c.first@);
        lemma_text_lt_transitive(a.first@, b.first@, c.first@);
        lemma_text_lt_order(a.second@, b.second@);
        lemma_text_lt_order(b.second@, c.second@);
        lemma_text_lt_order(a.second@, c.second@);
        if text_lt(c.second@, a.second@) && a.second@ != b.second@ && b.second@ != c.second@ {
            lemma_text_lt_transitive(a.second@, b.second@, c.second@);
        }
    }
}

impl View for TextPairRow {
    type V = (Seq<char>, Seq<char>);

    open spec fn view(&self) -> (Seq<char>, Seq<char>) {
        (self.first@, self.second@)
    }
}

impl OrderedKey for TextPairRow {
    fn same_as(&self, other: &Self) -> (same: bool) {
        compare_text(self.first.as_str(), other.first.as_str()) == 0 && compare_text(
            self.second.as_str(),
            other.second.as_str(),
        ) == 0
    }

    proof fn lemma_sort_le_antisymmetric(a: &Self, b: &Self) {
        lemma_text_lt_order(a.first@, b.first@);
        lemma_text_lt_order(a.second@, b.second@);
    }

    proof fn lemma_sort_le_same_view(a: &Self, b: &Self) {
        lemma_text_lt_order(a.first@, b.first@);
        lemma_text_lt_order(a.second@, b.second@);
    }
}

/// Mapping every element preserves equality of multisets.
pub proof fn lemma_map_values_to_multiset<A, B>(left: Seq<A>, right: Seq<A>, f: spec_fn(A) -> B)
    requires
        left.to_multiset() == right.to_multiset(),
    ensures
        left.map_values(f).to_multiset() == right.map_values(f).to_multiset(),
    decreases left.len(),
{
    broadcast use vstd::multiset::group_multiset_axioms;
    vstd::seq_lib::to_multiset_len(left);
    vstd::seq_lib::to_multiset_len(right);
    if left.len() == 0 {
        assert(left.map_values(f) =~= Seq::<B>::empty());
        assert(right.map_values(f) =~= Seq::<B>::empty());
    } else {
        let x = left[0];
        vstd::seq_lib::to_multiset_contains(left, x);
        assert(left.contains(x)) by { assert(left[0] == x); }
        assert(right.to_multiset().count(x) > 0);
        vstd::seq_lib::to_multiset_contains(right, x);
        let i = choose|i: int| 0 <= i < right.len() && right[i] == x;
        assert(left.drop_first() =~= left.remove(0));
        vstd::seq_lib::to_multiset_remove(left, 0);
        vstd::seq_lib::to_multiset_remove(right, i);
        lemma_map_values_to_multiset(left.drop_first(), right.remove(i), f);
        let lm = left.map_values(f);
        let rm = right.map_values(f);
        assert(lm.remove(0) =~= left.drop_first().map_values(f));
        assert(rm.remove(i) =~= right.remove(i).map_values(f));
        vstd::seq_lib::to_multiset_remove(lm, 0);
        vstd::seq_lib::to_multiset_remove(rm, i);
        vstd::seq_lib::to_multiset_contains(lm, f(x));
        vstd::seq_lib::to_multiset_contains(rm, f(x));
        assert(lm.contains(f(x))) by { assert(lm[0] == f(x)); }
        assert(rm.contains(f(x))) by { assert(rm[i] == f(x)); }
        assert(lm.to_multiset() =~= lm.to_multiset().remove(f(x)).insert(f(x)));
        assert(rm.to_multiset() =~= rm.to_multiset().remove(f(x)).insert(f(x)));
    }
}

/// A sort key whose order is antisymmetric on views, with an executable
/// equality of views: sorting such keys and dropping repeats gives each
/// distinct key once, in ascending order.
pub trait OrderedKey: SortKey + View {
    fn same_as(&self, other: &Self) -> (same: bool)
        ensures
            same == (self@ == other@),
    ;

    proof fn lemma_sort_le_antisymmetric(a: &Self, b: &Self)
        requires
            a.sort_le_spec(b),
            b.sort_le_spec(a),
        ensures
            a@ == b@,
    ;

    proof fn lemma_sort_le_same_view(a: &Self, b: &Self)
        requires
            a@ == b@,
        ensures
            a.sort_le_spec(b),
    ;
}

/// The views of the elements of `s`.
pub open spec fn view_set<T: View>(s: Seq<T>) -> Set<T::V> {
    Set::new(|v: T::V| exists|i: int| 0 <= i < s.len() && (#[trigger] s[i])@ == v)
}

/// Each element is ordered before, and differs from, every later one.
pub open spec fn strictly_ascending<T: OrderedKey>(s: Seq<T>) -> bool {
    forall|i: int, j: int| #![trigger s[i], s[j]] 0 <= i < j < s.len() ==> s[i].sort_le_spec(&s[j]) && s[i]@ != s[j]@
}

/// Each distinct key of `items` once, in ascending order.
pub fn sorted_distinct<T: OrderedKey>(items: Vec<T>) -> (out: Vec<T>)
    ensures
        strictly_ascending(out@),
        view_set(out@) == view_set(items@),
{
    let ghost given = items@;
    let sorted = sort_rows(items);
    let ghost sorted_view = sorted@;
    proof {
        assert forall|v: T::V| #[trigger] view_set(sorted_view).contains(v) == view_set(given).contains(v) by {
            if view_set(sorted_view).contains(v) {
                let i = choose|i: int| 0 <= i < sorted_view.len() && (#[trigger] sorted_view[i])@ == v;
                vstd::seq_lib::to_multiset_contains(sorted_view, sorted_view[i]);
                assert(sorted_view.contains(sorted_view[i])) by { assert(sorted_view[i] == sorted_view[i]); }
                assert(given.to_multiset().count(sorted_view[i]) > 0);
                vstd::seq_lib::to_multiset_contains(given, sorted_view[i]);
                let j = choose|j: int| 0 <= j < given.len() && given[j] == sorted_view[i];
                assert(given[j]@ == v);
            }
            if view_set(given).contains(v) {
                let i = choose|i: int| 0 <= i < given.len() && (#[trigger] given[i])@ == v;
                vstd::seq_lib::to_multiset_contains(given, given[i]);
                assert(given.contains(given[i])) by { assert(given[i] == given[i]); }
                assert(sorted_view.to_multiset().count(given[i]) > 0);
                vstd::seq_lib::to_multiset_contains(sorted_view, given[i]);
                let j = choose|j: int| 0 <= j < sorted_view.len() && sorted_view[j] == given[i];
                assert(sorted_view[j]@ == v);
            }
        }
        assert(view_set(sorted_view) =~= view_set(given));
    }
    let mut out: Vec<T> = Vec::new();
    assert(sorted@.len() == sorted.len());
    let mut rest = sorted;
    let mut taken: usize = 0;
    assert(rest@.skip(0) =~= rest@);
    while rest.len() > 0
        invariant
            taken + rest@.len() == sorted_view.len(),
            sorted_view.len() <= usize::MAX,
            rest@ == sorted_view.skip(taken as int),
            sorted_by_key(sorted_view),
            strictly_ascending(out@),
            view_set(out@) == view_set(sorted_view.subrange(0, taken as int)),
            taken > 0 ==> out@.len() > 0 && out@.last()@ == sorted_view[taken - 1]@,
            taken > 0 ==> exists|k: int| 0 <= k < taken && sorted_view[k] == out@.last(),
            forall|i: int| 0 <= i < out@.len() ==> exists|k: int| 0 <= k < taken && sorted_view[k] == #[trigger] out@[i],
        decreases rest@.len(),
    {
        let x = rest.remove(0);
        assert(x == sorted_view[taken as int]);
        let ghost before = out@;
        let ghost prefix = sorted_view.subrange(0, taken as int);
        let ghost next_prefix = sorted_view.subrange(0, taken + 1);
        assert(next_prefix =~= prefix.push(x));
        let repeat = out.len() > 0 && out[out.len() - 1].same_as(&x);
        if !repeat {
            out.push(x);
            proof {
                assert forall|i: int, j: int| #![trigger out@[i], out@[j]] 0 <= i < j < out@.len()
                    implies out@[i].sort_le_spec(&out@[j]) && out@[i]@ != out@[j]@ by {
                    if j == out@.len() - 1 {
                        let k = choose|k: int| 0 <= k < taken && sorted_view[k] == #[trigger] before[i];
                        assert(sorted_view[k].sort_le_spec(&sorted_view[taken as int]));
                        if out@[i]@ == out@[j]@ {
                            if i < before.len() - 1 {
                                let l = choose|l: int| 0 <= l < taken && sorted_view[l] == before.last();
                                assert(before[i].sort_le_spec(&before.last()));
                                assert(sorted_view[l].sort_le_spec(&sorted_view[taken as int]));
                                T::lemma_sort_le_same_view(&x, &before[i]);
                                T::lemma_sort_le_transitive(&before.last(), &x, &before[i]);
                                T::lemma_sort_le_antisymmetric(&before[i], &before.last());
                            }
                        }
                    }
                }
                assert forall|v: T::V| #[trigger] view_set(out@).contains(v) == view_set(next_prefix).contains(v) by {
                    if view_set(next_prefix).contains(v) {
                        let i = choose|i: int| 0 <= i < next_prefix.len() && (#[trigger] next_prefix[i])@ == v;
                        if i < taken {
                            assert(prefix[i] == next_prefix[i]);
                            assert(view_set(prefix).contains(v));
                            let j = choose|j: int| 0 <= j < before.len() && (#[trigger] before[j])@ == v;
                            assert(out@[j] == before[j]);
                        } else {
                            assert(out@[out@.len() - 1] == x);
                        }
                    }
                    if view_set(out@).contains(v) {
                        let i = choose|i: int| 0 <= i < out@.len() && (#[trigger] out@[i])@ == v;
                        if i < before.len() {
                            assert(view_set(before).contains(v));
                            let j = choose|j: int| 0 <= j < prefix.len() && (#[trigger] prefix[j])@ == v;
                            assert(next_prefix[j] == prefix[j]);
                        } else {
                            assert(next_prefix[taken as int] == x);
                        }
                    }
                }
                assert(view_set(out@) =~= view_set(next_prefix));
                assert forall|i: int| 0 <= i < out@.len() implies exists|k: int| 0 <= k < taken + 1 && sorted_view[k] == #[trigger] out@[i] by {
                    if i < before.len() {
                        assert(out@[i] == before[i]);
                        let k = choose|k: int| 0 <= k < taken && sorted_view[k] == #[trigger] before[i];
                        assert(sorted_view[k] == out@[i]);
                    } else {
                        assert(sorted_view[taken as int] == out@[i]);
                    }
                }
                assert(sorted_view[taken as int] == out@.last());
            }
        } else {
            proof {
                assert forall|v: T::V| #[trigger] view_set(out@).contains(v) == view_set(next_prefix).contains(v) by {
                    if view_set(next_prefix).contains(v) {
                        let i = choose|i: int| 0 <= i < next_prefix.len() && (#[trigger] next_prefix[i])@ == v;
                        if i < taken {
                            assert(prefix[i] == next_prefix[i]);
                            assert(view_set(prefix).contains(v));
                        } else {
                            assert(out@[out@.len() - 1]@ == x@);
                        }
                    }
                    if view_set(out@).contains(v) {
                        assert(view_set(prefix).contains(v));
                        let j = choose|j: int| 0 <= j < prefix.len() && (#[trigger] prefix[j])@ == v;
                        assert(next_prefix[j] == prefix[j]);
                    }
                }
                assert(view_set(out@) =~= view_set(next_prefix));
                let l = choose|l: int| 0 <= l < taken && sorted_view[l] == out@.last();
                assert forall|i: int| 0 <= i < out@.len() implies exists|k: int| 0 <= k < taken + 1 && sorted_view[k] == #[trigger] out@[i] by {
                    let k = choose|k: int| 0 <= k < taken && sorted_view[k] == #[trigger] out@[i];
                }
            }
        }
        proof {
            assert(rest@ =~= sorted_view.skip(taken + 1));
        }
        taken = taken + 1;
    }
    assert(sorted_view.subrange(0, taken as int) =~= sorted_view);
    out
}

// ----- insertion sort by a total preorder given as a function -----

/// `le` is total and transitive.
pub open spec fn total_preorder<T>(le: spec_fn(T, T) -> bool) -> bool {
    &&& forall|a: T, b: T| #[trigger] le(a, b) || le(b, a)
    &&& forall|a: T, b: T, c: T| #[trigger] le(a, b) && #[trigger] le(b, c) ==> le(a, c)
}

/// Every element is ordered before each element that follows it.
pub open spec fn sorted_by<T>(s: Seq<T>, le: spec_fn(T, T) -> bool) -> bool {
    forall|i: int, j: int| #![trigger s[i], s[j]] 0 <= i < j < s.len() ==> le(s[i], s[j])
}

/// Among the elements of `s`, elements ordered both ways are equal.
pub open spec fn antisymmetric_on<T>(s: Seq<T>, le: spec_fn(T, T) -> bool) -> bool {
    forall|i: int, j: int| #![trigger s[i], s[j]] 0 <= i < s.len() && 0 <= j < s.len() && le(s[i], s[j]) && le(s[j], s[i])
        ==> s[i] == s[j]
}

pub open spec fn insert_position_by<T>(sorted: Seq<T>, row: T, le: spec_fn(T, T) -> bool) -> int
    decreases sorted.len(),
{
    if sorted.len() == 0 {
        0
    } else if le(sorted.last(), row) {
        sorted.len() as int
    } else {
        insert_position_by(sorted.drop_last(), row, le)
    }
}

proof fn lemma_insert_sorted_by_is_insert<T>(sorted: Seq<T>, row: T, le: spec_fn(T, T) -> bool)
    ensures
        0 <= insert_position_by(sorted, row, le) <= sorted.len(),
        insert_sorted_by(sorted, row, le) == sorted.insert(insert_position_by(sorted, row, le), row),
        forall|k: int| insert_position_by(sorted, row, le) <= k < sorted.len() ==> !le(#[trigger] sorted[k], row),
        insert_position_by(sorted, row, le) > 0 ==> le(sorted[insert_position_by(sorted, row, le) - 1], row),
    decreases sorted.len(),
{
    if sorted.len() > 0 && !le(sorted.last(), row) {
        let init = sorted.drop_last();
        lemma_insert_sorted_by_is_insert(init, row, le);
        let p = insert_position_by(init, row, le);
        assert(init.insert(p, row).push(sorted.last()) =~= sorted.insert(p, row));
        assert forall|k: int| p <= k < sorted.len() implies !le(#[trigger] sorted[k], row) by {
            if k < sorted.len() - 1 {
                assert(sorted[k] == init[k]);
            }
        }
        if p > 0 {
            assert(sorted[p - 1] == init[p - 1]);
        }
    } else if sorted.len() > 0 {
        assert(sorted.push(row) =~= sorted.insert(sorted.len() as int, row));
    } else {
        assert(seq![row] =~= sorted.insert(0, row));
    }
}

/// Insertion sort keeps the number of rows.
pub proof fn lemma_insertion_sorted_by_len<T>(rows: Seq<T>, le: spec_fn(T, T) -> bool)
    ensures
        insertion_sorted_by(rows, le).len() == rows.len(),
    decreases rows.len(),
{
    if rows.len() > 0 {
        lemma_insertion_sorted_by_len(rows.drop_last(), le);
        lemma_insert_sorted_by_is_insert(insertion_sorted_by(rows.drop_last(), le), rows.last(), le);
    }
}

/// Insertion sort by a total preorder orders the rows and keeps every one
/// of them.
pub proof fn lemma_insertion_sorted_by<T>(rows: Seq<T>, le: spec_fn(T, T) -> bool)
    requires
        total_preorder(le),
    ensures
        sorted_by(insertion_sorted_by(rows, le), le),
        insertion_sorted_by(rows, le).to_multiset() == rows.to_multiset(),
    decreases rows.len(),
{
    if rows.len() > 0 {
        let init = rows.drop_last();
        let row = rows.last();
        lemma_insertion_sorted_by(init, le);
        let sorted = insertion_sorted_by(init, le);
        lemma_insert_sorted_by_is_insert(sorted, row, le);
        let p = insert_position_by(sorted, row, le);
        let after = insert_sorted_by(sorted, row, le);
        assert forall|k: int| 0 <= k < p implies le(#[trigger] sorted[k], row) by {
            if k < p - 1 {
                assert(le(sorted[k], sorted[p - 1]));
            }
        }
        assert forall|k: int| p <= k < sorted.len() implies le(row, #[trigger] sorted[k]) by {
            assert(le(sorted[k], row) || le(row, sorted[k]));
        }
        assert forall|i: int, j: int| #![trigger after[i], after[j]] 0 <= i < j < after.len() implies le(after[i], after[j]) by {
            if i < p && j < p {
                assert(after[i] == sorted[i] && after[j] == sorted[j]);
            } else if i < p && j == p {
                assert(after[i] == sorted[i] && after[j] == row);
            } else if i < p {
                assert(after[i] == sorted[i] && after[j] == sorted[j - 1]);
            } else if i == p {
                assert(after[i] == row && after[j] == sorted[j - 1]);
            } else {
                assert(after[i] == sorted[i - 1] && after[j] == sorted[j - 1]);
            }
        }
        assert(rows =~= init.push(row));
        vstd::seq_lib::to_multiset_insert(sorted, p, row);
    } else {
        assert(rows.to_multiset() =~= Multiset::empty());
    }
}

/// Two sequences sorted by a total preorder, holding the same elements,
/// are equal when no two different elements of them are ordered both ways.
pub proof fn lemma_sorted_unique<T>(a: Seq<T>, b: Seq<T>, le: spec_fn(T, T) -> bool)
    requires
        total_preorder(le),
        sorted_by(a, le),
        sorted_by(b, le),
        a.to_multiset() == b.to_multiset(),
        antisymmetric_on(a, le),
    ensures
        a == b,
    decreases a.len(),
{
    broadcast use vstd::seq_lib::group_to_multiset_ensures;
    vstd::seq_lib::to_multiset_len(a);
    vstd::seq_lib::to_multiset_len(b);
    if a.len() == 0 {
        assert(a =~= b);
    } else {
        let x = a[0];
        let y = b[0];
        vstd::seq_lib::to_multiset_contains(b, y);
        assert(b.contains(y)) by { assert(b[0] == y); }
        assert(a.to_multiset().count(y) > 0);
        vstd::seq_lib::to_multiset_contains(a, y);
        let k = choose|k: int| 0 <= k < a.len() && a[k] == y;
        vstd::seq_lib::to_multiset_contains(a, x);
        assert(a.contains(x)) by { assert(a[0] == x); }
        assert(b.to_multiset().count(x) > 0);
        vstd::seq_lib::to_multiset_contains(b, x);
        let m = choose|m: int| 0 <= m < b.len() && b[m] == x;
        if k > 0 {
            assert(le(a[0], a[k]));
        } else {
            assert(le(x, x) || le(x, x));
        }
        if m > 0 {
            assert(le(b[0], b[m]));
        } else {
            assert(le(y, y) || le(y, y));
        }
        assert(le(x, y) && le(y, x));
        assert(a[0] == a[k]);
        assert(x == y);
        vstd::seq_lib::to_multiset_remove(a, 0);
        vstd::seq_lib::to_multiset_remove(b, 0);
        assert(a.remove(0) =~= a.drop_first());
        assert(b.remove(0) =~= b.drop_first());
        let ra = a.drop_first();
        let rb = b.drop_first();
        assert forall|i: int, j: int| #![trigger ra[i], ra[j]] 0 <= i < j < ra.len() implies le(ra[i], ra[j]) by {
            assert(ra[i] == a[i + 1] && ra[j] == a[j + 1]);
        }
        assert forall|i: int, j: int| #![trigger rb[i], rb[j]] 0 <= i < j < rb.len() implies le(rb[i], rb[j]) by {
            assert(rb[i] == b[i + 1] && rb[j] == b[j + 1]);
        }
        assert forall|i: int, j: int| #![trigger ra[i], ra[j]] 0 <= i < ra.len() && 0 <= j < ra.len() && le(ra[i], ra[j])
            && le(ra[j], ra[i]) implies ra[i] == ra[j] by {
            assert(ra[i] == a[i + 1] && ra[j] == a[j + 1]);
        }
        lemma_sorted_unique(ra, rb, le);
        assert(a =~= seq![x] + ra);
        assert(b =~= seq![y] + rb);
    }
}

/// Insertion sort by a total preorder gives the same result for any order
/// of the same elements, when no two different elements are ordered both
/// ways.
pub proof fn lemma_insertion_sorted_permutation<T>(a: Seq<T>, b: Seq<T>, le: spec_fn(T, T) -> bool)
    requires
        total_preorder(le),
        a.to_multiset() == b.to_multiset(),
        antisymmetric_on(a, le),
    ensures
        insertion_sorted_by(a, le) == insertion_sorted_by(b, le),
{
    broadcast use vstd::seq_lib::group_to_multiset_ensures;
    lemma_insertion_sorted_by(a, le);
    lemma_insertion_sorted_by(b, le);
    let sa = insertion_sorted_by(a, le);
    let sb = insertion_sorted_by(b, le);
    assert forall|i: int, j: int| #![trigger sa[i], sa[j]] 0 <= i < sa.len() && 0 <= j < sa.len() && le(sa[i], sa[j])
        && le(sa[j], sa[i]) implies sa[i] == sa[j] by {
        vstd::seq_lib::to_multiset_contains(sa, sa[i]);
        vstd::seq_lib::to_multiset_contains(sa, sa[j]);
        assert(sa.contains(sa[i])) by { assert(sa[i] == sa[i]); }
        assert(sa.contains(sa[j])) by { assert(sa[j] == sa[j]); }
        vstd::seq_lib::to_multiset_contains(a, sa[i]);
        vstd::seq_lib::to_multiset_contains(a, sa[j]);
        let p = choose|p: int| 0 <= p < a.len() && a[p] == sa[i];
        let q = choose|q: int| 0 <= q < a.len() && a[q] == sa[j];
        assert(a[p] == a[q]);
    }
    lemma_sorted_unique(sa, sb, le);
}

proof fn lemma_texts_in_order(a: Seq<char>, b: Seq<char>, c: Seq<char>)
    ensures
        text_lt(a, b) && text_lt(b, c) ==> text_lt(a, c),
        text_lt(c, b) && text_lt(b, a) ==> text_lt(c, a),
        a == b || text_lt(a, b) || text_lt(b, a),
        b == c || text_lt(b, c) || text_lt(c, b),
        a == c || text_lt(a, c) || text_lt(c, a),
        !(text_lt(a, b) && text_lt(b, a)),
        !(text_lt(b, c) && text_lt(c, b)),
        !(text_lt(a, c) && text_lt(c, a)),
{
    lemma_text_lt_order(a, b);
    lemma_text_lt_order(b, c);
    lemma_text_lt_order(a, c);
    lemma_text_lt_transitive(a, b, c);
    lemma_text_lt_transitive(c, b, a);
}

/// The order of texts is a total preorder under which only equal texts are
/// ordered both ways.
pub proof fn lemma_text_le_order()
    ensures
        total_preorder(text_le()),
        forall|a: Seq<char>, b: Seq<char>| #[trigger] (text_le())(a, b) && (text_le())(b, a) ==> a == b,
{
    assert forall|a: Seq<char>, b: Seq<char>| #[trigger] (text_le())(a, b) || (text_le())(b, a) by {
        lemma_text_lt_order(a, b);
    }
    assert forall|a: Seq<char>, b: Seq<char>, c: Seq<char>| #[trigger] (text_le())(a, b) && #[trigger] (text_le())(b, c)
        implies (text_le())(a, c) by {
        lemma_texts_in_order(c, a, b);
    }
    assert forall|a: Seq<char>, b: Seq<char>| #[trigger] (text_le())(a, b) && (text_le())(b, a) implies a == b by {
        lemma_text_lt_order(a, b);
    }
}

/// The order of pairs of texts is a total preorder under which only equal
/// pairs are ordered both ways.
pub proof fn lemma_text_pair_le_order()
    ensures
        total_preorder(text_pair_le()),
        forall|a: (Seq<char>, Seq<char>), b: (Seq<char>, Seq<char>)| #[trigger] (text_pair_le())(a, b) && (text_pair_le())(
            b,
            a,
        ) ==> a == b,
{
    assert forall|a: (Seq<char>, Seq<char>), b: (Seq<char>, Seq<char>)| #[trigger] (text_pair_le())(a, b) || (
    text_pair_le())(b, a) by {
        lemma_text_lt_order(a.0, b.0);
        lemma_text_lt_order(a.1, b.1);
    }
    assert forall|a: (Seq<char>, Seq<char>), b: (Seq<char>, Seq<char>), c: (Seq<char>, Seq<char>)| #[trigger] (
    text_pair_le())(a, b) && #[trigger] (text_pair_le())(b, c) implies (text_pair_le())(a, c) by {
        lemma_texts_in_order(a.0, b.0, c.0);
        lemma_texts_in_order(a.1, b.1, c.1);
    }
    assert forall|a: (Seq<char>, Seq<char>), b: (Seq<char>, Seq<char>)| #[trigger] (text_pair_le())(a, b) && (
    text_pair_le())(b, a) implies a == b by {
        lemma_text_lt_order(a.0, b.0);
        lemma_text_lt_order(a.1, b.1);
    }
}

} // verus!
