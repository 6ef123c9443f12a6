//! Shape rows per shape id, with the object samples taken alongside.

use vstd::prelude::*;

use crate::config::SamplingConfig;
use crate::error::ProfileError;
use crate::refs::resolver::{ResolvedObjectContext, opt_text_view};
use crate::scan::path::{SourcePath, path_text};
use crate::shape::id::{
    ShapeFacts, compute_shape_facts, field_set_json_text, hash_text, optional_str_view, shape_input, type_set_json_text,
};
use crate::shape::sample::{
    ObjectSampleAccumulator, ObjectSampleRow, ObjectSampleRowView, ObjectSampleState, candidate_count, drained_rows,
    SampleScope, configured_scope_limit, empty_object_samples, groups_use_scope_limits, has_group,
    lemma_object_observed_scope_limits, scope_key, lemma_no_samples_consistent, lemma_object_observed_consistent, lemma_texts_ordered, object_observed,
    samples_consistent,
};
use crate::util::dup::Duplicate;
use crate::util::json_value::JsonValue;
use crate::util::sort::{SortKey, insertion_sorted, sort_rows, text_le};
use crate::util::table::{KeyedTable, entry_value};
use crate::util::text::{compare_text, lemma_text_lt_order, text_lt};

verus! {

#[derive(Debug, Clone, PartialEq, Eq)]
pub struct ShapeRow {
    pub shape_id: String,
    pub canonical_path: String,
    pub site_path: Option<String>,
    pub schema_path: String,
    pub field_set_hash: String,
    pub type_set_hash: String,
    pub field_set_json: String,
    pub type_set_json: String,
    pub object_count: u64,
    pub first_seen_document_index: Option<u64>,
    pub first_seen_path: Option<String>,
}

impl Duplicate for ShapeRow {
    fn duplicate(&self) -> (copy: Self) {
        ShapeRow {
            shape_id: self.shape_id.duplicate(),
            canonical_path: self.canonical_path.duplicate(),
            site_path: self.site_path.duplicate(),
            schema_path: self.schema_path.duplicate(),
            field_set_hash: self.field_set_hash.duplicate(),
            type_set_hash: self.type_set_hash.duplicate(),
            field_set_json: self.field_set_json.duplicate(),
            type_set_json: self.type_set_json.duplicate(),
            object_count: self.object_count,
            first_seen_document_index: self.first_seen_document_index,
            first_seen_path: self.first_seen_path.duplicate(),
        }
    }
}

/// Shape rows in ascending shape id order.
impl SortKey for ShapeRow {
    open spec fn sort_le_spec(&self, other: &Self) -> bool {
        (text_le())(self.shape_id@, other.shape_id@)
    }

    fn sort_le(&self, other: &Self) -> (le: bool) {
        compare_text(other.shape_id.as_str(), self.shape_id.as_str()) != -1
    }

    proof fn lemma_sort_le_total(a: &Self, b: &Self) {
        lemma_text_lt_order(a.shape_id@, b.shape_id@);
    }

    proof fn lemma_sort_le_transitive(a: &Self, b: &Self, c: &Self) {
        lemma_texts_ordered(a.shape_id@, b.shape_id@, c.shape_id@);
    }
}

/// The shape row that an object starts: its context and shape facts, a
/// count of one, and where it was first seen.
pub open spec fn new_shape_row_ok(
    row: ShapeRow,
    context: ResolvedObjectContext,
    facts: ShapeFacts,
    document_index: u64,
    source_path: Seq<char>,
) -> bool {
    &&& row.shape_id@ == facts.shape_id@
    &&& row.canonical_path@ == context.canonical_path@
    &&& opt_text_view(row.site_path) == opt_text_view(context.site_path)
    &&& row.schema_path@ == context.schema_path@
    &&& row.field_set_hash@ == facts.field_set_hash@
    &&& row.type_set_hash@ == facts.type_set_hash@
    &&& row.field_set_json@ == facts.field_set_json@
    &&& row.type_set_json@ == facts.type_set_json@
    &&& row.object_count == 1
    &&& row.first_seen_document_index == Some(document_index)
    &&& opt_text_view(row.first_seen_path) == Some(source_path)
}

/// The facts `compute_shape_facts` gives for an object in a context.
pub open spec fn shape_facts_ok(facts: ShapeFacts, context: ResolvedObjectContext, object: Seq<(String, JsonValue)>) -> bool {
    &&& facts.field_set_json@ == field_set_json_text(object)
    &&& facts.type_set_json@ == type_set_json_text(object)
    &&& facts.field_set_hash@ == hash_text(field_set_json_text(object))
    &&& facts.type_set_hash@ == hash_text(type_set_json_text(object))
    &&& facts.shape_id@ == hash_text(
        shape_input(context.canonical_path@, opt_text_view(context.site_path), context.schema_path@, object),
    )
}

pub struct ShapeAccumulator {
    shapes: KeyedTable<String, ShapeRow>,
    object_samples: ObjectSampleAccumulator,
    objects_seen: Ghost<nat>,
}

/// Each row is stored under its own shape id.
pub open spec fn rows_keyed_by_shape(entries: Seq<(String, ShapeRow)>) -> bool {
    forall|i: int| 0 <= i < entries.len() ==> (#[trigger] entries[i]).1.shape_id@ == entries[i].0@
}

/// The sum of the object counts of `entries`.
pub open spec fn shape_total(entries: Seq<(String, ShapeRow)>) -> int
    decreases entries.len(),
{
    if entries.len() == 0 {
        0
    } else {
        shape_total(entries.drop_last()) + entries.last().1.object_count
    }
}

/// The sum of the object counts of `rows`.
pub open spec fn rows_total(rows: Seq<ShapeRow>) -> int
    decreases rows.len(),
{
    if rows.len() == 0 {
        0
    } else {
        rows_total(rows.drop_last()) + rows.last().object_count
    }
}

proof fn lemma_rows_total_insert(rows: Seq<ShapeRow>, p: int, row: ShapeRow)
    requires
        0 <= p <= rows.len(),
    ensures
        rows_total(rows.insert(p, row)) == rows_total(rows) + row.object_count,
    decreases rows.len(),
{
    if p < rows.len() {
        lemma_rows_total_insert(rows.drop_last(), p, row);
        assert(rows.insert(p, row).drop_last() =~= rows.drop_last().insert(p, row));
    } else {
        assert(rows.insert(p, row) =~= rows.push(row));
        assert(rows.push(row).drop_last() =~= rows);
    }
}

/// Sorting the rows keeps the sum of their object counts.
pub proof fn lemma_rows_total_sorted(rows: Seq<ShapeRow>)
    ensures
        rows_total(insertion_sorted(rows)) == rows_total(rows),
    decreases rows.len(),
{
    if rows.len() > 0 {
        lemma_rows_total_sorted(rows.drop_last());
        let sorted = insertion_sorted(rows.drop_last());
        crate::util::sort::lemma_insert_sorted_is_insert(sorted, rows.last());
        lemma_rows_total_insert(sorted, crate::util::sort::insert_position(sorted, rows.last()), rows.last());
    }
}

proof fn lemma_rows_total_entries(entries: Seq<(String, ShapeRow)>)
    ensures
        rows_total(entries.map_values(|e: (String, ShapeRow)| e.1)) == shape_total(entries),
    decreases entries.len(),
{
    if entries.len() > 0 {
        lemma_rows_total_entries(entries.drop_last());
        assert(entries.map_values(|e: (String, ShapeRow)| e.1).drop_last() =~= entries.drop_last().map_values(
            |e: (String, ShapeRow)| e.1,
        ));
    }
}

proof fn lemma_shape_total_update(entries: Seq<(String, ShapeRow)>, i: int, entry: (String, ShapeRow))
    requires
        0 <= i < entries.len(),
    ensures
        shape_total(entries.update(i, entry)) == shape_total(entries) - entries[i].1.object_count + entry.1.object_count,
    decreases entries.len(),
{
    if i < entries.len() - 1 {
        lemma_shape_total_update(entries.drop_last(), i, entry);
        assert(entries.update(i, entry).drop_last() =~= entries.drop_last().update(i, entry));
    } else {
        assert(entries.update(i, entry).drop_last() =~= entries.drop_last());
    }
}

proof fn lemma_shape_count_within(entries: Seq<(String, ShapeRow)>, i: int)
    requires
        0 <= i < entries.len(),
    ensures
        entries[i].1.object_count <= shape_total(entries),
    decreases entries.len(),
{
    lemma_shape_total_nonnegative(entries.drop_last());
    if i < entries.len() - 1 {
        lemma_shape_count_within(entries.drop_last(), i);
    }
}

proof fn lemma_shape_total_nonnegative(entries: Seq<(String, ShapeRow)>)
    ensures
        shape_total(entries) >= 0,
    decreases entries.len(),
{
    if entries.len() > 0 {
        lemma_shape_total_nonnegative(entries.drop_last());
    }
}

impl ShapeAccumulator {
    /// The shape rows by shape id, in the order shapes were first seen.
    pub closed spec fn shape_entries(&self) -> Seq<(String, ShapeRow)> {
        self.shapes.entries()
    }

    /// The object samples taken alongside.
    pub closed spec fn samples(&self) -> ObjectSampleState {
        self.object_samples@
    }

    /// The object sample accumulator kept alongside.
    pub closed spec fn object_sampler(&self) -> ObjectSampleAccumulator {
        self.object_samples
    }

    /// The number of objects observed since the shape rows were last
    /// drained.
    pub closed spec fn objects_observed(&self) -> nat {
        self.objects_seen@
    }

    /// No shape id occurs twice, each row is stored under its own shape id,
    /// and the object counts add up to the objects observed (until that
    /// number reaches `u64::MAX`).
    pub closed spec fn wf(&self) -> bool {
        &&& self.shapes.wf()
        &&& rows_keyed_by_shape(self.shapes.entries())
        &&& self.object_samples.groups_follow_offers()
        &&& samples_consistent(self.object_samples@)
        &&& self.objects_seen@ >= u64::MAX || shape_total(self.shapes.entries()) == self.objects_seen@
    }

    /// The shape rows in ascending shape id order, as a drain hands them out.
    pub open spec fn sorted_rows(&self) -> Seq<ShapeRow> {
        insertion_sorted(self.shape_entries().map_values(|e: (String, ShapeRow)| e.1))
    }

    /// The row of a shape id, if it has been seen since the last drain.
    pub open spec fn shape_of(&self, shape_id: Seq<char>) -> Option<ShapeRow> {
        entry_value(self.shape_entries(), shape_id)
    }

    pub fn new() -> (accumulator: Self)
        ensures
            accumulator.wf(),
            accumulator.shape_entries() == Seq::<(String, ShapeRow)>::empty(),
            accumulator.samples() == empty_object_samples(),
            accumulator.objects_observed() == 0,
    {
        proof {
            lemma_no_samples_consistent();
        }
        ShapeAccumulator {
            shapes: KeyedTable::new(),
            object_samples: ObjectSampleAccumulator::new(),
            objects_seen: Ghost(0),
        }
    }

    /// Observes an object, as `observe_object_with_facts` does.
    pub fn observe_object(
        &mut self,
        document_index: u64,
        path: &SourcePath,
        context: &ResolvedObjectContext,
        object: &Vec<(String, JsonValue)>,
        config: &SamplingConfig,
    ) -> (result: Result<(), ProfileError>)
        requires
            old(self).wf(),
        ensures
            result is Ok,
            final(self).wf(),
            exists|facts: ShapeFacts| shape_facts_ok(facts, *context, object@) && #[trigger] observed_with(
                *old(self),
                *final(self),
                facts,
                document_index,
                path_text(path.parts(), false),
                *context,
                object@,
                *config,
            ),
    {
        match self.observe_object_with_facts(document_index, path, context, object, config) {
            Ok(_) => Ok(()),
            Err(error) => Err(error),
        }
    }

    /// Observes an object: computes its shape facts, counts it under its
    /// shape (starting the shape's row when the shape is new), and takes its
    /// object samples.
    pub fn observe_object_with_facts(
        &mut self,
        document_index: u64,
        path: &SourcePath,
        context: &ResolvedObjectContext,
        object: &Vec<(String, JsonValue)>,
        config: &SamplingConfig,
    ) -> (result: Result<ShapeFacts, ProfileError>)
        requires
            old(self).wf(),
        ensures
            result is Ok,
            final(self).wf(),
            shape_facts_ok(result->Ok_0, *context, object@),
            observed_with(
                *old(self),
                *final(self),
                result->Ok_0,
                document_index,
                path_text(path.parts(), false),
                *context,
                object@,
                *config,
            ),
    {
        let source_path = path.as_str();
        let site = match &context.site_path {
            Some(site) => Some(site.as_str()),
            None => None,
        };
        let facts = compute_shape_facts(context.canonical_path.as_str(), site, context.schema_path.as_str(), object);
        assert(optional_str_view(site) == opt_text_view(context.site_path));
        let ghost before = *self;
        let ghost entries = self.shapes.entries();
        let row = match self.shapes.get(&facts.shape_id) {
            Some(existing) => {
                let mut row = existing.duplicate();
                row.object_count = row.object_count.saturating_add(1);
                row
            },
            None => ShapeRow {
                shape_id: facts.shape_id.clone(),
                canonical_path: context.canonical_path.clone(),
                site_path: context.site_path.duplicate(),
                schema_path: context.schema_path.clone(),
                field_set_hash: facts.field_set_hash.clone(),
                type_set_hash: facts.type_set_hash.clone(),
                field_set_json: facts.field_set_json.clone(),
                type_set_json: facts.type_set_json.clone(),
                object_count: 1,
                first_seen_document_index: Some(document_index),
                first_seen_path: Some(source_path.clone()),
            },
        };
        let ghost key = facts.shape_id;
        let ghost stored = row;
        self.shapes.insert(facts.shape_id.clone(), row);
        self.objects_seen = Ghost(before.objects_seen@ + 1);
        proof {
            let n = before.objects_seen@;
            if n < u64::MAX {
                if crate::util::table::entries_have_key(entries, key@) {
                    let i = crate::util::table::entry_position(entries, key@);
                    lemma_shape_count_within(entries, i);
                    lemma_shape_total_update(entries, i, (key, stored));
                } else {
                    assert(entries.push((key, stored)).drop_last() =~= entries);
                }
            }
        }
        proof {
            let after = self.shapes.entries();
            assert forall|i: int| 0 <= i < after.len() implies (#[trigger] after[i]).1.shape_id@ == after[i].0@ by {
                if crate::util::table::entries_have_key(entries, key@) {
                    let p = crate::util::table::entry_position(entries, key@);
                    if i != p {
                        assert(after[i] == entries[i]);
                    }
                } else if i < entries.len() {
                    assert(after[i] == entries[i]);
                }
            }
        }
        let ghost samples_before = self.object_samples@;
        let _ = self.object_samples.observe(document_index, source_path.as_str(), context, &facts, object, config);
        proof {
            lemma_object_observed_consistent(samples_before, document_index, source_path@, *context, facts, object@, *config);
        }
        proof {
            assert forall|k: Seq<char>| k != facts.shape_id@ implies #[trigger] self.shape_of(k) == before.shape_of(k) by {
                assert(self.shapes.value_of(k) == before.shapes.value_of(k));
            }
            reveal(observed_with);
        }
        Ok(facts)
    }

    fn copied_rows(&self) -> (rows: Vec<ShapeRow>)
        ensures
            rows@ == self.shape_entries().map_values(|e: (String, ShapeRow)| e.1),
    {
        let mut rows: Vec<ShapeRow> = Vec::new();
        let count = self.shapes.len();
        let mut index: usize = 0;
        while index < count
            invariant
                count == self.shape_entries().len(),
                index <= count,
                rows@ == self.shape_entries().map_values(|e: (String, ShapeRow)| e.1).subrange(0, index as int),
            decreases count - index,
        {
            let entry = self.shapes.entry(index);
            rows.push(entry.1.duplicate());
            assert(self.shape_entries().map_values(|e: (String, ShapeRow)| e.1).subrange(0, index + 1)
                =~= self.shape_entries().map_values(|e: (String, ShapeRow)| e.1).subrange(0, index as int).push(entry.1));
            index = index + 1;
        }
        assert(self.shape_entries().map_values(|e: (String, ShapeRow)| e.1).subrange(0, count as int)
            =~= self.shape_entries().map_values(|e: (String, ShapeRow)| e.1));
        rows
    }

    /// The shape rows, in ascending shape id order.
    pub fn shape_rows(&self) -> (rows: Vec<ShapeRow>)
        ensures
            rows@ == insertion_sorted(self.shape_entries().map_values(|e: (String, ShapeRow)| e.1)),
    {
        sort_rows(self.copied_rows())
    }

    /// The shape rows in ascending shape id order; the accumulator forgets
    /// them.
    pub fn drain_shape_rows(&mut self) -> (rows: Vec<ShapeRow>)
        ensures
            rows@ == old(self).sorted_rows(),
            old(self).wf() ==> final(self).wf(),
            final(self).shape_entries() == Seq::<(String, ShapeRow)>::empty(),
            final(self).samples() == old(self).samples(),
            final(self).objects_observed() == 0,
            old(self).wf() && old(self).objects_observed() < u64::MAX ==> rows_total(rows@) == old(self).objects_observed(),
    {
        proof {
            lemma_rows_total_entries(self.shapes.entries());
            lemma_rows_total_sorted(self.shapes.entries().map_values(|e: (String, ShapeRow)| e.1));
        }
        let rows = self.shape_rows();
        self.shapes.clear();
        self.objects_seen = Ghost(0);
        rows
    }

    /// The object sample rows; the samples are forgotten.
    pub fn drain_object_sample_rows(&mut self) -> (rows: Vec<ObjectSampleRow>)
        ensures
            rows@.map_values(|r: ObjectSampleRow| r@) == drained_rows(old(self).samples()),
            final(self).samples() == empty_object_samples(),
            final(self).shape_entries() == old(self).shape_entries(),
            final(self).objects_observed() == old(self).objects_observed(),
            old(self).wf() ==> final(self).wf(),
    {
        proof {
            lemma_no_samples_consistent();
        }
        self.object_samples.drain_rows()
    }

    pub fn shape_row_count(&self) -> (count: usize)
        ensures
            count == self.shape_entries().len(),
    {
        self.shapes.len()
    }

    /// How many object sample rows a drain would hand out now, or
    /// `usize::MAX` when that number does not fit.
    pub open spec fn pending_object_samples(&self) -> nat {
        if self.samples().pending.len() + candidate_count(self.samples().groups) <= usize::MAX {
            self.samples().pending.len() + candidate_count(self.samples().groups)
        } else {
            usize::MAX as nat
        }
    }

    pub fn pending_object_sample_count(&self) -> (count: usize)
        ensures
            count == self.pending_object_samples(),
    {
        self.object_samples.pending_row_count()
    }
}

/// `after` is `before` once an object with `facts` has been observed: its
/// shape's row counts one more object (or starts), no other shape changes,
/// and its samples are taken.
#[verifier::opaque]
pub open spec fn observed_with(
    before: ShapeAccumulator,
    after: ShapeAccumulator,
    facts: ShapeFacts,
    document_index: u64,
    source_path: Seq<char>,
    context: ResolvedObjectContext,
    object: Seq<(String, JsonValue)>,
    config: SamplingConfig,
) -> bool {
    &&& match before.shape_of(facts.shape_id@) {
        Some(old_row) => after.shape_of(facts.shape_id@) == Some(
            ShapeRow { object_count: old_row.object_count.saturating_add(1), ..old_row },
        ),
        None => after.shape_of(facts.shape_id@) is Some && new_shape_row_ok(
            after.shape_of(facts.shape_id@)->Some_0,
            context,
            facts,
            document_index,
            source_path,
        ),
    }
    &&& forall|k: Seq<char>| k != facts.shape_id@ ==> #[trigger] after.shape_of(k) == before.shape_of(k)
    &&& after.objects_observed() == before.objects_observed() + 1
    &&& after.samples() == object_observed(before.samples(), document_index, source_path, context, facts, object, config)
}

impl Default for ShapeAccumulator {
    fn default() -> (accumulator: Self)
        ensures
            accumulator.wf(),
            accumulator.shape_entries() == Seq::<(String, ShapeRow)>::empty(),
            accumulator.samples() == empty_object_samples(),
    {
        ShapeAccumulator::new()
    }
}

/// Every object observed since the shape rows were last drained is counted
/// under exactly one shape: the object counts add up to the number of
/// objects observed (while that number is below `u64::MAX`).
pub proof fn lemma_shape_counts_add_up(accumulator: ShapeAccumulator)
    requires
        accumulator.wf(),
        accumulator.objects_observed() < u64::MAX,
    ensures
        shape_total(accumulator.shape_entries()) == accumulator.objects_observed(),
{
}

/// The drained shape rows hold one row per shape id: their shape ids are
/// strictly ascending.
pub proof fn lemma_shape_rows_one_per_shape(accumulator: ShapeAccumulator)
    requires
        accumulator.wf(),
    ensures
        accumulator.sorted_rows().len() == accumulator.shape_entries().len(),
        forall|i: int, j: int| 0 <= i < j < accumulator.sorted_rows().len() ==> text_lt(
            #[trigger] accumulator.sorted_rows()[i].shape_id@,
            #[trigger] accumulator.sorted_rows()[j].shape_id@,
        ),
{
    broadcast use vstd::seq_lib::group_to_multiset_ensures;
    let entries = accumulator.shape_entries();
    let rows = entries.map_values(|e: (String, ShapeRow)| e.1);
    let sorted = insertion_sorted(rows);
    assert(sorted == accumulator.sorted_rows());
    crate::util::sort::lemma_insertion_sorted(rows);
    assert(rows.no_duplicates()) by {
        assert forall|a: int, b: int| 0 <= a < rows.len() && 0 <= b < rows.len() && a != b implies rows[a] != rows[b] by {
            if a < b {
                assert(entries[a].0@ != entries[b].0@);
            } else {
                assert(entries[b].0@ != entries[a].0@);
            }
            assert(rows[a].shape_id@ == entries[a].0@);
            assert(rows[b].shape_id@ == entries[b].0@);
        }
    }
    rows.lemma_multiset_has_no_duplicates();
    sorted.lemma_multiset_has_no_duplicates_conv();
    assert forall|i: int, j: int| 0 <= i < j < sorted.len() implies text_lt(#[trigger] sorted[i].shape_id@, #[trigger] sorted[j].shape_id@) by {
        assert(sorted.contains(sorted[i]));
        assert(sorted.contains(sorted[j]));
        vstd::seq_lib::to_multiset_contains(sorted, sorted[i]);
        vstd::seq_lib::to_multiset_contains(sorted, sorted[j]);
        vstd::seq_lib::to_multiset_contains(rows, sorted[i]);
        vstd::seq_lib::to_multiset_contains(rows, sorted[j]);
        assert(rows.contains(sorted[i]));
        assert(rows.contains(sorted[j]));
        let a = choose|a: int| 0 <= a < rows.len() && rows[a] == sorted[i];
        let b = choose|b: int| 0 <= b < rows.len() && rows[b] == sorted[j];
        assert(sorted[i] != sorted[j]);
        assert(a != b);
        if a < b {
            assert(entries[a].0@ != entries[b].0@);
        } else {
            assert(entries[b].0@ != entries[a].0@);
        }
        assert(rows[a].shape_id@ == entries[a].0@);
        assert(rows[b].shape_id@ == entries[b].0@);
        assert(sorted[i].sort_le_spec(&sorted[j]));
        lemma_text_lt_order(sorted[i].shape_id@, sorted[j].shape_id@);
    }
}

/// The object samples of a well-formed accumulator are consistent: one
/// waiting row per `(scope, key, kind)` sampled once, and priority groups
/// with distinct keys holding their own candidates (so a drain hands out
/// what `lemma_drained_rows_by_key` describes).
pub proof fn lemma_object_samples_consistent(accumulator: ShapeAccumulator)
    requires
        accumulator.wf(),
    ensures
        samples_consistent(accumulator.samples()),
{
}

/// Observing an object under `config` keeps each object sample group at its
/// own scope's configured limit, and gives every scope with a positive limit
/// a group for the object's key in that scope.
pub proof fn lemma_observed_scope_limits(
    before: ShapeAccumulator,
    after: ShapeAccumulator,
    facts: ShapeFacts,
    document_index: u64,
    source_path: Seq<char>,
    context: ResolvedObjectContext,
    object: Seq<(String, JsonValue)>,
    config: SamplingConfig,
)
    requires
        observed_with(before, after, facts, document_index, source_path, context, object, config),
        groups_use_scope_limits(before.samples(), config),
    ensures
        groups_use_scope_limits(after.samples(), config),
        forall|scope: SampleScope| configured_scope_limit(scope, config) > 0 ==> #[trigger] has_group(
            after.samples(),
            scope,
            scope_key(scope, context, facts),
        ),
{
    reveal(observed_with);
    lemma_object_observed_scope_limits(before.samples(), document_index, source_path, context, facts, object, config);
}

/// The object samples' priority groups of a well-formed accumulator hold
/// what their offered candidates keep, so each group keeps the smallest
/// candidates offered to it (see `lemma_groups_keep_smallest`).
pub proof fn lemma_object_groups_follow_offers(accumulator: ShapeAccumulator)
    requires
        accumulator.wf(),
    ensures
        accumulator.object_sampler().groups_follow_offers(),
        accumulator.object_sampler()@ == accumulator.samples(),
{
}

} // verus!
