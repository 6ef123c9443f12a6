//! Shape-field rows and field summaries per field profile.

use vstd::prelude::*;

use crate::config::ProfileConfig;
use crate::field::id::{field_profile_id, field_profile_id_text};
use crate::field::summary::{
    FieldSummary, FieldSummaryView, empty_summary, lemma_summary_updated_consistent, summary_consistent, summary_updated,
    update_summary,
};
use crate::shape::sample::lemma_texts_ordered;
use crate::util::dup::Duplicate;
use crate::util::json_type::{JsonType, json_type_of};
use crate::util::json_value::JsonValue;
use crate::util::sort::{SortKey, insertion_sorted, sort_rows, text_le};
use crate::util::table::{KeyedTable, entries_map, entry_value, lemma_entries_map_inserted, lemma_entry_value};
use crate::util::text::{compare_text, lemma_text_lt_order, str_to_string};
use crate::field::summary::{DistinctAlgorithm, DistinctCountMethod};
use crate::sketch::hll::{HyperLogLog, registers_after};
use crate::sketch::space_saving::{Counter, SpaceSaving, observed};
use crate::util::json_value::{bool_text, null_text, push_bool, push_null};
use crate::util::truncate::{truncate_utf8, truncated_text};
use crate::value::exact_counter::{
    CountMethod, ExactCounter, FieldValueRow, FieldValueRowView, ValueSource, exact_row, exact_step, option_text_view,
    ranked_rows, row_le, with_ranks,
};
use crate::value::identity::{ValueKey, key_hash64, key_hash_text, key_json_type, value_hash_from_key, value_key, value_key_of};
use crate::value::sample::{
    PendingRowDelta, ValueSampleAccumulator, ValueSampleRow, ValueSampleState, value_observed, value_rows,
    value_rows_added, value_rows_removed, value_sample_priority,
};
use crate::util::sort::insertion_sorted_by;
use vstd::utf8::encode_utf8;

verus! {

#[derive(Debug, Clone, PartialEq, Eq)]
pub struct ShapeFieldRow {
    pub field_profile_id: String,
    pub shape_id: String,
    pub field_name: String,
    pub observed_type: JsonType,
    pub observed_count: u64,
    pub null_count: u64,
}

/// A shape-field row with its texts as characters.
pub struct ShapeFieldRowView {
    pub field_profile_id: Seq<char>,
    pub shape_id: Seq<char>,
    pub field_name: Seq<char>,
    pub observed_type: JsonType,
    pub observed_count: u64,
    pub null_count: u64,
}

impl View for ShapeFieldRow {
    type V = ShapeFieldRowView;

    open spec fn view(&self) -> ShapeFieldRowView {
        ShapeFieldRowView {
            field_profile_id: self.field_profile_id@,
            shape_id: self.shape_id@,
            field_name: self.field_name@,
            observed_type: self.observed_type,
            observed_count: self.observed_count,
            null_count: self.null_count,
        }
    }
}

impl Duplicate for ShapeFieldRow {
    fn duplicate(&self) -> (copy: Self) {
        ShapeFieldRow {
            field_profile_id: self.field_profile_id.duplicate(),
            shape_id: self.shape_id.duplicate(),
            field_name: self.field_name.duplicate(),
            observed_type: self.observed_type,
            observed_count: self.observed_count,
            null_count: self.null_count,
        }
    }
}

/// Shape-field rows in ascending field profile id order.
impl SortKey for ShapeFieldRow {
    open spec fn sort_le_spec(&self, other: &Self) -> bool {
        (text_le())(self.field_profile_id@, other.field_profile_id@)
    }

    fn sort_le(&self, other: &Self) -> (le: bool) {
        compare_text(other.field_profile_id.as_str(), self.field_profile_id.as_str()) != -1
    }

    proof fn lemma_sort_le_total(a: &Self, b: &Self) {
        lemma_text_lt_order(a.field_profile_id@, b.field_profile_id@);
    }

    proof fn lemma_sort_le_transitive(a: &Self, b: &Self, c: &Self) {
        lemma_texts_ordered(a.field_profile_id@, b.field_profile_id@, c.field_profile_id@);
    }
}

/// Summaries in ascending field profile id order.
impl SortKey for FieldSummary {
    open spec fn sort_le_spec(&self, other: &Self) -> bool {
        (text_le())(self.field_profile_id@, other.field_profile_id@)
    }

    fn sort_le(&self, other: &Self) -> (le: bool) {
        compare_text(other.field_profile_id.as_str(), self.field_profile_id.as_str()) != -1
    }

    proof fn lemma_sort_le_total(a: &Self, b: &Self) {
        lemma_text_lt_order(a.field_profile_id@, b.field_profile_id@);
    }

    proof fn lemma_sort_le_transitive(a: &Self, b: &Self, c: &Self) {
        lemma_texts_ordered(a.field_profile_id@, b.field_profile_id@, c.field_profile_id@);
    }
}

/// A field's row after one more observation of it: counted (and counted as
/// null when the value is null), or started with a count of one.
pub open spec fn field_row_counted(
    previous: Option<ShapeFieldRowView>,
    field_profile_id: Seq<char>,
    shape_id: Seq<char>,
    field_name: Seq<char>,
    value: JsonValue,
) -> ShapeFieldRowView {
    let is_null = value is Null;
    match previous {
        Some(row) => ShapeFieldRowView {
            observed_count: row.observed_count.saturating_add(1),
            null_count: if is_null { row.null_count.saturating_add(1) } else { row.null_count },
            ..row
        },
        None => ShapeFieldRowView {
            field_profile_id,
            shape_id,
            field_name,
            observed_type: json_type_of(value),
            observed_count: 1,
            null_count: if is_null { 1 } else { 0 },
        },
    }
}

/// Counts one observation of a field of an object with shape `shape_id` in
/// `rows`, and gives the field profile id it was counted under.
pub fn count_shape_field(
    rows: &mut KeyedTable<String, ShapeFieldRow>,
    shape_id: &str,
    field_name: &String,
    value: &JsonValue,
) -> (id: String)
    requires
        old(rows).wf(),
    ensures
        final(rows).wf(),
        id@ == field_profile_id_text(shape_id@, field_name@, json_type_of(*value)),
        entries_map(final(rows).entries()) == entries_map(old(rows).entries()).insert(
            id@,
            field_row_counted(
                if entries_map(old(rows).entries()).contains_key(id@) {
                    Some(entries_map(old(rows).entries())[id@])
                } else {
                    None
                },
                id@,
                shape_id@,
                field_name@,
                *value,
            ),
        ),
{
    let observed_type = JsonType::from_value(value);
    let id = field_profile_id(shape_id, field_name.as_str(), observed_type);
    let is_null = match value {
        JsonValue::Null => true,
        _ => false,
    };
    let ghost before = rows.entries();
    let row = match rows.find(&id) {
        Some(i) => {
            let existing = &rows.entry(i).1;
            proof { lemma_entry_value(before, i as int); }
            ShapeFieldRow {
                field_profile_id: existing.field_profile_id.duplicate(),
                shape_id: existing.shape_id.duplicate(),
                field_name: existing.field_name.duplicate(),
                observed_type: existing.observed_type,
                observed_count: existing.observed_count.saturating_add(1),
                null_count: if is_null { existing.null_count.saturating_add(1) } else { existing.null_count },
            }
        },
        None => ShapeFieldRow {
            field_profile_id: id.clone(),
            shape_id: str_to_string(shape_id),
            field_name: field_name.clone(),
            observed_type,
            observed_count: 1,
            null_count: if is_null { 1 } else { 0 },
        },
    };
    proof { lemma_entries_map_inserted(before, id, row); }
    rows.insert(id.clone(), row);
    id
}

/// Shape-field rows and summaries per field profile.
#[derive(Debug)]
pub struct FieldAccumulator {
    fields: KeyedTable<String, ShapeFieldRow>,
    summaries: KeyedTable<String, FieldSummary>,
}

/// A summary after one more value, or unchanged once it has counted
/// `u64::MAX` values.
pub open spec fn summary_counted(previous: Option<FieldSummaryView>, field_profile_id: Seq<char>, value: JsonValue) -> FieldSummaryView {
    let s = match previous {
        Some(s) => s,
        None => empty_summary(field_profile_id),
    };
    if s.profiled_count < u64::MAX {
        summary_updated(s, value)
    } else {
        s
    }
}

/// The shape-field rows after the fields `fields` of an object with shape
/// `shape_id` are counted in order.
pub open spec fn field_rows_observed(
    rows: Map<Seq<char>, ShapeFieldRowView>,
    shape_id: Seq<char>,
    fields: Seq<(String, JsonValue)>,
) -> Map<Seq<char>, ShapeFieldRowView>
    decreases fields.len(),
{
    if fields.len() == 0 {
        rows
    } else {
        let before = field_rows_observed(rows, shape_id, fields.drop_last());
        let (name, value) = fields.last();
        let id = field_profile_id_text(shape_id, name@, json_type_of(value));
        let previous = if before.contains_key(id) { Some(before[id]) } else { None };
        before.insert(id, field_row_counted(previous, id, shape_id, name@, value))
    }
}

/// The summaries after the fields `fields` of an object with shape
/// `shape_id` are counted in order.
pub open spec fn field_summaries_observed(
    summaries: Map<Seq<char>, FieldSummaryView>,
    shape_id: Seq<char>,
    fields: Seq<(String, JsonValue)>,
) -> Map<Seq<char>, FieldSummaryView>
    decreases fields.len(),
{
    if fields.len() == 0 {
        summaries
    } else {
        let before = field_summaries_observed(summaries, shape_id, fields.drop_last());
        let (name, value) = fields.last();
        let id = field_profile_id_text(shape_id, name@, json_type_of(value));
        let previous = if before.contains_key(id) { Some(before[id]) } else { None };
        before.insert(id, summary_counted(previous, id, value))
    }
}

impl FieldAccumulator {
    pub closed spec fn field_entries(&self) -> Seq<(String, ShapeFieldRow)> {
        self.fields.entries()
    }

    pub closed spec fn summary_entries(&self) -> Seq<(String, FieldSummary)> {
        self.summaries.entries()
    }

    /// No field profile id occurs twice, and every summary's counts are
    /// consistent.
    pub closed spec fn wf(&self) -> bool {
        &&& self.fields.wf()
        &&& self.summaries.wf()
        &&& forall|k: Seq<char>| #[trigger] self.summaries_map().contains_key(k) ==> summary_consistent(self.summaries_map()[k])
    }

    /// The rows by field profile id.
    pub open spec fn rows_map(&self) -> Map<Seq<char>, ShapeFieldRowView> {
        entries_map(self.field_entries())
    }

    /// The summaries by field profile id.
    pub open spec fn summaries_map(&self) -> Map<Seq<char>, FieldSummaryView> {
        entries_map(self.summary_entries())
    }

    pub fn new() -> (accumulator: Self)
        ensures
            accumulator.wf(),
            accumulator.field_entries() == Seq::<(String, ShapeFieldRow)>::empty(),
            accumulator.summary_entries() == Seq::<(String, FieldSummary)>::empty(),
    {
        FieldAccumulator { fields: KeyedTable::new(), summaries: KeyedTable::new() }
    }

    fn count_summary(&mut self, id: String, value: &JsonValue)
        requires
            old(self).wf(),
        ensures
            final(self).wf(),
            final(self).field_entries() == old(self).field_entries(),
            final(self).summaries_map() == old(self).summaries_map().insert(
                id@,
                summary_counted(
                    if old(self).summaries_map().contains_key(id@) {
                        Some(old(self).summaries_map()[id@])
                    } else {
                        None
                    },
                    id@,
                    *value,
                ),
            ),
    {
        let ghost before = self.summaries.entries();
        let mut summary = match self.summaries.find(&id) {
            Some(i) => {
                proof { lemma_entry_value(before, i as int); }
                let existing = &self.summaries.entry(i).1;
                FieldSummary {
                    field_profile_id: existing.field_profile_id.duplicate(),
                    profiled_count: existing.profiled_count,
                    null_count: existing.null_count,
                    non_null_count: existing.non_null_count,
                    empty_object_count: existing.empty_object_count,
                    empty_array_count: existing.empty_array_count,
                    empty_string_count: existing.empty_string_count,
                    distinct_count: existing.distinct_count,
                    distinct_count_method: existing.distinct_count_method,
                    distinct_algorithm: existing.distinct_algorithm,
                    distinct_precision: existing.distinct_precision,
                    stored_value_count: existing.stored_value_count,
                }
            },
            None => FieldSummary::new(id.clone()),
        };
        assert(summary_consistent(summary@));
        if summary.profiled_count < u64::MAX {
            proof { lemma_summary_updated_consistent(summary@, *value); }
            update_summary(&mut summary, value);
        }
        proof { lemma_entries_map_inserted(before, id, summary); }
        self.summaries.insert(id, summary);
    }

    /// Counts every field of an object with shape `shape_id`: its row under
    /// its field profile and its summary. The document index, source path,
    /// parent and configuration play no part in the counts.
    pub fn observe_object_fields(
        &mut self,
        document_index: u64,
        object_source_path: &str,
        shape_id: &str,
        object: &Vec<(String, JsonValue)>,
        parent_object: &JsonValue,
        config: &ProfileConfig,
    )
        requires
            old(self).wf(),
        ensures
            final(self).wf(),
            final(self).rows_map() == field_rows_observed(old(self).rows_map(), shape_id@, object@),
            final(self).summaries_map() == field_summaries_observed(old(self).summaries_map(), shape_id@, object@),
    {
        let ghost start_rows = self.rows_map();
        let ghost start_summaries = self.summaries_map();
        let mut index: usize = 0;
        assert(object@.subrange(0, 0) =~= Seq::<(String, JsonValue)>::empty());
        while index < object.len()
            invariant
                index <= object@.len(),
                self.wf(),
                self.rows_map() == field_rows_observed(start_rows, shape_id@, object@.subrange(0, index as int)),
                self.summaries_map() == field_summaries_observed(start_summaries, shape_id@, object@.subrange(0, index as int)),
            decreases object@.len() - index,
        {
            let field = &object[index];
            let id = count_shape_field(&mut self.fields, shape_id, &field.0, &field.1);
            self.count_summary(id, &field.1);
            proof {
                let prefix = object@.subrange(0, index + 1);
                assert(prefix.drop_last() =~= object@.subrange(0, index as int));
                assert(prefix.last() == object@[index as int]);
            }
            index = index + 1;
        }
        assert(object@.subrange(0, object@.len() as int) =~= object@);
    }

    /// The shape-field rows in ascending field profile id order.
    pub fn shape_field_rows(&self) -> (rows: Vec<ShapeFieldRow>)
        ensures
            rows@ == insertion_sorted(self.field_entries().map_values(|e: (String, ShapeFieldRow)| e.1)),
    {
        let mut rows: Vec<ShapeFieldRow> = Vec::new();
        let count = self.fields.len();
        let mut index: usize = 0;
        while index < count
            invariant
                count == self.field_entries().len(),
                index <= count,
                rows@ == self.field_entries().map_values(|e: (String, ShapeFieldRow)| e.1).subrange(0, index as int),
            decreases count - index,
        {
            let entry = self.fields.entry(index);
            rows.push(entry.1.duplicate());
            assert(self.field_entries().map_values(|e: (String, ShapeFieldRow)| e.1).subrange(0, index + 1)
                =~= self.field_entries().map_values(|e: (String, ShapeFieldRow)| e.1).subrange(0, index as int).push(entry.1));
            index = index + 1;
        }
        assert(self.field_entries().map_values(|e: (String, ShapeFieldRow)| e.1).subrange(0, count as int)
            =~= self.field_entries().map_values(|e: (String, ShapeFieldRow)| e.1));
        sort_rows(rows)
    }

    /// The summaries in ascending field profile id order.
    pub fn field_summaries(&self) -> (summaries: Vec<FieldSummary>)
        ensures
            summaries@.map_values(|s: FieldSummary| s@) == insertion_sorted(
                self.summary_entries().map_values(|e: (String, FieldSummary)| e.1),
            ).map_values(|s: FieldSummary| s@),
    {
        let mut rows: Vec<FieldSummary> = Vec::new();
        let count = self.summaries.len();
        let mut index: usize = 0;
        while index < count
            invariant
                count == self.summary_entries().len(),
                index <= count,
                rows@.len() == index,
                forall|k: int| 0 <= k < index ==> (#[trigger] rows@[k])@ == self.summary_entries()[k].1@
                    && rows@[k].field_profile_id@ == self.summary_entries()[k].1.field_profile_id@,
            decreases count - index,
        {
            let entry = self.summaries.entry(index);
            let existing = &entry.1;
            rows.push(FieldSummary {
                field_profile_id: existing.field_profile_id.duplicate(),
                profiled_count: existing.profiled_count,
                null_count: existing.null_count,
                non_null_count: existing.non_null_count,
                empty_object_count: existing.empty_object_count,
                empty_array_count: existing.empty_array_count,
                empty_string_count: existing.empty_string_count,
                distinct_count: existing.distinct_count,
                distinct_count_method: existing.distinct_count_method,
                distinct_algorithm: existing.distinct_algorithm,
                distinct_precision: existing.distinct_precision,
                stored_value_count: existing.stored_value_count,
            });
            index = index + 1;
        }
        let ghost unsorted = rows@;
        let sorted = sort_rows(rows);
        proof {
            let stored_summaries = self.summary_entries().map_values(|e: (String, FieldSummary)| e.1);
            assert(unsorted.map_values(|s: FieldSummary| s@) =~= stored_summaries.map_values(|s: FieldSummary| s@));
            crate::util::sort::lemma_insertion_sorted_map(
                unsorted,
                |s: FieldSummary| s@,
                crate::util::sort::key_le::<FieldSummary>(),
                |a: FieldSummaryView, b: FieldSummaryView| (text_le())(a.field_profile_id, b.field_profile_id),
            );
            crate::util::sort::lemma_insertion_sorted_map(
                stored_summaries,
                |s: FieldSummary| s@,
                crate::util::sort::key_le::<FieldSummary>(),
                |a: FieldSummaryView, b: FieldSummaryView| (text_le())(a.field_profile_id, b.field_profile_id),
            );
        }
        sorted
    }
}

impl Default for FieldAccumulator {
    fn default() -> (accumulator: Self)
        ensures
            accumulator.wf(),
            accumulator.field_entries() == Seq::<(String, ShapeFieldRow)>::empty(),
            accumulator.summary_entries() == Seq::<(String, FieldSummary)>::empty(),
    {
        FieldAccumulator::new()
    }
}

// ----- value-level profile of one field profile -----

/// The display text a key keeps of its value: `null`, `true` or `false`, or
/// the text of a number or string; none for objects and arrays, whose keys
/// keep only a hash.
pub open spec fn key_display_text(key: (u8, bool, Seq<char>)) -> Option<Seq<char>> {
    if key.0 == 0 {
        Some(null_text())
    } else if key.0 == 1 {
        Some(bool_text(key.1))
    } else if key.0 <= 4 {
        Some(key.2)
    } else {
        None
    }
}

/// The heavy-hitter row of one counter, before ranking: its key's hash,
/// type and display text, and its approximate count.
pub open spec fn heavy_hitter_row(field_profile_id: Seq<char>, value_text_limit: nat, entry: (ValueKey, Counter)) -> FieldValueRowView {
    let key = entry.0@;
    FieldValueRowView {
        field_profile_id,
        value_hash: key_hash_text(key),
        value_type: key_json_type(key.0),
        value_text: match key_display_text(key) {
            Some(text) => Some(truncated_text(text, value_text_limit)),
            None => None,
        },
        value_text_truncated: match key_display_text(key) {
            Some(text) => encode_utf8(text).len() > value_text_limit,
            None => false,
        },
        count: Some(entry.1.count),
        count_method: CountMethod::Approximate,
        value_source: ValueSource::HeavyHitter,
        rank: None,
        is_complete_distribution: false,
    }
}

/// The heavy-hitter rows: one per counter, by descending count then
/// ascending key, ranked from 1.
pub open spec fn heavy_hitter_rows(field_profile_id: Seq<char>, value_text_limit: nat, counters: Seq<(ValueKey, Counter)>) -> Seq<FieldValueRowView> {
    with_ranks(insertion_sorted(counters).map_values(|e: (ValueKey, Counter)| heavy_hitter_row(field_profile_id, value_text_limit, e)))
}

fn key_display(key: &ValueKey) -> (text: Option<String>)
    ensures
        option_text_view(text) == key_display_text(key@),
{
    match key {
        ValueKey::Null => {
            let mut text = String::new();
            push_null(&mut text);
            assert(text@ =~= null_text());
            Some(text)
        },
        ValueKey::Bool(b) => {
            let mut text = String::new();
            push_bool(&mut text, *b);
            assert(text@ =~= bool_text(*b));
            Some(text)
        },
        ValueKey::Integer(text) => Some(text.clone()),
        ValueKey::Number(text) => Some(text.clone()),
        ValueKey::String(text) => Some(text.clone()),
        ValueKey::ObjectHash(_) => None,
        ValueKey::ArrayHash(_) => None,
    }
}

/// What observing one value reports: how the number of waiting value
/// samples changed.
#[derive(Debug, Clone, Copy, PartialEq, Eq)]
pub struct FieldValueObserveStats {
    pub pending_value_sample_delta: PendingRowDelta,
}

/// The value-level profile of one field profile: its summary, an exact
/// counter of its values (until they pass the configured limits), a
/// HyperLogLog sketch of their keys, Space-Saving heavy hitters, and its
/// value samples.
pub struct FieldValueAccumulator {
    field_profile_id: String,
    observed: u64,
    summary: FieldSummary,
    exact: ExactCounter,
    distinct: HyperLogLog,
    heavy: SpaceSaving<ValueKey>,
    samples: ValueSampleAccumulator,
}

/// What a finished field profile hands out: its summary, its value rows (the
/// exact distribution while the exact counter held every value, else the
/// heavy hitters) and its waiting value samples. An approximate distinct
/// count is left to be estimated from the sketch that comes with it.
pub struct FieldValueOutput {
    pub summary: FieldSummary,
    pub field_values: Vec<FieldValueRow>,
    pub value_samples: Vec<ValueSampleRow>,
    pub distinct_sketch: Option<HyperLogLog>,
}

/// What one value does to the counters of `before`: while fewer than
/// `u64::MAX` values were counted, the exact counter takes a step, the
/// sketch records the hash of the value's key, and the heavy hitters count
/// the key; after that they stay as they are.
pub open spec fn value_counted(before: FieldValueAccumulator, after: FieldValueAccumulator, value: JsonValue) -> bool {
    &&& after.exact().distinct_threshold() == before.exact().distinct_threshold()
    &&& after.exact().byte_budget() == before.exact().byte_budget()
    &&& after.sketch().precision_spec() == before.sketch().precision_spec()
    &&& after.heavy().limit() == before.heavy().limit()
    &&& if before.observed_count() < u64::MAX {
        &&& after.observed_count() == before.observed_count() + 1
        &&& (after.exact().enabled(), after.exact().entries()) == exact_step(
            before.exact().distinct_threshold(),
            before.exact().byte_budget(),
            before.exact().enabled(),
            before.exact().entries(),
            value,
        )
        &&& after.sketch().register_values() == registers_after(
            before.sketch().register_values(),
            key_hash64(value_key_of(value)),
            before.sketch().precision_spec(),
        )
        &&& exists|key: ValueKey| key@ == value_key_of(value) && after.heavy().counters() == #[trigger] observed::<ValueKey>(
            before.heavy().limit(),
            before.heavy().counters(),
            key,
        )
    } else {
        &&& after.observed_count() == before.observed_count()
        &&& after.exact() == before.exact()
        &&& after.sketch() == before.sketch()
        &&& after.heavy() == before.heavy()
    }
}

/// A new accumulator of field profile `id` for the configuration `config`.
pub open spec fn fresh_field_values(a: FieldValueAccumulator, id: Seq<char>, config: ProfileConfig) -> bool {
    &&& a.wf()
    &&& a.profile_id() == id
    &&& a.observed_count() == 0
    &&& a.summary() == empty_summary(id)
    &&& a.exact().enabled()
    &&& a.exact().entries().len() == 0
    &&& a.exact().distinct_threshold() == config.value_profile.exact_distinct_threshold
    &&& a.exact().byte_budget() == config.value_profile.exact_value_bytes_per_field_profile
    &&& a.sketch().precision_spec() == config.value_profile.hll_precision
    &&& (forall|i: int| 0 <= i < a.sketch().register_values().len() ==> #[trigger] a.sketch().register_values()[i] == 0)
    &&& a.heavy().limit() == config.value_profile.heavy_hitter_limit
    &&& a.heavy().counters().len() == 0
    &&& a.samples() == fresh_value_samples(config)
}

/// The value samples of a new accumulator.
pub open spec fn fresh_value_samples(config: ProfileConfig) -> ValueSampleState {
    ValueSampleState {
        limit: config.sampling.value_priority_limit_per_field_profile as nat,
        first_seen_taken: false,
        first_non_empty_taken: false,
        priority: Seq::empty(),
        rows: Seq::empty(),
    }
}

/// `after` is `before` once it has profiled `value`, found at `source_path`
/// of document `document_index` in the object `parent`.
#[verifier::opaque]
pub open spec fn field_value_step(
    before: FieldValueAccumulator,
    after: FieldValueAccumulator,
    document_index: u64,
    source_path: Seq<char>,
    value: JsonValue,
    parent: Seq<(String, JsonValue)>,
    config: ProfileConfig,
) -> bool {
    &&& after.wf()
    &&& after.profile_id() == before.profile_id()
    &&& after.summary() == summary_counted(Some(before.summary()), before.profile_id(), value)
    &&& value_counted(before, after, value)
    &&& after.samples() == value_observed(before.samples(), document_index, source_path, before.profile_id(), value, parent, config)
}

/// What finishing `a` hands out (see `FieldValueAccumulator::finish`).
pub open spec fn field_value_finished(a: FieldValueAccumulator, output: FieldValueOutput, config: ProfileConfig) -> bool {
    &&& output.value_samples@.map_values(|r: ValueSampleRow| r@) == value_rows(a.samples())
    &&& a.exact().enabled() ==> {
        &&& output.field_values@.map_values(|r: FieldValueRow| r@) == with_ranks(insertion_sorted_by(
            a.exact().entries().map_values(|e| exact_row(a.profile_id(), config.value_profile.value_text_limit_bytes as nat, e)),
            row_le(),
        ))
        &&& output.summary@ == (FieldSummaryView {
            distinct_count: Some(a.exact().entries().len() as u64),
            distinct_count_method: DistinctCountMethod::Exact,
            distinct_algorithm: None,
            distinct_precision: None,
            stored_value_count: output.field_values@.len() as u64,
            ..a.summary()
        })
        &&& output.distinct_sketch is None
    }
    &&& !a.exact().enabled() ==> {
        &&& output.field_values@.map_values(|r: FieldValueRow| r@) == heavy_hitter_rows(
            a.profile_id(),
            config.value_profile.value_text_limit_bytes as nat,
            a.heavy().counters(),
        )
        &&& output.summary@ == (FieldSummaryView {
            distinct_count: None,
            distinct_count_method: DistinctCountMethod::Approximate,
            distinct_algorithm: Some(DistinctAlgorithm::HyperLogLog),
            distinct_precision: Some(a.sketch().precision_spec()),
            stored_value_count: output.field_values@.len() as u64,
            ..a.summary()
        })
        &&& output.distinct_sketch == Some(a.sketch())
    }
}

/// Finished field profiles in ascending field profile id order.
impl SortKey for FieldValueOutput {
    open spec fn sort_le_spec(&self, other: &Self) -> bool {
        (text_le())(self.summary.field_profile_id@, other.summary.field_profile_id@)
    }

    fn sort_le(&self, other: &Self) -> (le: bool) {
        compare_text(other.summary.field_profile_id.as_str(), self.summary.field_profile_id.as_str()) != -1
    }

    proof fn lemma_sort_le_total(a: &Self, b: &Self) {
        lemma_text_lt_order(a.summary.field_profile_id@, b.summary.field_profile_id@);
    }

    proof fn lemma_sort_le_transitive(a: &Self, b: &Self, c: &Self) {
        lemma_texts_ordered(a.summary.field_profile_id@, b.summary.field_profile_id@, c.summary.field_profile_id@);
    }
}

impl FieldValueAccumulator {
    pub closed spec fn profile_id(&self) -> Seq<char> {
        self.field_profile_id@
    }

    /// How many values were counted, up to `u64::MAX`.
    pub closed spec fn observed_count(&self) -> u64 {
        self.observed
    }

    pub closed spec fn summary(&self) -> FieldSummaryView {
        self.summary@
    }

    pub closed spec fn exact(&self) -> ExactCounter {
        self.exact
    }

    pub closed spec fn sketch(&self) -> HyperLogLog {
        self.distinct
    }

    pub closed spec fn heavy(&self) -> SpaceSaving<ValueKey> {
        self.heavy
    }

    pub closed spec fn samples(&self) -> ValueSampleState {
        self.samples@
    }

    /// The parts are well formed, the summary is consistent and belongs to
    /// this field profile, and no exact or heavy-hitter count exceeds the
    /// number of counted values.
    pub closed spec fn wf(&self) -> bool {
        &&& self.summary@.field_profile_id == self.field_profile_id@
        &&& summary_consistent(self.summary@)
        &&& self.exact.wf()
        &&& self.distinct.wf()
        &&& self.heavy.wf()
        &&& self.samples.wf()
        &&& forall|i: int| 0 <= i < self.exact.entries().len() ==> (#[trigger] self.exact.entries()[i]).1.0 <= self.observed
        &&& forall|i: int| 0 <= i < self.heavy.counters().len() ==> (#[trigger] self.heavy.counters()[i]).1.count <= self.observed
    }

    /// An empty profile, with the limits of `config`.
    pub fn new(field_profile_id: String, config: &ProfileConfig) -> (accumulator: Self)
        requires
            1 <= config.value_profile.hll_precision <= 31,
        ensures
            fresh_field_values(accumulator, field_profile_id@, *config),
            accumulator.wf(),
            accumulator.profile_id() == field_profile_id@,
            accumulator.observed_count() == 0,
            accumulator.summary() == empty_summary(field_profile_id@),
            accumulator.exact().enabled(),
            accumulator.exact().entries().len() == 0,
            accumulator.exact().distinct_threshold() == config.value_profile.exact_distinct_threshold,
            accumulator.exact().byte_budget() == config.value_profile.exact_value_bytes_per_field_profile,
            accumulator.sketch().precision_spec() == config.value_profile.hll_precision,
            forall|i: int| 0 <= i < accumulator.sketch().register_values().len() ==> #[trigger] accumulator.sketch().register_values()[i] == 0,
            accumulator.heavy().limit() == config.value_profile.heavy_hitter_limit,
            accumulator.heavy().counters().len() == 0,
            accumulator.samples() == (ValueSampleState {
                limit: config.sampling.value_priority_limit_per_field_profile as nat,
                first_seen_taken: false,
                first_non_empty_taken: false,
                priority: Seq::empty(),
                rows: Seq::empty(),
            }),
    {
        let summary = FieldSummary::new(field_profile_id.clone());
        FieldValueAccumulator {
            field_profile_id,
            observed: 0,
            summary,
            exact: ExactCounter::new(
                config.value_profile.exact_distinct_threshold,
                config.value_profile.exact_value_bytes_per_field_profile,
            ),
            distinct: HyperLogLog::new(config.value_profile.hll_precision),
            heavy: SpaceSaving::new(config.value_profile.heavy_hitter_limit),
            samples: ValueSampleAccumulator::new(
                config.sampling.value_priority_limit_per_field_profile,
                config.sampling.heavy_hitter_context_sample_limit,
            ),
        }
    }

    /// Profiles one value of the field, found at `source_path` of document
    /// `document_index` in the object `parent`: the summary counts it (up to
    /// `u64::MAX` values), the counters count it, and the samples take it.
    /// Reports how the number of waiting value samples changed.
    pub fn observe(
        &mut self,
        document_index: u64,
        source_path: &str,
        value: &JsonValue,
        parent: &Vec<(String, JsonValue)>,
        config: &ProfileConfig,
    ) -> (stats: FieldValueObserveStats)
        requires
            old(self).wf(),
        ensures
            field_value_step(*old(self), *final(self), document_index, source_path@, *value, parent@, *config),
            final(self).wf(),
            final(self).profile_id() == old(self).profile_id(),
            final(self).summary() == summary_counted(Some(old(self).summary()), old(self).profile_id(), *value),
            value_counted(*old(self), *final(self), *value),
            final(self).samples() == value_observed(
                old(self).samples(),
                document_index,
                source_path@,
                old(self).profile_id(),
                *value,
                parent@,
                *config,
            ),
            stats.pending_value_sample_delta.added == value_rows_added(
                old(self).samples(),
                *value,
                value_sample_priority(old(self).profile_id(), document_index, source_path@),
            ),
            stats.pending_value_sample_delta.removed == value_rows_removed(
                old(self).samples(),
                value_sample_priority(old(self).profile_id(), document_index, source_path@),
            ),
    {
        if self.summary.profiled_count < u64::MAX {
            proof {
                lemma_summary_updated_consistent(self.summary@, *value);
            }
            update_summary(&mut self.summary, value);
        }
        if self.observed < u64::MAX {
            self.count_value(value);
        }
        let delta = self.samples.observe(document_index, source_path, self.field_profile_id.as_str(), value, parent, config);
        proof {
            reveal(field_value_step);
        }
        FieldValueObserveStats { pending_value_sample_delta: delta }
    }

    fn count_value(&mut self, value: &JsonValue)
        requires
            old(self).wf(),
            old(self).observed_count() < u64::MAX,
        ensures
            final(self).wf(),
            value_counted(*old(self), *final(self), *value),
            final(self).profile_id() == old(self).profile_id(),
            final(self).summary() == old(self).summary(),
            final(self).samples() == old(self).samples(),
    {
        let ghost before = *self;
        let key = value_key(value);
        self.exact.observe(value);
        self.distinct.insert_hash(key.stable_hash64());
        let ghost k = key;
        self.heavy.observe(key);
        self.observed = self.observed + 1;
        proof {
            let entries = before.exact.entries();
            let now = self.exact.entries();
            assert forall|i: int| 0 <= i < now.len() implies (#[trigger] now[i]).1.0 <= self.observed by {
                if before.exact.enabled() && crate::value::exact_counter::counts_value(entries, value_key_of(*value)) {
                    let p = crate::value::exact_counter::value_position(entries, value_key_of(*value));
                    if i != p {
                        assert(now[i] == entries[i]);
                    }
                } else if before.exact.enabled() {
                    if i < entries.len() {
                        assert(now[i] == entries[i]);
                    }
                } else {
                    assert(now[i] == entries[i]);
                }
            }
            let counters = before.heavy.counters();
            let after = self.heavy.counters();
            assert(after == observed::<ValueKey>(before.heavy.limit(), counters, k));
            assert forall|i: int| 0 <= i < after.len() implies (#[trigger] after[i]).1.count <= self.observed by {
                if before.heavy.limit() == 0 {
                } else if crate::sketch::space_saving::has_key(counters, k@) {
                    let p = crate::sketch::space_saving::key_position(counters, k@);
                    if i != p {
                        assert(after[i] == counters[i]);
                    }
                } else if counters.len() < before.heavy.limit() {
                    if i < counters.len() {
                        assert(after[i] == counters[i]);
                    }
                } else {
                    let v = crate::sketch::space_saving::victim_position::<ValueKey>(counters);
                    crate::sketch::space_saving::lemma_victim_position::<ValueKey>(counters);
                    if i < counters.len() - 1 {
                        assert(after[i] == counters.remove(v)[i]);
                        if i < v {
                            assert(counters.remove(v)[i] == counters[i]);
                        } else {
                            assert(counters.remove(v)[i] == counters[i + 1]);
                        }
                    }
                }
            }
        }
    }

    /// The number of waiting value samples, or `usize::MAX` when it does not
    /// fit.
    pub fn pending_value_sample_count(&self) -> (count: usize)
        requires
            self.wf(),
        ensures
            count == (if crate::value::sample::value_pending_count(self.samples()) <= usize::MAX {
                crate::value::sample::value_pending_count(self.samples())
            } else {
                usize::MAX as nat
            }),
    {
        self.samples.pending_row_count()
    }

    /// Hands out the waiting value samples in row order; the first-seen and
    /// first-non-empty samples stay taken.
    pub fn drain_value_sample_rows(&mut self) -> (rows: Vec<ValueSampleRow>)
        requires
            old(self).wf(),
        ensures
            final(self).wf(),
            rows@.map_values(|r: ValueSampleRow| r@) == value_rows(old(self).samples()),
            final(self).samples() == (ValueSampleState { priority: Seq::empty(), rows: Seq::empty(), ..old(self).samples() }),
            final(self).profile_id() == old(self).profile_id(),
            final(self).observed_count() == old(self).observed_count(),
            final(self).summary() == old(self).summary(),
            final(self).exact() == old(self).exact(),
            final(self).sketch() == old(self).sketch(),
            final(self).heavy() == old(self).heavy(),
    {
        self.samples.drain_rows()
    }

    fn heavy_hitter_field_rows(&self, value_text_limit: usize) -> (rows: Vec<FieldValueRow>)
        requires
            self.wf(),
        ensures
            rows@.map_values(|r: FieldValueRow| r@) == heavy_hitter_rows(self.profile_id(), value_text_limit as nat, self.heavy().counters()),
    {
        let top = self.heavy.top();
        let ghost id = self.field_profile_id@;
        let ghost unranked = top@.map_values(|e: (ValueKey, Counter)| heavy_hitter_row(id, value_text_limit as nat, e));
        let mut rows: Vec<FieldValueRow> = Vec::new();
        let mut index: usize = 0;
        while index < top.len()
            invariant
                index <= top@.len(),
                unranked == top@.map_values(|e: (ValueKey, Counter)| heavy_hitter_row(id, value_text_limit as nat, e)),
                id == self.field_profile_id@,
                rows@.len() == index,
                forall|k: int| 0 <= k < index ==> (#[trigger] rows@[k])@ == unranked[k],
            decreases top@.len() - index,
        {
            let entry = &top[index];
            let display = key_display(&entry.0);
            let (value_text, value_text_truncated) = match &display {
                Some(text) => {
                    let (cut, truncated) = truncate_utf8(text.as_str(), value_text_limit);
                    (Some(cut), truncated)
                },
                None => (None, false),
            };
            let row = FieldValueRow {
                field_profile_id: self.field_profile_id.clone(),
                value_hash: value_hash_from_key(&entry.0),
                value_type: entry.0.json_type(),
                value_text,
                value_text_truncated,
                count: Some(entry.1.count),
                count_method: CountMethod::Approximate,
                value_source: ValueSource::HeavyHitter,
                rank: None,
                is_complete_distribution: false,
            };
            assert(row@ == unranked[index as int]);
            rows.push(row);
            index = index + 1;
        }
        assert(rows@.map_values(|r: FieldValueRow| r@) =~= unranked);
        ranked_rows(rows)
    }

    /// Finishes the profile. While the exact counter still holds every
    /// value, the summary gives the exact distinct count and the rows are
    /// the complete distribution; otherwise the summary names the
    /// HyperLogLog sketch and its precision, the rows are the heavy hitters,
    /// and the sketch comes along for the estimate. The summary counts the
    /// rows stored, and the waiting value samples come in row order.
    pub fn finish(self, config: &ProfileConfig) -> (output: FieldValueOutput)
        requires
            self.wf(),
        ensures
            field_value_finished(self, output, *config),
            output.value_samples@.map_values(|r: ValueSampleRow| r@) == value_rows(self.samples()),
            self.exact().enabled() ==> {
                &&& output.field_values@.map_values(|r: FieldValueRow| r@) == with_ranks(insertion_sorted_by(
                    self.exact().entries().map_values(
                        |e| exact_row(self.profile_id(), config.value_profile.value_text_limit_bytes as nat, e),
                    ),
                    row_le(),
                ))
                &&& output.summary@ == (FieldSummaryView {
                    distinct_count: Some(self.exact().entries().len() as u64),
                    distinct_count_method: DistinctCountMethod::Exact,
                    distinct_algorithm: None,
                    distinct_precision: None,
                    stored_value_count: output.field_values@.len() as u64,
                    ..self.summary()
                })
                &&& output.distinct_sketch is None
            },
            !self.exact().enabled() ==> {
                &&& output.field_values@.map_values(|r: FieldValueRow| r@) == heavy_hitter_rows(
                    self.profile_id(),
                    config.value_profile.value_text_limit_bytes as nat,
                    self.heavy().counters(),
                )
                &&& output.summary@ == (FieldSummaryView {
                    distinct_count: None,
                    distinct_count_method: DistinctCountMethod::Approximate,
                    distinct_algorithm: Some(DistinctAlgorithm::HyperLogLog),
                    distinct_precision: Some(self.sketch().precision_spec()),
                    stored_value_count: output.field_values@.len() as u64,
                    ..self.summary()
                })
                &&& output.distinct_sketch == Some(self.sketch())
            },
    {
        let limit = config.value_profile.value_text_limit_bytes;
        let value_samples = self.samples.rows();
        let enabled = self.exact.is_enabled();
        let field_values = if enabled {
            self.exact.exact_full_rows(self.field_profile_id.as_str(), limit)
        } else {
            self.heavy_hitter_field_rows(limit)
        };
        let distinct_count = self.exact.distinct_count();
        let precision = self.distinct.precision();
        let mut summary = self.summary;
        summary.stored_value_count = field_values.len() as u64;
        summary.distinct_count = distinct_count;
        if enabled {
            summary.distinct_count_method = DistinctCountMethod::Exact;
            summary.distinct_algorithm = None;
            summary.distinct_precision = None;
            FieldValueOutput { summary, field_values, value_samples, distinct_sketch: None }
        } else {
            summary.distinct_count_method = DistinctCountMethod::Approximate;
            summary.distinct_algorithm = Some(DistinctAlgorithm::HyperLogLog);
            summary.distinct_precision = Some(precision);
            FieldValueOutput { summary, field_values, value_samples, distinct_sketch: Some(self.distinct) }
        }
    }
}

} // verus!
