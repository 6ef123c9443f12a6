//! The decisions of a profiling run: what each visited value changes, when
//! the pending rows must be flushed, and what a flush hands out. Reading
//! the input, timing and writing the rows are left to the caller, which
//! performs a flush whenever a decision asks for one.

use vstd::prelude::*;

use crate::ProfileWarning;
use crate::config::{FlushConfig, InputFormat, ProfileConfig, ascii_lower};
use crate::error::ProfileError;
use crate::field::accumulator::{
    FieldValueAccumulator, FieldValueOutput, ShapeFieldRow, ShapeFieldRowView, count_shape_field, field_rows_observed,
    field_value_finished, field_value_step, fresh_field_values, fresh_value_samples,
};
use crate::field::id::field_profile_id_text;
use crate::util::json_type::json_type_of;
use crate::util::table::{entries_have_key, entry_value, lemma_entries_inserted, lemma_entry_value};
use crate::value::sample::{ValueSampleRow, ValueSampleRowView, ValueSampleState, value_rows, value_rows_added, value_rows_removed, value_sample_priority};
use crate::refs::resolver::{RefsResolver, ResolvedObjectContext, resolved_as};
use crate::scan::path::{SourcePath, path_text};
use crate::scan::visitor::{ScanEvent, ScanVisitor};
use crate::shape::accumulator::{ShapeAccumulator, ShapeRow, observed_with, shape_facts_ok};
use crate::shape::sample::{ObjectSampleRow, drained_rows, empty_object_samples};
use crate::shape::id::ShapeFacts;
use crate::sqlite::writer::{ProfileChunk, SourceCounters};
use crate::util::json_value::JsonValue;
use crate::util::sort::{SortKey, insertion_sorted, insertion_sorted_by, sort_rows};
use crate::util::table::{KeyedTable, entries_map};
use crate::util::text::{compare_text, push_char, push_str, str_to_string};
use crate::value::sample::PendingRowDelta;
use crate::W_CANONICAL_PATH_UNAVAILABLE;
use vstd::string::StrSliceExecFns;

verus! {

/// Why pending rows are flushed.
#[derive(Debug, Clone, Copy, PartialEq, Eq, Structural)]
pub enum FlushReason {
    ValueSampleLimit,
    DocumentChunkLimit,
    FinalSamples,
    FinalFieldValues,
    Explicit,
}

impl FlushReason {
    pub fn as_str(self) -> (name: &'static str)
        ensures
            name@ == match self {
                FlushReason::ValueSampleLimit => "value_sample_limit"@,
                FlushReason::DocumentChunkLimit => "document_chunk_limit"@,
                FlushReason::FinalSamples => "final_samples"@,
                FlushReason::FinalFieldValues => "final_field_values"@,
                FlushReason::Explicit => "explicit"@,
            },
    {
        match self {
            FlushReason::ValueSampleLimit => "value_sample_limit",
            FlushReason::DocumentChunkLimit => "document_chunk_limit",
            FlushReason::FinalSamples => "final_samples",
            FlushReason::FinalFieldValues => "final_field_values",
            FlushReason::Explicit => "explicit",
        }
    }
}

/// Why a scan progress line is written.
#[derive(Debug, Clone, Copy, PartialEq, Eq, Structural)]
pub enum ScanChunkReason {
    Progress,
    PreFlush,
    Final,
}

impl ScanChunkReason {
    pub fn as_str(self) -> (name: &'static str)
        ensures
            name@ == match self {
                ScanChunkReason::Progress => "progress"@,
                ScanChunkReason::PreFlush => "pre_flush"@,
                ScanChunkReason::Final => "final"@,
            },
    {
        match self {
            ScanChunkReason::Progress => "progress",
            ScanChunkReason::PreFlush => "pre_flush",
            ScanChunkReason::Final => "final",
        }
    }
}

/// A final flush closes the scan; any other flush interrupts it.
pub fn scan_chunk_reason_for_flush(reason: FlushReason) -> (chunk: ScanChunkReason)
    ensures
        chunk == (match reason {
            FlushReason::FinalSamples | FlushReason::FinalFieldValues => ScanChunkReason::Final,
            _ => ScanChunkReason::PreFlush,
        }),
{
    match reason {
        FlushReason::FinalSamples | FlushReason::FinalFieldValues => ScanChunkReason::Final,
        FlushReason::ValueSampleLimit | FlushReason::DocumentChunkLimit | FlushReason::Explicit => ScanChunkReason::PreFlush,
    }
}

/// The input format a run reads.
#[derive(Debug, Clone, Copy, PartialEq, Eq, Structural)]
pub enum ResolvedInputFormat {
    Json,
    Jsonl,
}

impl ResolvedInputFormat {
    pub fn as_source_summary_str(self) -> (name: &'static str)
        ensures
            name@ == match self {
                ResolvedInputFormat::Json => "json"@,
                ResolvedInputFormat::Jsonl => "jsonl"@,
            },
    {
        match self {
            ResolvedInputFormat::Json => "json",
            ResolvedInputFormat::Jsonl => "jsonl",
        }
    }
}

/// The format a configured input format selects: `auto` reads JSONL when
/// the input file's extension is `jsonl` in any ASCII case, JSON otherwise.
pub open spec fn resolved_format(format: InputFormat, extension: Option<Seq<char>>) -> ResolvedInputFormat {
    match format {
        InputFormat::Json => ResolvedInputFormat::Json,
        InputFormat::Jsonl => ResolvedInputFormat::Jsonl,
        InputFormat::Auto => match extension {
            Some(ext) => if ascii_lower(ext) == "jsonl"@ {
                ResolvedInputFormat::Jsonl
            } else {
                ResolvedInputFormat::Json
            },
            None => ResolvedInputFormat::Json,
        },
    }
}

/// Resolves the input format, given the extension of the input file's name
/// (as the path library reads it), if it has one.
pub fn resolve_input_format(format: InputFormat, extension: Option<&str>) -> (resolved: ResolvedInputFormat)
    ensures
        resolved == resolved_format(format, match extension {
            Some(e) => Some(e@),
            None => None,
        }),
{
    match format {
        InputFormat::Json => ResolvedInputFormat::Json,
        InputFormat::Jsonl => ResolvedInputFormat::Jsonl,
        InputFormat::Auto => match extension {
            Some(ext) => {
                let lower = crate::config::ascii_lowercase_text(ext);
                if compare_text(lower.as_str(), "jsonl") == 0 {
                    ResolvedInputFormat::Jsonl
                } else {
                    ResolvedInputFormat::Json
                }
            },
            None => ResolvedInputFormat::Json,
        },
    }
}

/// The source path of a field of an object.
pub fn field_source_path(object_source_path: &str, field_name: &str) -> (path: String)
    ensures
        path@ == object_source_path@ + seq!['.'] + field_name@,
{
    let mut path = str_to_string(object_source_path);
    push_char(&mut path, '.');
    push_str(&mut path, field_name);
    path
}

/// The flush a finished document asks for: a document chunk flush when the
/// shapes, the pending object samples or the shape fields reach their
/// chunk sizes; else a value sample flush when the pending value samples
/// reach theirs.
pub open spec fn document_flush_reason(
    shape_rows: nat,
    pending_object_samples: nat,
    shape_fields: nat,
    pending_value_samples: nat,
    flush: FlushConfig,
) -> Option<FlushReason> {
    if shape_rows >= flush.chunk_shape_rows || pending_object_samples >= flush.chunk_object_sample_rows
        || shape_fields >= flush.chunk_field_rows {
        Some(FlushReason::DocumentChunkLimit)
    } else if pending_value_samples >= flush.chunk_value_sample_rows {
        Some(FlushReason::ValueSampleLimit)
    } else {
        None
    }
}

/// The flush an observed object asks for: a document chunk flush when the
/// shapes or the shape fields reach their chunk sizes.
pub open spec fn object_flush_reason(shape_rows: nat, shape_fields: nat, flush: FlushConfig) -> Option<FlushReason> {
    if shape_rows >= flush.chunk_shape_rows || shape_fields >= flush.chunk_field_rows {
        Some(FlushReason::DocumentChunkLimit)
    } else {
        None
    }
}

pub open spec fn unresolved_context_message(source_path: Seq<char>) -> Seq<char> {
    "refs database did not contain an exact context for source path "@ + source_path
}

/// The pending value sample count after `added` rows came and `removed`
/// rows left; rows cannot leave that never came, and the count stops at
/// `usize::MAX`.
pub open spec fn pending_after(pending: nat, added: nat, removed: nat) -> nat {
    let raised = if pending + added > usize::MAX { usize::MAX as nat } else { pending + added };
    (raised - removed) as nat
}

/// The value samples the accumulator of field profile `id` holds in
/// `entries`, or those of a new one.
pub open spec fn samples_before(entries: Seq<(String, FieldValueAccumulator)>, id: Seq<char>, config: ProfileConfig) -> ValueSampleState {
    match entry_value(entries, id) {
        Some(a) => a.samples(),
        None => fresh_value_samples(config),
    }
}

/// The accumulators after the field profile `id` profiled `value`: its
/// accumulator (a new one the first time) took the step, and the others
/// stayed as they were.
pub open spec fn field_value_profiled(
    before: Seq<(String, FieldValueAccumulator)>,
    after: Seq<(String, FieldValueAccumulator)>,
    id: Seq<char>,
    document_index: u64,
    source_path: Seq<char>,
    value: JsonValue,
    parent: Seq<(String, JsonValue)>,
    config: ProfileConfig,
) -> bool {
    &&& forall|k: Seq<char>| k != id ==> #[trigger] entry_value(after, k) == entry_value(before, k)
    &&& match entry_value(after, id) {
        Some(a) => match entry_value(before, id) {
            Some(b) => field_value_step(b, a, document_index, source_path, value, parent, config),
            None => exists|start: FieldValueAccumulator| fresh_field_values(start, id, config) && #[trigger] field_value_step(
                start,
                a,
                document_index,
                source_path,
                value,
                parent,
                config,
            ),
        },
        None => false,
    }
}

/// Value sample rows in ascending field profile id order; rows of one field
/// profile keep their order.
pub open spec fn profile_row_le() -> spec_fn(ValueSampleRowView, ValueSampleRowView) -> bool {
    |a: ValueSampleRowView, b: ValueSampleRowView| (crate::util::sort::text_le())(a.field_profile_id, b.field_profile_id)
}

/// A value sample row ordered by its field profile id alone.
struct ProfileOrderedRow {
    row: ValueSampleRow,
}

impl SortKey for ProfileOrderedRow {
    closed spec fn sort_le_spec(&self, other: &Self) -> bool {
        (crate::util::sort::text_le())(self.row.field_profile_id@, other.row.field_profile_id@)
    }

    fn sort_le(&self, other: &Self) -> (le: bool) {
        compare_text(other.row.field_profile_id.as_str(), self.row.field_profile_id.as_str()) != -1
    }

    proof fn lemma_sort_le_total(a: &Self, b: &Self) {
        crate::util::text::lemma_text_lt_order(a.row.field_profile_id@, b.row.field_profile_id@);
    }

    proof fn lemma_sort_le_transitive(a: &Self, b: &Self, c: &Self) {
        crate::shape::sample::lemma_texts_ordered(a.row.field_profile_id@, b.row.field_profile_id@, c.row.field_profile_id@);
    }
}

/// Sorts value sample rows by field profile id, keeping the order of the
/// rows of each field profile.
fn sort_by_profile(rows: Vec<ValueSampleRow>) -> (sorted: Vec<ValueSampleRow>)
    ensures
        sorted@.map_values(|r: ValueSampleRow| r@) == insertion_sorted_by(rows@.map_values(|r: ValueSampleRow| r@), profile_row_le()),
{
    let ghost given = rows@;
    let total = rows.len();
    assert(given.len() == total);
    let mut wrapped: Vec<ProfileOrderedRow> = Vec::new();
    let mut rest = rows;
    let mut taken: usize = 0;
    assert(rest@ =~= given.skip(0));
    while rest.len() > 0
        invariant
            given.len() <= usize::MAX,
            taken + rest@.len() == given.len(),
            rest@ == given.skip(taken as int),
            wrapped@.len() == taken,
            forall|k: int| 0 <= k < taken ==> (#[trigger] wrapped@[k]).row == given[k],
        decreases rest@.len(),
    {
        let row = rest.remove(0);
        assert(row == given[taken as int]);
        wrapped.push(ProfileOrderedRow { row });
        assert(rest@ =~= given.skip(taken + 1));
        taken = taken + 1;
    }
    let ghost unsorted = wrapped@;
    let sorted = sort_rows(wrapped);
    proof {
        crate::util::sort::lemma_insertion_sorted_map(
            unsorted,
            |w: ProfileOrderedRow| w.row@,
            crate::util::sort::key_le::<ProfileOrderedRow>(),
            profile_row_le(),
        );
        assert(unsorted.map_values(|w: ProfileOrderedRow| w.row@) =~= given.map_values(|r: ValueSampleRow| r@));
    }
    let ghost sorted_view = sorted@;
    let mut out: Vec<ValueSampleRow> = Vec::new();
    let mut rest = sorted;
    let mut index: usize = 0;
    assert(rest@ =~= sorted_view.skip(0));
    while rest.len() > 0
        invariant
            sorted_view.len() <= usize::MAX,
            index + rest@.len() == sorted_view.len(),
            rest@ == sorted_view.skip(index as int),
            out@.len() == index,
            forall|k: int| 0 <= k < index ==> #[trigger] out@[k] == sorted_view[k].row,
        decreases rest@.len(),
    {
        let wrapped_row = rest.remove(0);
        assert(wrapped_row == sorted_view[index as int]);
        out.push(wrapped_row.row);
        assert(rest@ =~= sorted_view.skip(index + 1));
        index = index + 1;
    }
    assert(out@.map_values(|r: ValueSampleRow| r@) =~= sorted_view.map_values(|w: ProfileOrderedRow| w.row@));
    out
}

/// The value samples of `entries`, each accumulator's rows in row order,
/// in the order of the entries.
pub open spec fn drained_value_rows(entries: Seq<(String, FieldValueAccumulator)>) -> Seq<ValueSampleRowView>
    decreases entries.len(),
{
    if entries.len() == 0 {
        Seq::empty()
    } else {
        drained_value_rows(entries.drop_last()) + value_rows(entries.last().1.samples())
    }
}

/// `after` is `before` with its waiting value samples handed out.
pub open spec fn samples_drained(before: FieldValueAccumulator, after: FieldValueAccumulator) -> bool {
    &&& after.wf()
    &&& after.samples() == (ValueSampleState { priority: Seq::empty(), rows: Seq::empty(), ..before.samples() })
    &&& after.profile_id() == before.profile_id()
    &&& after.observed_count() == before.observed_count()
    &&& after.summary() == before.summary()
    &&& after.exact() == before.exact()
    &&& after.sketch() == before.sketch()
    &&& after.heavy() == before.heavy()
}

/// One field value profiled: the accumulators take the step of
/// `field_value_profiled`, and the pending value sample count moves by the
/// rows that came and left.
pub open spec fn field_step(
    before: (Seq<(String, FieldValueAccumulator)>, nat),
    after: (Seq<(String, FieldValueAccumulator)>, nat),
    id: Seq<char>,
    document_index: u64,
    source_path: Seq<char>,
    value: JsonValue,
    parent: Seq<(String, JsonValue)>,
    config: ProfileConfig,
) -> bool {
    &&& field_value_profiled(before.0, after.0, id, document_index, source_path, value, parent, config)
    &&& after.1 == pending_after(
        before.1,
        value_rows_added(samples_before(before.0, id, config), value, value_sample_priority(id, document_index, source_path)),
        value_rows_removed(samples_before(before.0, id, config), value_sample_priority(id, document_index, source_path)),
    )
}

/// The step of the `index`-th field of `fields`: its own value, under its
/// own field profile, at its own source path.
pub open spec fn nth_field_step(
    states: Seq<(Seq<(String, FieldValueAccumulator)>, nat)>,
    index: int,
    shape_id: Seq<char>,
    document_index: u64,
    object_source_path: Seq<char>,
    fields: Seq<(String, JsonValue)>,
    parent: Seq<(String, JsonValue)>,
    config: ProfileConfig,
) -> bool {
    field_step(
        states[index],
        states[index + 1],
        field_profile_id_text(shape_id, fields[index].0@, json_type_of(fields[index].1)),
        document_index,
        object_source_path + seq!['.'] + fields[index].0@,
        fields[index].1,
        parent,
        config,
    )
}

/// The accumulators and the pending value sample count after the fields
/// `fields` of an object with shape `shape_id`, found at
/// `object_source_path` of document `document_index`, are profiled in
/// order: there are states from `before` to `after`, one step per field,
/// each field profiled with its own value, under its own field profile, at
/// its own source path, with the object `parent`.
pub open spec fn fields_profiled(
    before: (Seq<(String, FieldValueAccumulator)>, nat),
    after: (Seq<(String, FieldValueAccumulator)>, nat),
    shape_id: Seq<char>,
    document_index: u64,
    object_source_path: Seq<char>,
    fields: Seq<(String, JsonValue)>,
    parent: Seq<(String, JsonValue)>,
    config: ProfileConfig,
) -> bool {
    exists|states: Seq<(Seq<(String, FieldValueAccumulator)>, nat)>| {
        &&& #[trigger] states.len() == fields.len() + 1
        &&& states[0] == before
        &&& states[fields.len() as int] == after
        &&& forall|i: int| 0 <= i < fields.len() ==> #[trigger] nth_field_step(
            states,
            i,
            shape_id,
            document_index,
            object_source_path,
            fields,
            parent,
            config,
        )
    }
}

/// No field profile has two accumulators, and each accumulator is well
/// formed and belongs to the field profile it is stored under.
pub open spec fn accumulators_ok(entries: Seq<(String, FieldValueAccumulator)>) -> bool {
    &&& crate::util::table::distinct_entry_keys(entries)
    &&& forall|i: int| 0 <= i < entries.len() ==> {
        &&& (#[trigger] entries[i]).1.wf()
        &&& entries[i].1.profile_id() == entries[i].0@
    }
}

proof fn lemma_profiled_stored(
    before: Seq<(String, FieldValueAccumulator)>,
    after: Seq<(String, FieldValueAccumulator)>,
    i: int,
    id: Seq<char>,
    document_index: u64,
    source_path: Seq<char>,
    value: JsonValue,
    parent: Seq<(String, JsonValue)>,
    config: ProfileConfig,
)
    requires
        crate::util::table::distinct_entry_keys(before),
        0 <= i < before.len(),
        before[i].0@ == id,
        after == before.update(i, (before[i].0, after[i].1)),
        field_value_step(before[i].1, after[i].1, document_index, source_path, value, parent, config),
    ensures
        field_value_profiled(before, after, id, document_index, source_path, value, parent, config),
        samples_before(before, id, config) == before[i].1.samples(),
{
    lemma_entry_value(before, i);
    lemma_entries_inserted(before, before[i].0, after[i].1);
    assert(crate::util::table::entries_inserted(before, before[i].0, after[i].1) == after);
}

proof fn lemma_profiled_new(
    before: Seq<(String, FieldValueAccumulator)>,
    after: Seq<(String, FieldValueAccumulator)>,
    id: Seq<char>,
    document_index: u64,
    source_path: Seq<char>,
    value: JsonValue,
    parent: Seq<(String, JsonValue)>,
    config: ProfileConfig,
)
    requires
        crate::util::table::distinct_entry_keys(before),
        !entries_have_key(before, id),
        after.len() == before.len() + 1,
        after == before.push(after.last()),
        after.last().0@ == id,
        exists|start: FieldValueAccumulator| fresh_field_values(start, id, config) && #[trigger] field_value_step(
            start,
            after.last().1,
            document_index,
            source_path,
            value,
            parent,
            config,
        ),
    ensures
        field_value_profiled(before, after, id, document_index, source_path, value, parent, config),
        samples_before(before, id, config) == fresh_value_samples(config),
{
    lemma_entries_inserted(before, after.last().0, after.last().1);
    assert(crate::util::table::entries_inserted(before, after.last().0, after.last().1) == after);
    assert(entry_value(after, id) == Some(after.last().1));
    assert(entry_value(before, id) is None);
    assert forall|k: Seq<char>| k != id implies #[trigger] entry_value(after, k) == entry_value(before, k) by {
        assert(after.last().0@ == id);
    }
    let a = entry_value(after, id)->Some_0;
    assert(a == after.last().1);
    assert(exists|s: FieldValueAccumulator| fresh_field_values(s, id, config) && #[trigger] field_value_step(
        s,
        a,
        document_index,
        source_path,
        value,
        parent,
        config,
    ));
}

fn observe_stored(
    table: &mut KeyedTable<String, FieldValueAccumulator>,
    i: usize,
    id: &String,
    document_index: u64,
    source_path: &str,
    value: &JsonValue,
    parent: &Vec<(String, JsonValue)>,
    config: &ProfileConfig,
) -> (delta: PendingRowDelta)
    requires
        accumulators_ok(old(table).entries()),
        i < old(table).entries().len(),
        old(table).entries()[i as int].0@ == id@,
    ensures
        accumulators_ok(final(table).entries()),
        final(table).entries() == old(table).entries().update(
            i as int,
            (old(table).entries()[i as int].0, final(table).entries()[i as int].1),
        ),
        field_value_step(
            old(table).entries()[i as int].1,
            final(table).entries()[i as int].1,
            document_index,
            source_path@,
            *value,
            parent@,
            *config,
        ),
        delta.added == value_rows_added(
            old(table).entries()[i as int].1.samples(),
            *value,
            value_sample_priority(id@, document_index, source_path@),
        ),
        delta.removed == value_rows_removed(
            old(table).entries()[i as int].1.samples(),
            value_sample_priority(id@, document_index, source_path@),
        ),
{
    let ghost before = table.entries();
    let accumulator = table.value_mut(i);
    let delta = accumulator.observe(document_index, source_path, value, parent, config).pending_value_sample_delta;
    proof {
        let after = table.entries();
        assert forall|k: int| 0 <= k < after.len() implies {
            &&& (#[trigger] after[k]).1.wf()
            &&& after[k].1.profile_id() == after[k].0@
        } by {
            if k != i {
                assert(after[k] == before[k]);
            }
        }
        assert forall|a: int, b: int| #![trigger after[a], after[b]] 0 <= a < b < after.len() implies after[a].0@ != after[b].0@ by {
            assert(before[a].0@ != before[b].0@);
        }
    }
    delta
}

fn observe_new(
    table: &mut KeyedTable<String, FieldValueAccumulator>,
    id: String,
    document_index: u64,
    source_path: &str,
    value: &JsonValue,
    parent: &Vec<(String, JsonValue)>,
    config: &ProfileConfig,
) -> (delta: PendingRowDelta)
    requires
        accumulators_ok(old(table).entries()),
        !entries_have_key(old(table).entries(), id@),
        1 <= config.value_profile.hll_precision <= 31,
    ensures
        accumulators_ok(final(table).entries()),
        final(table).entries().len() == old(table).entries().len() + 1,
        final(table).entries() == old(table).entries().push(final(table).entries().last()),
        final(table).entries().last().0@ == id@,
        exists|start: FieldValueAccumulator| fresh_field_values(start, id@, *config) && #[trigger] field_value_step(
            start,
            final(table).entries().last().1,
            document_index,
            source_path@,
            *value,
            parent@,
            *config,
        ),
        delta.added == value_rows_added(fresh_value_samples(*config), *value, value_sample_priority(id@, document_index, source_path@)),
        delta.removed == value_rows_removed(fresh_value_samples(*config), value_sample_priority(id@, document_index, source_path@)),
{
    let ghost before = table.entries();
    let mut accumulator = FieldValueAccumulator::new(id.clone(), config);
    let ghost start = accumulator;
    let delta = accumulator.observe(document_index, source_path, value, parent, config).pending_value_sample_delta;
    proof {
        assert(fresh_field_values(start, id@, *config));
        assert(field_value_step(start, accumulator, document_index, source_path@, *value, parent@, *config));
    }
    let ghost key = id;
    table.insert(id, accumulator);
    proof {
        let after = table.entries();
        assert(after == before.push((key, accumulator)));
        assert forall|k: int| 0 <= k < after.len() implies {
            &&& (#[trigger] after[k]).1.wf()
            &&& after[k].1.profile_id() == after[k].0@
        } by {
            if k < before.len() {
                assert(after[k] == before[k]);
            }
        }
    }
    delta
}

/// The state of a run between visits.
pub struct ProfileRunVisitor {
    config: ProfileConfig,
    resolver: RefsResolver,
    counters: SourceCounters,
    shape_accumulator: ShapeAccumulator,
    shape_fields: KeyedTable<String, ShapeFieldRow>,
    field_values: KeyedTable<String, FieldValueAccumulator>,
    pending_value_sample_rows: usize,
    warnings: Vec<ProfileWarning>,
    warned_canonical_path_unavailable: bool,
    flush_request: Option<FlushReason>,
    scan_calls: Ghost<Seq<(ScanEvent, Result<(), ProfileError>)>>,
}

impl ProfileRunVisitor {
    pub closed spec fn run_config(&self) -> ProfileConfig {
        self.config
    }

    pub closed spec fn resolver(&self) -> RefsResolver {
        self.resolver
    }

    pub closed spec fn run_counters(&self) -> SourceCounters {
        self.counters
    }

    pub closed spec fn shapes(&self) -> ShapeAccumulator {
        self.shape_accumulator
    }

    /// The pending shape-field rows, in the order their field profiles were
    /// first seen.
    pub closed spec fn shape_field_entries(&self) -> Seq<(String, ShapeFieldRow)> {
        self.shape_fields.entries()
    }

    /// The pending shape-field rows by field profile id.
    pub open spec fn shape_field_rows(&self) -> Map<Seq<char>, ShapeFieldRowView> {
        entries_map(self.shape_field_entries())
    }

    /// The value-level accumulators, in the order their field profiles were
    /// first seen.
    pub closed spec fn field_value_entries(&self) -> Seq<(String, FieldValueAccumulator)> {
        self.field_values.entries()
    }

    pub closed spec fn pending_value_samples(&self) -> nat {
        self.pending_value_sample_rows as nat
    }

    pub closed spec fn warning_list(&self) -> Seq<ProfileWarning> {
        self.warnings@
    }

    /// Whether the unresolved-context warning has been given.
    pub closed spec fn warned(&self) -> bool {
        self.warned_canonical_path_unavailable
    }

    pub closed spec fn wf(&self) -> bool {
        &&& self.resolver.index().wf()
        &&& self.shape_accumulator.wf()
        &&& self.shape_fields.wf()
        &&& accumulators_ok(self.field_values.entries())
        &&& 1 <= self.config.value_profile.hll_precision <= 31
    }

    /// A run that has visited nothing, with the warnings of loading the refs.
    pub fn new(config: ProfileConfig, resolver: RefsResolver, warnings: Vec<ProfileWarning>) -> (visitor: Self)
        requires
            resolver.index().wf(),
            1 <= config.value_profile.hll_precision <= 31,
        ensures
            visitor.wf(),
            visitor.field_value_entries().len() == 0,
            visitor.run_config() == config,
            visitor.resolver() == resolver,
            visitor.run_counters() == (SourceCounters {
                total_document_count: 0,
                total_object_count: 0,
                total_array_count: 0,
                total_scalar_count: 0,
            }),
            visitor.shapes().shape_entries().len() == 0,
            visitor.shape_field_entries().len() == 0,
            visitor.pending_value_samples() == 0,
            visitor.warning_list() == warnings@,
            !visitor.warned(),
    {
        ProfileRunVisitor {
            config,
            resolver,
            counters: SourceCounters::default(),
            shape_accumulator: ShapeAccumulator::new(),
            shape_fields: KeyedTable::new(),
            field_values: KeyedTable::new(),
            pending_value_sample_rows: 0,
            warnings,
            warned_canonical_path_unavailable: false,
            flush_request: None,
            scan_calls: Ghost(Seq::empty()),
        }
    }

    pub fn counters(&self) -> (counters: SourceCounters)
        ensures
            counters == self.run_counters(),
    {
        self.counters
    }

    pub fn config(&self) -> (config: &ProfileConfig)
        ensures
            *config == self.run_config(),
    {
        &self.config
    }

    pub fn warnings(&self) -> (warnings: &Vec<ProfileWarning>)
        ensures
            warnings@ == self.warning_list(),
    {
        &self.warnings
    }

    /// The number of pending shape rows.
    pub fn pending_shape_count(&self) -> (count: usize)
        ensures
            count == self.shapes().shape_entries().len(),
    {
        self.shape_accumulator.shape_row_count()
    }

    /// The number of pending shape-field rows.
    pub fn pending_shape_field_count(&self) -> (count: usize)
        ensures
            count == self.shape_field_entries().len(),
    {
        self.shape_fields.len()
    }

    /// The number of object sample rows a flush would write now.
    pub fn pending_object_sample_count(&self) -> (count: usize)
        ensures
            count == self.shapes().pending_object_samples(),
    {
        self.shape_accumulator.pending_object_sample_count()
    }

    /// The number of pending value sample rows.
    pub fn pending_value_sample_count(&self) -> (count: usize)
        ensures
            count == self.pending_value_samples(),
    {
        self.pending_value_sample_rows
    }

    /// Counts a new document (the count stops at `u64::MAX`).
    pub fn count_document(&mut self)
        ensures
            final(self).run_counters() == (SourceCounters {
                total_document_count: old(self).run_counters().total_document_count.saturating_add(1),
                ..old(self).run_counters()
            }),
            final(self).run_config() == old(self).run_config(),
            final(self).field_value_entries() == old(self).field_value_entries(),
            final(self).resolver() == old(self).resolver(),
            final(self).shapes() == old(self).shapes(),
            final(self).shape_field_entries() == old(self).shape_field_entries(),
            final(self).pending_value_samples() == old(self).pending_value_samples(),
            final(self).warning_list() == old(self).warning_list(),
            final(self).warned() == old(self).warned(),
            final(self).wf() == old(self).wf(),
    {
        self.counters.total_document_count = self.counters.total_document_count.saturating_add(1);
    }

    /// The flush a finished document asks for.
    pub fn document_flush(&self) -> (reason: Option<FlushReason>)
        requires
            self.wf(),
        ensures
            reason == document_flush_reason(
                self.shapes().shape_entries().len(),
                self.shapes().pending_object_samples(),
                self.shape_field_entries().len(),
                self.pending_value_samples(),
                self.run_config().flush,
            ),
    {
        let flush = &self.config.flush;
        if self.shape_accumulator.shape_row_count() >= flush.chunk_shape_rows
            || self.shape_accumulator.pending_object_sample_count() >= flush.chunk_object_sample_rows
            || self.shape_fields.len() >= flush.chunk_field_rows {
            Some(FlushReason::DocumentChunkLimit)
        } else if self.pending_value_sample_rows >= flush.chunk_value_sample_rows {
            Some(FlushReason::ValueSampleLimit)
        } else {
            None
        }
    }

    /// Counts an array (the count stops at `u64::MAX`).
    pub fn count_array(&mut self)
        ensures
            final(self).run_counters() == (SourceCounters {
                total_array_count: old(self).run_counters().total_array_count.saturating_add(1),
                ..old(self).run_counters()
            }),
            final(self).run_config() == old(self).run_config(),
            final(self).field_value_entries() == old(self).field_value_entries(),
            final(self).resolver() == old(self).resolver(),
            final(self).shapes() == old(self).shapes(),
            final(self).shape_field_entries() == old(self).shape_field_entries(),
            final(self).pending_value_samples() == old(self).pending_value_samples(),
            final(self).warning_list() == old(self).warning_list(),
            final(self).warned() == old(self).warned(),
            final(self).wf() == old(self).wf(),
    {
        self.counters.total_array_count = self.counters.total_array_count.saturating_add(1);
    }

    /// Counts a scalar (the count stops at `u64::MAX`).
    pub fn count_scalar(&mut self)
        ensures
            final(self).run_counters() == (SourceCounters {
                total_scalar_count: old(self).run_counters().total_scalar_count.saturating_add(1),
                ..old(self).run_counters()
            }),
            final(self).run_config() == old(self).run_config(),
            final(self).field_value_entries() == old(self).field_value_entries(),
            final(self).resolver() == old(self).resolver(),
            final(self).shapes() == old(self).shapes(),
            final(self).shape_field_entries() == old(self).shape_field_entries(),
            final(self).pending_value_samples() == old(self).pending_value_samples(),
            final(self).warning_list() == old(self).warning_list(),
            final(self).warned() == old(self).warned(),
            final(self).wf() == old(self).wf(),
    {
        self.counters.total_scalar_count = self.counters.total_scalar_count.saturating_add(1);
    }

    fn warn_unresolved_context_once(&mut self, path: &SourcePath)
        ensures
            final(self).warned(),
            final(self).warning_list() == if old(self).warned() {
                old(self).warning_list()
            } else {
                old(self).warning_list().push(final(self).warning_list().last())
            },
            !old(self).warned() ==> final(self).warning_list().last().code@ == W_CANONICAL_PATH_UNAVAILABLE@
                && final(self).warning_list().last().message@ == unresolved_context_message(path_text(path.parts(), false)),
            final(self).run_config() == old(self).run_config(),
            final(self).field_value_entries() == old(self).field_value_entries(),
            final(self).resolver() == old(self).resolver(),
            final(self).run_counters() == old(self).run_counters(),
            final(self).shapes() == old(self).shapes(),
            final(self).shape_field_entries() == old(self).shape_field_entries(),
            final(self).pending_value_samples() == old(self).pending_value_samples(),
    {
        if self.warned_canonical_path_unavailable {
            return;
        }
        self.warned_canonical_path_unavailable = true;
        let mut message = str_to_string("refs database did not contain an exact context for source path ");
        let source = path.as_str();
        push_str(&mut message, source.as_str());
        self.warnings.push(ProfileWarning { code: str_to_string(W_CANONICAL_PATH_UNAVAILABLE), message });
    }

    /// Profiles the value of one field under its field profile `id`, at the
    /// field's source path below `object_source_path`, with its object
    /// `parent`: the profile's accumulator (a new one the first time) takes
    /// the value, and the pending value sample count moves by the rows that
    /// came and left.
    pub fn observe_field_value(
        &mut self,
        document_index: u64,
        object_source_path: &str,
        field_name: &str,
        id: String,
        value: &JsonValue,
        parent: &Vec<(String, JsonValue)>,
    )
        requires
            old(self).wf(),
        ensures
            final(self).wf(),
            field_value_profiled(
                old(self).field_value_entries(),
                final(self).field_value_entries(),
                id@,
                document_index,
                object_source_path@ + seq!['.'] + field_name@,
                *value,
                parent@,
                old(self).run_config(),
            ),
            final(self).pending_value_samples() == pending_after(
                old(self).pending_value_samples(),
                value_rows_added(
                    samples_before(old(self).field_value_entries(), id@, old(self).run_config()),
                    *value,
                    value_sample_priority(id@, document_index, object_source_path@ + seq!['.'] + field_name@),
                ),
                value_rows_removed(
                    samples_before(old(self).field_value_entries(), id@, old(self).run_config()),
                    value_sample_priority(id@, document_index, object_source_path@ + seq!['.'] + field_name@),
                ),
            ),
            final(self).shape_field_entries() == old(self).shape_field_entries(),
            final(self).run_config() == old(self).run_config(),
            final(self).resolver() == old(self).resolver(),
            final(self).run_counters() == old(self).run_counters(),
            final(self).shapes() == old(self).shapes(),
            final(self).warning_list() == old(self).warning_list(),
            final(self).warned() == old(self).warned(),
    {
        let path = field_source_path(object_source_path, field_name);
        let ghost before = self.field_values.entries();
        let ghost path_view = path@;
        let delta = match self.field_values.find(&id) {
            Some(i) => {
                let delta = observe_stored(&mut self.field_values, i, &id, document_index, path.as_str(), value, parent, &self.config);
                proof {
                    lemma_profiled_stored(before, self.field_values.entries(), i as int, id@, document_index, path_view, *value, parent@, self.config);
                }
                delta
            },
            None => {
                let ghost key = id@;
                let delta = observe_new(&mut self.field_values, id, document_index, path.as_str(), value, parent, &self.config);
                proof {
                    lemma_profiled_new(before, self.field_values.entries(), key, document_index, path_view, *value, parent@, self.config);
                }
                delta
            },
        };
        self.apply_pending_value_sample_delta(delta);
    }

    fn observe_object_fields(
        &mut self,
        document_index: u64,
        object_source_path: &str,
        shape_id: &str,
        object: &Vec<(String, JsonValue)>,
    )
        requires
            old(self).wf(),
        ensures
            final(self).wf(),
            final(self).shape_field_rows() == field_rows_observed(old(self).shape_field_rows(), shape_id@, object@),
            fields_profiled(
                (old(self).field_value_entries(), old(self).pending_value_samples()),
                (final(self).field_value_entries(), final(self).pending_value_samples()),
                shape_id@,
                document_index,
                object_source_path@,
                object@,
                object@,
                old(self).run_config(),
            ),
            forall|k: Seq<char>| #[trigger] entries_have_key(old(self).field_value_entries(), k)
                ==> entries_have_key(final(self).field_value_entries(), k),
            forall|j: int| 0 <= j < object@.len() ==> entries_have_key(
                final(self).field_value_entries(),
                #[trigger] field_profile_id_text(shape_id@, object@[j].0@, json_type_of(object@[j].1)),
            ),
            final(self).run_config() == old(self).run_config(),
            final(self).resolver() == old(self).resolver(),
            final(self).run_counters() == old(self).run_counters(),
            final(self).shapes() == old(self).shapes(),
            final(self).warning_list() == old(self).warning_list(),
            final(self).warned() == old(self).warned(),
    {
        let ghost start = self.shape_field_rows();
        let ghost start_values = (self.field_value_entries(), self.pending_value_samples());
        let ghost mut states: Seq<(Seq<(String, FieldValueAccumulator)>, nat)> = seq![start_values];
        let mut index: usize = 0;
        assert(object@.subrange(0, 0) =~= Seq::<(String, JsonValue)>::empty());
        while index < object.len()
            invariant
                index <= object@.len(),
                self.wf(),
                self.shape_field_rows() == field_rows_observed(start, shape_id@, object@.subrange(0, index as int)),
                start_values == (old(self).field_value_entries(), old(self).pending_value_samples()),
                forall|k: Seq<char>| #[trigger] entries_have_key(old(self).field_value_entries(), k)
                    ==> entries_have_key(self.field_value_entries(), k),
                forall|j: int| 0 <= j < index ==> entries_have_key(
                    self.field_value_entries(),
                    #[trigger] field_profile_id_text(shape_id@, object@[j].0@, json_type_of(object@[j].1)),
                ),
                states.len() == index + 1,
                states[0] == start_values,
                states[index as int] == (self.field_value_entries(), self.pending_value_samples()),
                forall|i: int| 0 <= i < index ==> #[trigger] nth_field_step(
                    states,
                    i,
                    shape_id@,
                    document_index,
                    object_source_path@,
                    object@,
                    object@,
                    old(self).run_config(),
                ),
                self.run_config() == old(self).run_config(),
                self.resolver() == old(self).resolver(),
                self.run_counters() == old(self).run_counters(),
                self.shapes() == old(self).shapes(),
                self.warning_list() == old(self).warning_list(),
                self.warned() == old(self).warned(),
            decreases object@.len() - index,
        {
            let field = &object[index];
            let ghost entries_before = self.field_value_entries();
            let ghost mid = (self.field_value_entries(), self.pending_value_samples());
            let id = count_shape_field(&mut self.shape_fields, shape_id, &field.0, &field.1);
            self.observe_field_value(document_index, object_source_path, field.0.as_str(), id, &field.1, object);
            proof {
                let prefix = object@.subrange(0, index + 1);
                assert(prefix.drop_last() =~= object@.subrange(0, index as int));
                assert(prefix.last() == object@[index as int]);
                let after = self.field_value_entries();
                assert forall|k: Seq<char>| #[trigger] entries_have_key(entries_before, k) implies entries_have_key(after, k) by {
                    if k != id@ {
                        assert(entry_value(after, k) == entry_value(entries_before, k));
                    }
                }
                assert(entry_value(after, id@) is Some);
                let next = states.push((self.field_value_entries(), self.pending_value_samples()));
                assert forall|i: int| 0 <= i < index + 1 implies #[trigger] nth_field_step(
                    next,
                    i,
                    shape_id@,
                    document_index,
                    object_source_path@,
                    object@,
                    object@,
                    old(self).run_config(),
                ) by {
                    if i < index {
                        assert(nth_field_step(states, i, shape_id@, document_index, object_source_path@, object@, object@, old(self).run_config()));
                        assert(next[i] == states[i] && next[i + 1] == states[i + 1]);
                    } else {
                        assert(next[i] == mid);
                    }
                }
                states = next;
            }
            index = index + 1;
        }
        assert(object@.subrange(0, object@.len() as int) =~= object@);
        assert(states.len() == object@.len() + 1);
    }

    fn observe_resolved_object(
        &mut self,
        document_index: u64,
        path: &SourcePath,
        context: &ResolvedObjectContext,
        object: &Vec<(String, JsonValue)>,
    ) -> (facts: ShapeFacts)
        requires
            old(self).wf(),
        ensures
            final(self).wf(),
            shape_facts_ok(facts, *context, object@),
            observed_with(
                old(self).shapes(),
                final(self).shapes(),
                facts,
                document_index,
                path_text(path.parts(), false),
                *context,
                object@,
                old(self).run_config().sampling,
            ),
            final(self).shape_field_rows() == field_rows_observed(old(self).shape_field_rows(), facts.shape_id@, object@),
            final(self).run_config() == old(self).run_config(),
            final(self).resolver() == old(self).resolver(),
            final(self).run_counters() == old(self).run_counters(),
            forall|j: int| 0 <= j < object@.len() ==> entries_have_key(
                final(self).field_value_entries(),
                #[trigger] field_profile_id_text(facts.shape_id@, object@[j].0@, json_type_of(object@[j].1)),
            ),
            fields_profiled(
                (old(self).field_value_entries(), old(self).pending_value_samples()),
                (final(self).field_value_entries(), final(self).pending_value_samples()),
                facts.shape_id@,
                document_index,
                path_text(path.parts(), false),
                object@,
                object@,
                old(self).run_config(),
            ),
            final(self).warning_list() == old(self).warning_list(),
            final(self).warned() == old(self).warned(),
    {
        let observed = self.shape_accumulator.observe_object_with_facts(
            document_index,
            path,
            context,
            object,
            &self.config.sampling,
        );
        let facts = match observed {
            Ok(facts) => facts,
            Err(_) => {
                proof {
                    assert(false);
                }
                ShapeFacts {
                    shape_id: String::new(),
                    field_set_hash: String::new(),
                    type_set_hash: String::new(),
                    field_set_json: String::new(),
                    type_set_json: String::new(),
                }
            },
        };
        let object_source_path = path.as_str();
        self.observe_object_fields(document_index, object_source_path.as_str(), facts.shape_id.as_str(), object);
        facts
    }

    /// Visits an object: counts it, resolves its context (warning once when
    /// the refs database has no exact context for it), counts it under its
    /// shape and takes its object samples, and counts and profiles each of
    /// its fields under its field profile (see `observe_field_value`). Gives
    /// the flush the object asks for.
    #[verifier::rlimit(50)]
    pub fn observe_object(
        &mut self,
        document_index: u64,
        path: &SourcePath,
        object: &Vec<(String, JsonValue)>,
    ) -> (result: Result<Option<FlushReason>, ProfileError>)
        requires
            old(self).wf(),
        ensures
            result is Ok,
            final(self).wf(),
            final(self).run_counters() == (SourceCounters {
                total_object_count: old(self).run_counters().total_object_count.saturating_add(1),
                ..old(self).run_counters()
            }),
            final(self).run_config() == old(self).run_config(),
            final(self).resolver() == old(self).resolver(),
            exists|context: ResolvedObjectContext, facts: ShapeFacts| {
                &&& #[trigger] resolved_as(old(self).resolver().index(), path.parts(), context)
                &&& #[trigger] shape_facts_ok(facts, context, object@)
                &&& observed_with(
                    old(self).shapes(),
                    final(self).shapes(),
                    facts,
                    document_index,
                    path_text(path.parts(), false),
                    context,
                    object@,
                    old(self).run_config().sampling,
                )
                &&& final(self).shape_field_rows() == field_rows_observed(old(self).shape_field_rows(), facts.shape_id@, object@)
                &&& forall|j: int| 0 <= j < object@.len() ==> entries_have_key(
                    final(self).field_value_entries(),
                    #[trigger] field_profile_id_text(facts.shape_id@, object@[j].0@, json_type_of(object@[j].1)),
                )
                &&& fields_profiled(
                    (old(self).field_value_entries(), old(self).pending_value_samples()),
                    (final(self).field_value_entries(), final(self).pending_value_samples()),
                    facts.shape_id@,
                    document_index,
                    path_text(path.parts(), false),
                    object@,
                    object@,
                    old(self).run_config(),
                )
                &&& final(self).warned() == (old(self).warned() || !context.resolved)
                &&& final(self).warning_list() == if old(self).warned() || context.resolved {
                    old(self).warning_list()
                } else {
                    old(self).warning_list().push(final(self).warning_list().last())
                }
                &&& (!old(self).warned() && !context.resolved) ==> final(self).warning_list().last().code@
                    == W_CANONICAL_PATH_UNAVAILABLE@ && final(self).warning_list().last().message@
                    == unresolved_context_message(path_text(path.parts(), false))
            },
            result->Ok_0 == object_flush_reason(
                final(self).shapes().shape_entries().len(),
                final(self).shape_field_entries().len(),
                old(self).run_config().flush,
            ),
    {
        let ghost start = *self;
        self.counters.total_object_count = self.counters.total_object_count.saturating_add(1);
        let context = self.resolver.resolve_object(path);
        if !context.resolved {
            self.warn_unresolved_context_once(path);
        }
        let ghost warned_state = *self;
        assert(warned_state.shapes() == start.shapes());
        assert(warned_state.shape_field_rows() == start.shape_field_rows());
        assert(warned_state.field_value_entries() == start.field_value_entries());
        assert(warned_state.pending_value_samples() == start.pending_value_samples());
        let facts = self.observe_resolved_object(document_index, path, &context, object);
        assert(warned_state.warning_list() == self.warning_list());
        assert(resolved_as(start.resolver().index(), path.parts(), context));
        assert(shape_facts_ok(facts, context, object@));
        assert(self.warned() == (start.warned() || !context.resolved));
        let flush = &self.config.flush;
        let reason = if self.shape_accumulator.shape_row_count() >= flush.chunk_shape_rows
            || self.shape_fields.len() >= flush.chunk_field_rows {
            Some(FlushReason::DocumentChunkLimit)
        } else {
            None
        };
        Ok(reason)
    }

    /// Whether any shape, shape field, object sample or value sample waits to
    /// be flushed.
    pub fn has_pending_sample_chunk(&self) -> (pending: bool)
        requires
            self.wf(),
        ensures
            pending == (self.shapes().shape_entries().len() > 0 || self.shape_field_entries().len() > 0
                || self.shapes().pending_object_samples() > 0 || self.pending_value_samples() > 0),
    {
        self.shape_accumulator.shape_row_count() > 0 || self.shape_fields.len() > 0
            || self.shape_accumulator.pending_object_sample_count() > 0 || self.pending_value_sample_rows > 0
    }

    /// Applies the change in pending value sample rows that an observation
    /// reported; rows cannot leave that never came, and the count stops at
    /// `usize::MAX`.
    pub fn apply_pending_value_sample_delta(&mut self, delta: PendingRowDelta)
        requires
            delta.removed <= old(self).pending_value_samples() + delta.added,
        ensures
            final(self).pending_value_samples() == pending_after(old(self).pending_value_samples(), delta.added as nat, delta.removed as nat),
            final(self).run_config() == old(self).run_config(),
            final(self).field_value_entries() == old(self).field_value_entries(),
            final(self).resolver() == old(self).resolver(),
            final(self).run_counters() == old(self).run_counters(),
            final(self).shapes() == old(self).shapes(),
            final(self).shape_field_entries() == old(self).shape_field_entries(),
            final(self).warning_list() == old(self).warning_list(),
            final(self).warned() == old(self).warned(),
            final(self).wf() == old(self).wf(),
    {
        if delta.added == 0 && delta.removed == 0 {
            return;
        }
        let pending = self.pending_value_sample_rows;
        let raised = if delta.added > usize::MAX - pending { usize::MAX } else { pending + delta.added };
        self.pending_value_sample_rows = raised - delta.removed;
    }

    /// Hands out the pending shape rows in ascending shape id order.
    pub fn drain_shape_rows(&mut self) -> (rows: Vec<ShapeRow>)
        requires
            old(self).wf(),
        ensures
            final(self).wf(),
            rows@ == insertion_sorted(old(self).shapes().shape_entries().map_values(|e: (String, ShapeRow)| e.1)),
            final(self).shapes().shape_entries().len() == 0,
            final(self).shapes().samples() == old(self).shapes().samples(),
            final(self).shape_field_entries() == old(self).shape_field_entries(),
            final(self).run_config() == old(self).run_config(),
            final(self).field_value_entries() == old(self).field_value_entries(),
            final(self).resolver() == old(self).resolver(),
            final(self).run_counters() == old(self).run_counters(),
            final(self).pending_value_samples() == old(self).pending_value_samples(),
            final(self).warning_list() == old(self).warning_list(),
            final(self).warned() == old(self).warned(),
    {
        self.shape_accumulator.drain_shape_rows()
    }

    /// Hands out the pending shape-field rows in ascending field profile id
    /// order.
    pub fn drain_shape_field_rows(&mut self) -> (rows: Vec<ShapeFieldRow>)
        requires
            old(self).wf(),
        ensures
            final(self).wf(),
            rows@ == insertion_sorted(old(self).shape_field_entries().map_values(|e: (String, ShapeFieldRow)| e.1)),
            final(self).shape_field_entries().len() == 0,
            final(self).shapes() == old(self).shapes(),
            final(self).run_config() == old(self).run_config(),
            final(self).field_value_entries() == old(self).field_value_entries(),
            final(self).resolver() == old(self).resolver(),
            final(self).run_counters() == old(self).run_counters(),
            final(self).pending_value_samples() == old(self).pending_value_samples(),
            final(self).warning_list() == old(self).warning_list(),
            final(self).warned() == old(self).warned(),
    {
        let mut fields: Vec<ShapeFieldRow> = Vec::new();
        let count = self.shape_fields.len();
        let mut index: usize = 0;
        while index < count
            invariant
                count == self.shape_fields.entries().len(),
                index <= count,
                fields@ == self.shape_fields.entries().map_values(|e: (String, ShapeFieldRow)| e.1).subrange(0, index as int),
            decreases count - index,
        {
            let entry = self.shape_fields.entry(index);
            fields.push(crate::util::dup::Duplicate::duplicate(&entry.1));
            assert(self.shape_fields.entries().map_values(|e: (String, ShapeFieldRow)| e.1).subrange(0, index + 1)
                =~= self.shape_fields.entries().map_values(|e: (String, ShapeFieldRow)| e.1).subrange(0, index as int).push(entry.1));
            index = index + 1;
        }
        assert(self.shape_fields.entries().map_values(|e: (String, ShapeFieldRow)| e.1).subrange(0, count as int)
            =~= self.shape_fields.entries().map_values(|e: (String, ShapeFieldRow)| e.1));
        let rows = sort_rows(fields);
        self.shape_fields.clear();
        rows
    }

    /// Hands out the pending object sample rows in row order; the samples
    /// are forgotten.
    pub fn drain_object_sample_rows(&mut self) -> (rows: Vec<ObjectSampleRow>)
        requires
            old(self).wf(),
        ensures
            final(self).wf(),
            rows@.map_values(|r: ObjectSampleRow| r@) == drained_rows(old(self).shapes().samples()),
            final(self).shapes().samples() == empty_object_samples(),
            final(self).shapes().shape_entries() == old(self).shapes().shape_entries(),
            final(self).shape_field_entries() == old(self).shape_field_entries(),
            final(self).run_config() == old(self).run_config(),
            final(self).field_value_entries() == old(self).field_value_entries(),
            final(self).resolver() == old(self).resolver(),
            final(self).run_counters() == old(self).run_counters(),
            final(self).pending_value_samples() == old(self).pending_value_samples(),
            final(self).warning_list() == old(self).warning_list(),
            final(self).warned() == old(self).warned(),
    {
        self.shape_accumulator.drain_object_sample_rows()
    }

    /// Hands out the waiting value samples of every field profile: the
    /// profiles in ascending field profile id order, each profile's rows in
    /// row order. The samples are emptied (the first-seen and
    /// first-non-empty samples stay taken), and nothing else of the
    /// accumulators changes.
    pub fn drain_value_sample_rows(&mut self) -> (rows: Vec<ValueSampleRow>)
        requires
            old(self).wf(),
        ensures
            final(self).wf(),
            rows@.map_values(|r: ValueSampleRow| r@) == insertion_sorted_by(drained_value_rows(old(self).field_value_entries()), profile_row_le()),
            final(self).field_value_entries().len() == old(self).field_value_entries().len(),
            forall|i: int| 0 <= i < old(self).field_value_entries().len() ==> {
                &&& (#[trigger] final(self).field_value_entries()[i]).0 == old(self).field_value_entries()[i].0
                &&& samples_drained(old(self).field_value_entries()[i].1, final(self).field_value_entries()[i].1)
            },
            final(self).pending_value_samples() == 0,
            final(self).shapes() == old(self).shapes(),
            final(self).shape_field_entries() == old(self).shape_field_entries(),
            final(self).run_config() == old(self).run_config(),
            final(self).resolver() == old(self).resolver(),
            final(self).run_counters() == old(self).run_counters(),
            final(self).warning_list() == old(self).warning_list(),
            final(self).warned() == old(self).warned(),
    {
        let ghost start = self.field_values.entries();
        let count = self.field_values.len();
        let mut rows: Vec<ValueSampleRow> = Vec::new();
        let mut index: usize = 0;
        while index < count
            invariant
                count == start.len(),
                index <= count,
                self.field_values.entries().len() == count,
                self.field_values.wf(),
                1 <= self.config.value_profile.hll_precision <= 31,
                self.resolver.index().wf(),
                self.shape_accumulator.wf(),
                self.shape_fields.wf(),
                self.shapes() == old(self).shapes(),
                self.shape_field_entries() == old(self).shape_field_entries(),
                self.run_config() == old(self).run_config(),
                self.resolver() == old(self).resolver(),
                self.run_counters() == old(self).run_counters(),
                self.warning_list() == old(self).warning_list(),
                self.warned() == old(self).warned(),
                start == old(self).field_value_entries(),
                rows@.map_values(|r: ValueSampleRow| r@) == drained_value_rows(start.subrange(0, index as int)),
                forall|k: int| 0 <= k < count ==> (#[trigger] self.field_values.entries()[k]).0 == start[k].0,
                forall|k: int| 0 <= k < index ==> samples_drained(start[k].1, #[trigger] self.field_values.entries()[k].1),
                forall|k: int| index <= k < count ==> #[trigger] self.field_values.entries()[k] == start[k],
                forall|k: int| 0 <= k < count ==> {
                    &&& (#[trigger] self.field_values.entries()[k]).1.wf()
                    &&& self.field_values.entries()[k].1.profile_id() == self.field_values.entries()[k].0@
                },
            decreases count - index,
        {
            let ghost before = self.field_values.entries();
            let accumulator = self.field_values.value_mut(index);
            let mut drained = accumulator.drain_value_sample_rows();
            let ghost old_rows = rows@;
            let ghost new_rows = drained@;
            rows.append(&mut drained);
            proof {
                let after = self.field_values.entries();
                assert(after == before.update(index as int, (before[index as int].0, after[index as int].1)));
                assert forall|k: int| 0 <= k < count implies {
                    &&& (#[trigger] after[k]).1.wf()
                    &&& after[k].1.profile_id() == after[k].0@
                } by {
                    if k != index {
                        assert(after[k] == before[k]);
                    }
                }
                assert forall|a: int, b: int| #![trigger after[a], after[b]] 0 <= a < b < after.len() implies after[a].0@ != after[b].0@ by {
                    assert(before[a].0@ != before[b].0@);
                }
                let prefix = start.subrange(0, index + 1);
                assert(prefix.drop_last() =~= start.subrange(0, index as int));
                assert(prefix.last() == start[index as int]);
                assert(rows@ =~= old_rows + new_rows);
                assert(rows@.map_values(|r: ValueSampleRow| r@) =~= old_rows.map_values(|r: ValueSampleRow| r@)
                    + new_rows.map_values(|r: ValueSampleRow| r@));
            }
            index = index + 1;
        }
        assert(start.subrange(0, count as int) =~= start);
        self.pending_value_sample_rows = 0;
        sort_by_profile(rows)
    }

    /// Hands out the pending rows: the shapes and shape fields in ascending
    /// id order, the object samples in row order, and the value samples as
    /// `drain_value_sample_rows` gives them. Field summaries and field
    /// values come only when the field profiles are finished.
    pub fn drain_pending_chunk(&mut self) -> (chunk: ProfileChunk)
        requires
            old(self).wf(),
        ensures
            final(self).wf(),
            chunk.shapes@ == insertion_sorted(old(self).shapes().shape_entries().map_values(|e: (String, ShapeRow)| e.1)),
            chunk.shape_fields@ == insertion_sorted(old(self).shape_field_entries().map_values(|e: (String, ShapeFieldRow)| e.1)),
            chunk.object_samples@.map_values(|r: ObjectSampleRow| r@) == drained_rows(old(self).shapes().samples()),
            chunk.field_summaries@.len() == 0,
            chunk.field_values@.len() == 0,
            chunk.value_samples@.map_values(|r: ValueSampleRow| r@) == insertion_sorted_by(
                drained_value_rows(old(self).field_value_entries()),
                profile_row_le(),
            ),
            final(self).field_value_entries().len() == old(self).field_value_entries().len(),
            forall|i: int| 0 <= i < old(self).field_value_entries().len() ==> {
                &&& (#[trigger] final(self).field_value_entries()[i]).0 == old(self).field_value_entries()[i].0
                &&& samples_drained(old(self).field_value_entries()[i].1, final(self).field_value_entries()[i].1)
            },
            final(self).shapes().shape_entries().len() == 0,
            final(self).shapes().samples() == empty_object_samples(),
            final(self).shape_field_entries().len() == 0,
            final(self).run_config() == old(self).run_config(),
            final(self).resolver() == old(self).resolver(),
            final(self).run_counters() == old(self).run_counters(),
            final(self).pending_value_samples() == 0,
            final(self).warning_list() == old(self).warning_list(),
            final(self).warned() == old(self).warned(),
    {
        let shapes = self.drain_shape_rows();
        let shape_fields = self.drain_shape_field_rows();
        let object_samples = self.drain_object_sample_rows();
        let value_samples = self.drain_value_sample_rows();
        ProfileChunk {
            shapes,
            shape_fields,
            object_samples,
            field_summaries: Vec::new(),
            field_values: Vec::new(),
            value_samples,
        }
    }

    /// Whether any field profile has an accumulator left to finish.
    pub fn has_pending_field_value_accumulators(&self) -> (pending: bool)
        ensures
            pending == (self.field_value_entries().len() > 0),
    {
        self.field_values.len() > 0
    }

    /// The number of field profiles with an accumulator.
    pub fn field_value_accumulator_count(&self) -> (count: usize)
        ensures
            count == self.field_value_entries().len(),
    {
        self.field_values.len()
    }

    /// Finishes every field profile and gives the outputs in ascending field
    /// profile id order; no accumulator is left.
    pub fn finish_field_values(&mut self) -> (outputs: Vec<FieldValueOutput>)
        requires
            old(self).wf(),
        ensures
            final(self).wf(),
            final(self).field_value_entries().len() == 0,
            exists|unsorted: Seq<FieldValueOutput>| {
                &&& unsorted.len() == old(self).field_value_entries().len()
                &&& forall|i: int| 0 <= i < unsorted.len() ==> field_value_finished(
                    old(self).field_value_entries()[unsorted.len() - 1 - i].1,
                    #[trigger] unsorted[i],
                    old(self).run_config(),
                )
                &&& outputs@ == insertion_sorted(unsorted)
            },
            final(self).pending_value_samples() == old(self).pending_value_samples(),
            final(self).shapes() == old(self).shapes(),
            final(self).shape_field_entries() == old(self).shape_field_entries(),
            final(self).run_config() == old(self).run_config(),
            final(self).resolver() == old(self).resolver(),
            final(self).run_counters() == old(self).run_counters(),
            final(self).warning_list() == old(self).warning_list(),
            final(self).warned() == old(self).warned(),
    {
        let mut entries = self.field_values.take_entries();
        let ghost start = entries@;
        let mut outputs: Vec<FieldValueOutput> = Vec::new();
        while entries.len() > 0
            invariant
                entries@.len() + outputs@.len() == start.len(),
                entries@ == start.subrange(0, entries@.len() as int),
                forall|k: int| 0 <= k < start.len() ==> (#[trigger] start[k]).1.wf(),
                forall|i: int| 0 <= i < outputs@.len() ==> field_value_finished(
                    start[start.len() - 1 - i].1,
                    #[trigger] outputs@[i],
                    self.config,
                ),
            decreases entries@.len(),
        {
            let ghost before = entries@;
            let entry = entries.pop().unwrap();
            assert(entry == start[before.len() - 1]);
            assert(entries@ =~= start.subrange(0, entries@.len() as int));
            let output = entry.1.finish(&self.config);
            outputs.push(output);
        }
        let ghost unsorted = outputs@;
        let sorted = sort_rows(outputs);
        assert(unsorted.len() == start.len());
        sorted
    }

    /// The flush the visits asked for since it was last taken, if any.
    pub closed spec fn requested_flush(&self) -> Option<FlushReason> {
        self.flush_request
    }

    /// Takes the flush the visits asked for, if any.
    pub fn take_flush_request(&mut self) -> (reason: Option<FlushReason>)
        ensures
            reason == old(self).requested_flush(),
            final(self).requested_flush() is None,
            final(self).run_config() == old(self).run_config(),
            final(self).resolver() == old(self).resolver(),
            final(self).run_counters() == old(self).run_counters(),
            final(self).shapes() == old(self).shapes(),
            final(self).shape_field_entries() == old(self).shape_field_entries(),
            final(self).field_value_entries() == old(self).field_value_entries(),
            final(self).pending_value_samples() == old(self).pending_value_samples(),
            final(self).warning_list() == old(self).warning_list(),
            final(self).warned() == old(self).warned(),
            final(self).wf() == old(self).wf(),
            ScanVisitor::calls(final(self)) == ScanVisitor::calls(old(self)),
    {
        let reason = self.flush_request;
        self.flush_request = None;
        reason
    }

    /// The warnings of the run, the counters, and whether the perf log was
    /// asked for: what the report needs once the rows are written.
    pub fn into_warnings(self) -> (warnings: Vec<ProfileWarning>)
        ensures
            warnings@ == self.warning_list(),
    {
        self.warnings
    }
}

/// The run as a scan's visitor: each call is recorded with its result,
/// counts and profiles what it visits, and keeps the flush that the visit
/// asks for (a finished document's, or an object's) for the caller to
/// perform. The run's calls always succeed.
impl ScanVisitor for ProfileRunVisitor {
    closed spec fn calls(&self) -> Seq<(ScanEvent, Result<(), ProfileError>)> {
        self.scan_calls@
    }

    closed spec fn ready(&self) -> bool {
        self.wf()
    }

    fn begin_document(&mut self, document_index: u64) -> (result: Result<(), ProfileError>)
        ensures
            result is Ok,
            final(self).run_counters() == (SourceCounters {
                total_document_count: old(self).run_counters().total_document_count.saturating_add(1),
                ..old(self).run_counters()
            }),
    {
        let ghost before = self.scan_calls@;
        ProfileRunVisitor::count_document(self);
        self.scan_calls = Ghost(before.push((ScanEvent::BeginDocument(document_index), Ok(()))));
        Ok(())
    }

    fn end_document(&mut self, document_index: u64) -> (result: Result<(), ProfileError>)
        ensures
            result is Ok,
            final(self).requested_flush() == match document_flush_reason(
                old(self).shapes().shape_entries().len(),
                old(self).shapes().pending_object_samples(),
                old(self).shape_field_entries().len(),
                old(self).pending_value_samples(),
                old(self).run_config().flush,
            ) {
                Some(reason) => Some(reason),
                None => old(self).requested_flush(),
            },
    {
        let ghost before = self.scan_calls@;
        let reason = ProfileRunVisitor::document_flush(self);
        if reason.is_some() {
            self.flush_request = reason;
        }
        self.scan_calls = Ghost(before.push((ScanEvent::EndDocument(document_index), Ok(()))));
        Ok(())
    }

    fn visit_object(
        &mut self,
        document_index: u64,
        path: &SourcePath,
        object: &Vec<(String, JsonValue)>,
    ) -> (result: Result<(), ProfileError>)
        ensures
            result is Ok,
    {
        let ghost before = self.scan_calls@;
        let visited = ProfileRunVisitor::observe_object(self, document_index, path, object);
        match visited {
            Ok(Some(reason)) => {
                self.flush_request = Some(reason);
            },
            _ => {},
        }
        self.scan_calls = Ghost(
            before.push((ScanEvent::Visit(document_index, path.parts(), JsonValue::Object(*object)), Ok(()))),
        );
        Ok(())
    }

    fn visit_array(&mut self, document_index: u64, path: &SourcePath, array: &Vec<JsonValue>) -> (result: Result<(), ProfileError>)
        ensures
            result is Ok,
    {
        let ghost before = self.scan_calls@;
        ProfileRunVisitor::count_array(self);
        self.scan_calls = Ghost(
            before.push((ScanEvent::Visit(document_index, path.parts(), JsonValue::Array(*array)), Ok(()))),
        );
        Ok(())
    }

    fn visit_scalar(&mut self, document_index: u64, path: &SourcePath, value: &JsonValue) -> (result: Result<(), ProfileError>)
        ensures
            result is Ok,
    {
        let ghost before = self.scan_calls@;
        ProfileRunVisitor::count_scalar(self);
        self.scan_calls = Ghost(before.push((ScanEvent::Visit(document_index, path.parts(), *value), Ok(()))));
        Ok(())
    }
}

} // verus!
