//! Value samples of one field profile: the first value seen, the first
//! non-empty value, and a bounded priority sample.

use vstd::prelude::*;

use crate::config::ProfileConfig;
use crate::field::id::sep;
use crate::refs::resolver::opt_text_view;
use crate::shape::id::hash_text;
use crate::shape::sample::{lemma_texts_ordered, object_text, priority_text, sample_rank_lt, value_is_non_empty, value_non_empty};
use crate::sketch::priority::{
    PriorityItem, PrioritySampler, RankedPriorityItem, admits, lemma_admits_map, lemma_pushed_map, lemma_worst_index,
    map_item, map_items, pushed, pushed_all,
};
use crate::util::dup::Duplicate;
use crate::util::hash::{fnv64, stable_hex, stable_u64};
use crate::util::json_value::{JsonValue, json_text, object_json_string, to_json_string};
use crate::util::sort::{
    SortKey, insertion_sorted, insertion_sorted_by, key_le, lemma_insertion_sorted_map, sort_rows, total_preorder,
};
use crate::util::text::{compare_text, dec_text, push_char, push_decimal, push_str, str_to_string, text_lt};
use crate::util::truncate::{truncate_utf8, truncated_text};
use crate::value::identity::{key_hash_text, value_hash, value_key_of};
use vstd::utf8::encode_utf8;

verus! {

#[derive(Debug, Clone, Copy, PartialEq, Eq, Structural, Hash)]
pub enum ValueSampleKind {
    FirstSeen,
    FirstNonEmpty,
    PrioritySample,
    HeavyHitterContext,
}

pub open spec fn value_kind_name(kind: ValueSampleKind) -> Seq<char> {
    match kind {
        ValueSampleKind::FirstSeen => "first_seen"@,
        ValueSampleKind::FirstNonEmpty => "first_non_empty"@,
        ValueSampleKind::PrioritySample => "priority_sample"@,
        ValueSampleKind::HeavyHitterContext => "heavy_hitter_context"@,
    }
}

pub open spec fn value_kind_rank(kind: ValueSampleKind) -> int {
    match kind {
        ValueSampleKind::FirstSeen => 0,
        ValueSampleKind::FirstNonEmpty => 1,
        ValueSampleKind::PrioritySample => 2,
        ValueSampleKind::HeavyHitterContext => 3,
    }
}

impl ValueSampleKind {
    pub fn as_sql_str(self) -> (name: &'static str)
        ensures
            name@ == value_kind_name(self),
    {
        match self {
            ValueSampleKind::FirstSeen => "first_seen",
            ValueSampleKind::FirstNonEmpty => "first_non_empty",
            ValueSampleKind::PrioritySample => "priority_sample",
            ValueSampleKind::HeavyHitterContext => "heavy_hitter_context",
        }
    }

    fn rank(self) -> (rank: u8)
        ensures
            rank == value_kind_rank(self),
    {
        match self {
            ValueSampleKind::FirstSeen => 0,
            ValueSampleKind::FirstNonEmpty => 1,
            ValueSampleKind::PrioritySample => 2,
            ValueSampleKind::HeavyHitterContext => 3,
        }
    }
}

#[derive(Debug, Clone, PartialEq, Eq)]
pub struct ValueSampleRow {
    pub value_sample_id: String,
    pub field_profile_id: String,
    pub value_hash: Option<String>,
    pub sample_kind: ValueSampleKind,
    pub document_index: u64,
    pub source_path: String,
    pub value_json: Option<String>,
    pub value_json_truncated: bool,
    pub parent_object_json: Option<String>,
    pub parent_object_json_truncated: bool,
    pub sample_priority: Option<u64>,
    pub sample_rank: Option<u32>,
}

/// A value sample row with its texts as character sequences.
pub struct ValueSampleRowView {
    pub value_sample_id: Seq<char>,
    pub field_profile_id: Seq<char>,
    pub value_hash: Option<Seq<char>>,
    pub sample_kind: ValueSampleKind,
    pub document_index: u64,
    pub source_path: Seq<char>,
    pub value_json: Option<Seq<char>>,
    pub value_json_truncated: bool,
    pub parent_object_json: Option<Seq<char>>,
    pub parent_object_json_truncated: bool,
    pub sample_priority: Option<u64>,
    pub sample_rank: Option<u32>,
}

impl View for ValueSampleRow {
    type V = ValueSampleRowView;

    open spec fn view(&self) -> ValueSampleRowView {
        ValueSampleRowView {
            value_sample_id: self.value_sample_id@,
            field_profile_id: self.field_profile_id@,
            value_hash: opt_text_view(self.value_hash),
            sample_kind: self.sample_kind,
            document_index: self.document_index,
            source_path: self.source_path@,
            value_json: opt_text_view(self.value_json),
            value_json_truncated: self.value_json_truncated,
            parent_object_json: opt_text_view(self.parent_object_json),
            parent_object_json_truncated: self.parent_object_json_truncated,
            sample_priority: self.sample_priority,
            sample_rank: self.sample_rank,
        }
    }
}

impl Duplicate for ValueSampleRow {
    fn duplicate(&self) -> (copy: Self) {
        ValueSampleRow {
            value_sample_id: self.value_sample_id.duplicate(),
            field_profile_id: self.field_profile_id.duplicate(),
            value_hash: self.value_hash.duplicate(),
            sample_kind: self.sample_kind,
            document_index: self.document_index,
            source_path: self.source_path.duplicate(),
            value_json: self.value_json.duplicate(),
            value_json_truncated: self.value_json_truncated,
            parent_object_json: self.parent_object_json.duplicate(),
            parent_object_json_truncated: self.parent_object_json_truncated,
            sample_priority: self.sample_priority,
            sample_rank: self.sample_rank,
        }
    }
}

/// How one observation changed the number of waiting rows: rows that came
/// and rows that left.
#[derive(Debug, Clone, Copy, PartialEq, Eq, Structural)]
pub struct PendingRowDelta {
    pub added: usize,
    pub removed: usize,
}

impl PendingRowDelta {
    /// Rows that came less rows that left.
    pub fn net(&self) -> (net: isize)
        requires
            self.added <= isize::MAX,
            self.removed <= isize::MAX,
        ensures
            net == self.added - self.removed,
    {
        (self.added as isize) - (self.removed as isize)
    }
}

/// The hash input of a value sample priority.
pub open spec fn value_priority_input(field_profile_id: Seq<char>, document_index: u64, source_path: Seq<char>) -> Seq<char> {
    field_profile_id + sep() + dec_text(document_index as nat) + sep() + source_path
}

/// A value sample priority: the stable hash of the field profile, document
/// index and source path, with the top bit cleared so that it fits a
/// signed 64-bit column.
pub open spec fn value_sample_priority(field_profile_id: Seq<char>, document_index: u64, source_path: Seq<char>) -> u64 {
    fnv64(encode_utf8(value_priority_input(field_profile_id, document_index, source_path))) & 0x7fff_ffff_ffff_ffffu64
}

pub fn sample_priority(field_profile_id: &str, document_index: u64, source_path: &str) -> (priority: u64)
    ensures
        priority == value_sample_priority(field_profile_id@, document_index, source_path@),
        priority <= i64::MAX,
{
    let mut input = str_to_string(field_profile_id);
    push_char(&mut input, '\x1f');
    push_decimal(&mut input, document_index);
    push_char(&mut input, '\x1f');
    push_str(&mut input, source_path);
    assert(input@ =~= value_priority_input(field_profile_id@, document_index, source_path@));
    let hash = stable_u64(input.as_str().as_bytes());
    let priority = hash & 0x7fff_ffff_ffff_ffffu64;
    assert(hash & 0x7fff_ffff_ffff_ffffu64 <= 0x7fff_ffff_ffff_ffffu64) by (bit_vector);
    priority
}

/// The hash input of a value sample id.
pub open spec fn value_sample_id_input(
    field_profile_id: Seq<char>,
    kind: ValueSampleKind,
    document_index: u64,
    source_path: Seq<char>,
    value_hash: Seq<char>,
    priority: Option<u64>,
) -> Seq<char> {
    field_profile_id + sep() + value_kind_name(kind) + sep() + dec_text(document_index as nat) + sep() + source_path
        + sep() + value_hash + sep() + priority_text(priority)
}

/// The row that samples `value` (with its parent object) under `kind`.
pub open spec fn value_sample_row(
    kind: ValueSampleKind,
    document_index: u64,
    source_path: Seq<char>,
    field_profile_id: Seq<char>,
    value: JsonValue,
    parent: Seq<(String, JsonValue)>,
    config: ProfileConfig,
    priority: Option<u64>,
) -> ValueSampleRowView {
    let hash = key_hash_text(value_key_of(value));
    let value_limit = config.sampling.value_json_limit_bytes;
    let parent_limit = config.sampling.parent_object_json_limit_bytes;
    ValueSampleRowView {
        value_sample_id: hash_text(value_sample_id_input(field_profile_id, kind, document_index, source_path, hash, priority)),
        field_profile_id,
        value_hash: Some(hash),
        sample_kind: kind,
        document_index,
        source_path,
        value_json: Some(truncated_text(json_text(value), value_limit as nat)),
        value_json_truncated: encode_utf8(json_text(value)).len() > value_limit,
        parent_object_json: Some(truncated_text(object_text(parent), parent_limit as nat)),
        parent_object_json_truncated: encode_utf8(object_text(parent)).len() > parent_limit,
        sample_priority: priority,
        sample_rank: None,
    }
}

fn make_value_sample_row(
    kind: ValueSampleKind,
    document_index: u64,
    source_path: &str,
    field_profile_id: &str,
    value: &JsonValue,
    parent: &Vec<(String, JsonValue)>,
    config: &ProfileConfig,
    priority: Option<u64>,
) -> (row: ValueSampleRow)
    ensures
        row@ == value_sample_row(kind, document_index, source_path@, field_profile_id@, *value, parent@, *config, priority),
{
    let value_json_raw = to_json_string(value);
    let (value_json, value_json_truncated) = truncate_utf8(value_json_raw.as_str(), config.sampling.value_json_limit_bytes);
    let parent_json_raw = object_json_string(parent);
    let (parent_object_json, parent_object_json_truncated) = truncate_utf8(
        parent_json_raw.as_str(),
        config.sampling.parent_object_json_limit_bytes,
    );
    let hash = value_hash(value);
    let mut id_input = str_to_string(field_profile_id);
    push_char(&mut id_input, '\x1f');
    push_str(&mut id_input, kind.as_sql_str());
    push_char(&mut id_input, '\x1f');
    push_decimal(&mut id_input, document_index);
    push_char(&mut id_input, '\x1f');
    push_str(&mut id_input, source_path);
    push_char(&mut id_input, '\x1f');
    push_str(&mut id_input, hash.as_str());
    push_char(&mut id_input, '\x1f');
    match priority {
        Some(p) => push_decimal(&mut id_input, p),
        None => {},
    }
    assert(id_input@ =~= value_sample_id_input(field_profile_id@, kind, document_index, source_path@, hash@, priority));
    ValueSampleRow {
        value_sample_id: stable_hex(id_input.as_str().as_bytes()),
        field_profile_id: str_to_string(field_profile_id),
        value_hash: Some(hash),
        sample_kind: kind,
        document_index,
        source_path: str_to_string(source_path),
        value_json: Some(value_json),
        value_json_truncated,
        parent_object_json: Some(parent_object_json),
        parent_object_json_truncated,
        sample_priority: priority,
        sample_rank: None,
    }
}

// ----- the order of value sample rows -----

/// Rows by kind, rank, document index, source path and sample id.
pub open spec fn value_row_lt(a: ValueSampleRowView, b: ValueSampleRowView) -> bool {
    value_kind_rank(a.sample_kind) < value_kind_rank(b.sample_kind) || (a.sample_kind == b.sample_kind && (
    sample_rank_lt(a.sample_rank, b.sample_rank) || (a.sample_rank == b.sample_rank && (a.document_index
        < b.document_index || (a.document_index == b.document_index && (text_lt(a.source_path, b.source_path) || (
    a.source_path == b.source_path && text_lt(a.value_sample_id, b.value_sample_id))))))))
}

pub open spec fn value_row_le() -> spec_fn(ValueSampleRowView, ValueSampleRowView) -> bool {
    |a: ValueSampleRowView, b: ValueSampleRowView| !value_row_lt(b, a)
}

fn value_row_less(a: &ValueSampleRow, b: &ValueSampleRow) -> (less: bool)
    ensures
        less == value_row_lt(a@, b@),
{
    let kind_a = a.sample_kind.rank();
    let kind_b = b.sample_kind.rank();
    if kind_a != kind_b {
        return kind_a < kind_b;
    }
    if a.sample_rank != b.sample_rank {
        return match (a.sample_rank, b.sample_rank) {
            (None, Some(_)) => true,
            (Some(x), Some(y)) => x < y,
            _ => false,
        };
    }
    if a.document_index != b.document_index {
        return a.document_index < b.document_index;
    }
    let path = compare_text(a.source_path.as_str(), b.source_path.as_str());
    if path != 0 {
        return path == -1;
    }
    compare_text(a.value_sample_id.as_str(), b.value_sample_id.as_str()) == -1
}

proof fn lemma_value_row_order(a: ValueSampleRowView, b: ValueSampleRowView, c: ValueSampleRowView)
    ensures
        !value_row_lt(a, b) || !value_row_lt(b, a),
        !value_row_lt(b, a) && !value_row_lt(c, b) ==> !value_row_lt(c, a),
{
    lemma_texts_ordered(a.source_path, b.source_path, c.source_path);
    lemma_texts_ordered(a.value_sample_id, b.value_sample_id, c.value_sample_id);
}

impl SortKey for ValueSampleRow {
    open spec fn sort_le_spec(&self, other: &Self) -> bool {
        (value_row_le())(self@, other@)
    }

    fn sort_le(&self, other: &Self) -> (le: bool) {
        !value_row_less(other, self)
    }

    proof fn lemma_sort_le_total(a: &Self, b: &Self) {
        lemma_value_row_order(a@, b@, b@);
    }

    proof fn lemma_sort_le_transitive(a: &Self, b: &Self, c: &Self) {
        lemma_value_row_order(a@, b@, c@);
    }
}

// ----- the accumulator -----

/// What a value sample accumulator holds: its priority limit, whether the
/// first-seen and first-non-empty samples have been taken (ever: a drain
/// does not reset them), the priority sample, and the waiting rows.
pub struct ValueSampleState {
    pub limit: nat,
    pub first_seen_taken: bool,
    pub first_non_empty_taken: bool,
    pub priority: Seq<PriorityItem<ValueSampleRowView>>,
    pub rows: Seq<ValueSampleRowView>,
}

#[derive(Clone)]
pub struct ValueSampleAccumulator {
    priority_limit: usize,
    first_seen_taken: bool,
    first_non_empty_taken: bool,
    priority: PrioritySampler<ValueSampleRow>,
    rows: Vec<ValueSampleRow>,
}

/// The view of a row, as a function.
pub open spec fn row_view_fn() -> spec_fn(ValueSampleRow) -> ValueSampleRowView {
    |r: ValueSampleRow| r@
}

pub open spec fn item_view(item: PriorityItem<ValueSampleRow>) -> PriorityItem<ValueSampleRowView> {
    map_item(item, row_view_fn())
}

impl View for ValueSampleAccumulator {
    type V = ValueSampleState;

    closed spec fn view(&self) -> ValueSampleState {
        ValueSampleState {
            limit: self.priority_limit as nat,
            first_seen_taken: self.first_seen_taken,
            first_non_empty_taken: self.first_non_empty_taken,
            priority: map_items(self.priority.items(), row_view_fn()),
            rows: self.rows@.map_values(|r: ValueSampleRow| r@),
        }
    }
}

/// The number of waiting rows: the once-taken rows and the priority sample.
pub open spec fn value_pending_count(s: ValueSampleState) -> nat {
    s.rows.len() + s.priority.len()
}

/// The state after the first-seen and first-non-empty steps of an
/// observation.
pub open spec fn value_once_observed(
    s: ValueSampleState,
    document_index: u64,
    source_path: Seq<char>,
    field_profile_id: Seq<char>,
    value: JsonValue,
    parent: Seq<(String, JsonValue)>,
    config: ProfileConfig,
) -> ValueSampleState {
    let s1 = if !s.first_seen_taken {
        ValueSampleState {
            first_seen_taken: true,
            rows: s.rows.push(
                value_sample_row(ValueSampleKind::FirstSeen, document_index, source_path, field_profile_id, value, parent, config, None),
            ),
            ..s
        }
    } else {
        s
    };
    if value_non_empty(value) && !s1.first_non_empty_taken {
        ValueSampleState {
            first_non_empty_taken: true,
            rows: s1.rows.push(
                value_sample_row(
                    ValueSampleKind::FirstNonEmpty,
                    document_index,
                    source_path,
                    field_profile_id,
                    value,
                    parent,
                    config,
                    None,
                ),
            ),
            ..s1
        }
    } else {
        s1
    }
}

/// The priority candidate of an observation.
pub open spec fn value_candidate(
    document_index: u64,
    source_path: Seq<char>,
    field_profile_id: Seq<char>,
    value: JsonValue,
    parent: Seq<(String, JsonValue)>,
    config: ProfileConfig,
) -> PriorityItem<ValueSampleRowView> {
    let priority = value_sample_priority(field_profile_id, document_index, source_path);
    PriorityItem {
        priority,
        value: value_sample_row(
            ValueSampleKind::PrioritySample,
            document_index,
            source_path,
            field_profile_id,
            value,
            parent,
            config,
            Some(priority),
        ),
    }
}

/// An observation: the first-seen row the first time, the
/// first-non-empty row the first time the value is non-empty, and the
/// priority candidate offered to the sample.
pub open spec fn value_observed(
    s: ValueSampleState,
    document_index: u64,
    source_path: Seq<char>,
    field_profile_id: Seq<char>,
    value: JsonValue,
    parent: Seq<(String, JsonValue)>,
    config: ProfileConfig,
) -> ValueSampleState {
    let s2 = value_once_observed(s, document_index, source_path, field_profile_id, value, parent, config);
    let candidate = value_candidate(document_index, source_path, field_profile_id, value, parent, config);
    ValueSampleState { priority: pushed(s2.limit, s2.priority, candidate), ..s2 }
}

/// The rows an observation adds: the first-seen row the first time, the
/// first-non-empty row the first time the value is non-empty, and the
/// priority candidate when the sample admits it.
pub open spec fn value_rows_added(s: ValueSampleState, value: JsonValue, priority: u64) -> nat {
    (if !s.first_seen_taken { 1nat } else { 0nat }) + (if value_non_empty(value) && !s.first_non_empty_taken {
        1nat
    } else {
        0nat
    }) + (if admits(s.limit, s.priority, priority) { 1nat } else { 0nat })
}

/// The rows an observation removes: the sample's worst candidate, when an
/// admitted candidate replaces it in a full sample.
pub open spec fn value_rows_removed(s: ValueSampleState, priority: u64) -> nat {
    if admits(s.limit, s.priority, priority) && s.priority.len() >= s.limit {
        1nat
    } else {
        0nat
    }
}

/// The waiting rows stay bounded: at most one first-seen and one
/// first-non-empty row, and no more priority candidates than the limit.
pub open spec fn value_samples_bounded(s: ValueSampleState) -> bool {
    &&& s.priority.len() <= s.limit
    &&& s.rows.len() <= (if s.first_seen_taken { 1int } else { 0int }) + (if s.first_non_empty_taken { 1int } else { 0int })
}

/// Observing a value keeps the samples bounded, so at most two rows plus
/// the priority limit ever wait; the first-seen row is taken by the first
/// observation only, and the first-non-empty row by the first non-empty one.
pub proof fn lemma_value_samples_stay_bounded(
    s: ValueSampleState,
    document_index: u64,
    source_path: Seq<char>,
    field_profile_id: Seq<char>,
    value: JsonValue,
    parent: Seq<(String, JsonValue)>,
    config: ProfileConfig,
)
    requires
        value_samples_bounded(s),
    ensures
        ({
            let t = value_observed(s, document_index, source_path, field_profile_id, value, parent, config);
            &&& value_samples_bounded(t)
            &&& value_pending_count(t) <= 2 + t.limit
            &&& t.limit == s.limit
            &&& t.first_seen_taken
            &&& value_non_empty(value) ==> t.first_non_empty_taken
            &&& t.rows.len() >= s.rows.len() && t.rows.subrange(0, s.rows.len() as int) == s.rows
            &&& forall|i: int| s.rows.len() <= i < t.rows.len() ==> ((#[trigger] t.rows[i]).sample_kind
                == ValueSampleKind::FirstSeen ==> !s.first_seen_taken) && (t.rows[i].sample_kind
                == ValueSampleKind::FirstNonEmpty ==> !s.first_non_empty_taken)
        }),
{
    let candidate = value_candidate(document_index, source_path, field_profile_id, value, parent, config);
    if s.priority.len() > 0 {
        lemma_worst_index(s.priority);
    }
    let s2 = value_once_observed(s, document_index, source_path, field_profile_id, value, parent, config);
    assert(s2.rows.subrange(0, s.rows.len() as int) =~= s.rows);
}

/// The rows of the priority sample in priority order, ranked from 1.
pub open spec fn ranked_value_rows(items: Seq<PriorityItem<ValueSampleRowView>>) -> Seq<ValueSampleRowView> {
    let sorted = insertion_sorted(items);
    Seq::new(
        sorted.len(),
        |i: int| ValueSampleRowView { sample_rank: Some(#[verifier::truncate] ((i + 1) as u32)), ..sorted[i].value },
    )
}

/// Every waiting row, in row order.
pub open spec fn value_rows(s: ValueSampleState) -> Seq<ValueSampleRowView> {
    insertion_sorted_by(s.rows + ranked_value_rows(s.priority), value_row_le())
}

/// The waiting rows are the once-taken rows and the ranked priority
/// sample: as many as the pending count, so at most two more than the
/// priority limit.
pub proof fn lemma_value_rows_counted(s: ValueSampleState)
    requires
        value_samples_bounded(s),
    ensures
        value_rows(s).len() == value_pending_count(s),
        value_rows(s).len() <= 2 + s.limit,
{
    crate::util::sort::lemma_insertion_sorted_by_len(s.rows + ranked_value_rows(s.priority), value_row_le());
    crate::util::sort::lemma_insertion_sorted_by_len(s.priority, key_le::<PriorityItem<ValueSampleRowView>>());
}

fn priority_sample_row(
    priority: u64,
    document_index: u64,
    source_path: &str,
    field_profile_id: &str,
    value: &JsonValue,
    parent: &Vec<(String, JsonValue)>,
    config: &ProfileConfig,
) -> (row: ValueSampleRow)
    requires
        priority == value_sample_priority(field_profile_id@, document_index, source_path@),
    ensures
        (PriorityItem { priority, value: row@ }) == value_candidate(
            document_index,
            source_path@,
            field_profile_id@,
            *value,
            parent@,
            *config,
        ),
{
    make_value_sample_row(
        ValueSampleKind::PrioritySample,
        document_index,
        source_path,
        field_profile_id,
        value,
        parent,
        config,
        Some(priority),
    )
}

impl ValueSampleAccumulator {
    /// At most the two once-taken rows wait, and the priority sample holds at
    /// most `limit` items.
    pub closed spec fn wf(&self) -> bool {
        &&& self.priority.wf()
        &&& self.priority.limit() == self.priority_limit
        &&& self.rows@.len() <= (if self.first_seen_taken { 1int } else { 0int }) + (if self.first_non_empty_taken {
            1int
        } else {
            0int
        })
    }

    /// The waiting rows of a well-formed accumulator are bounded.
    pub proof fn lemma_bounded(&self)
        requires
            self.wf(),
        ensures
            value_samples_bounded(self@),
            value_rows(self@).len() == value_pending_count(self@),
            value_rows(self@).len() <= 2 + self@.limit,
    {
        assert(self@.priority.len() == self.priority.items().len());
        assert(self@.rows.len() == self.rows@.len());
        lemma_value_rows_counted(self@);
    }

    pub fn new(priority_limit: usize, heavy_hitter_context_limit: usize) -> (accumulator: Self)
        ensures
            accumulator.wf(),
            accumulator@ == (ValueSampleState {
                limit: priority_limit as nat,
                first_seen_taken: false,
                first_non_empty_taken: false,
                priority: Seq::empty(),
                rows: Seq::empty(),
            }),
    {
        let accumulator = ValueSampleAccumulator {
            priority_limit,
            first_seen_taken: false,
            first_non_empty_taken: false,
            priority: PrioritySampler::new(priority_limit),
            rows: Vec::new(),
        };
        assert(accumulator@.priority =~= Seq::<PriorityItem<ValueSampleRowView>>::empty());
        assert(accumulator@.rows =~= Seq::<ValueSampleRowView>::empty());
        accumulator
    }

    /// Samples one observed value with its parent object, and reports how
    /// the number of waiting rows changed.
    pub fn observe(
        &mut self,
        document_index: u64,
        source_path: &str,
        field_profile_id: &str,
        value: &JsonValue,
        parent: &Vec<(String, JsonValue)>,
        config: &ProfileConfig,
    ) -> (delta: PendingRowDelta)
        requires
            old(self).wf(),
        ensures
            final(self).wf(),
            final(self)@ == value_observed(old(self)@, document_index, source_path@, field_profile_id@, *value, parent@, *config),
            value_pending_count(final(self)@) + delta.removed == value_pending_count(old(self)@) + delta.added,
            delta.added == value_rows_added(old(self)@, *value, value_sample_priority(field_profile_id@, document_index, source_path@)),
            delta.removed == value_rows_removed(old(self)@, value_sample_priority(field_profile_id@, document_index, source_path@)),
            delta.added <= 3,
            delta.removed <= 1,
    {
        let added = self.take_once_samples(document_index, source_path, field_profile_id, value, parent, config);
        let (offered, removed) = self.offer_priority_sample(document_index, source_path, field_profile_id, value, parent, config);
        PendingRowDelta { added: added + offered, removed }
    }

    fn take_once_samples(
        &mut self,
        document_index: u64,
        source_path: &str,
        field_profile_id: &str,
        value: &JsonValue,
        parent: &Vec<(String, JsonValue)>,
        config: &ProfileConfig,
    ) -> (added: usize)
        requires
            old(self).wf(),
        ensures
            final(self).wf(),
            final(self)@ == value_once_observed(old(self)@, document_index, source_path@, field_profile_id@, *value, parent@, *config),
            value_pending_count(final(self)@) == value_pending_count(old(self)@) + added,
            added == (if !old(self)@.first_seen_taken { 1nat } else { 0nat }) + (if value_non_empty(*value)
                && !old(self)@.first_non_empty_taken {
                1nat
            } else {
                0nat
            }),
            added <= 2,
    {
        let ghost before = self@;
        let mut added: usize = 0;
        if !self.first_seen_taken {
            self.first_seen_taken = true;
            let row = make_value_sample_row(
                ValueSampleKind::FirstSeen,
                document_index,
                source_path,
                field_profile_id,
                value,
                parent,
                config,
                None,
            );
            self.rows.push(row);
            added = added + 1;
        }
        if value_is_non_empty(value) && !self.first_non_empty_taken {
            self.first_non_empty_taken = true;
            let row = make_value_sample_row(
                ValueSampleKind::FirstNonEmpty,
                document_index,
                source_path,
                field_profile_id,
                value,
                parent,
                config,
                None,
            );
            self.rows.push(row);
            added = added + 1;
        }
        assert(self@.rows =~= value_once_observed(before, document_index, source_path@, field_profile_id@, *value, parent@, *config).rows);
        added
    }

    fn offer_priority_sample(
        &mut self,
        document_index: u64,
        source_path: &str,
        field_profile_id: &str,
        value: &JsonValue,
        parent: &Vec<(String, JsonValue)>,
        config: &ProfileConfig,
    ) -> (counts: (usize, usize))
        requires
            old(self).wf(),
        ensures
            final(self).wf(),
            final(self)@ == (ValueSampleState {
                priority: pushed(
                    old(self)@.limit,
                    old(self)@.priority,
                    value_candidate(document_index, source_path@, field_profile_id@, *value, parent@, *config),
                ),
                ..old(self)@
            }),
            value_pending_count(final(self)@) + counts.1 == value_pending_count(old(self)@) + counts.0,
            counts.0 == (if admits(old(self)@.limit, old(self)@.priority, value_sample_priority(field_profile_id@, document_index, source_path@)) {
                1nat
            } else {
                0nat
            }),
            counts.1 == value_rows_removed(old(self)@, value_sample_priority(field_profile_id@, document_index, source_path@)),
            counts.0 <= 1,
            counts.1 <= 1,
    {
        if self.priority_limit == 0 {
            return (0, 0);
        }
        let priority = sample_priority(field_profile_id, document_index, source_path);
        proof {
            lemma_admits_map(self.priority.limit(), self.priority.items(), priority, row_view_fn());
        }
        if !self.priority.should_accept(priority) {
            return (0, 0);
        }
        let row = priority_sample_row(priority, document_index, source_path, field_profile_id, value, parent, config);
        self.push_priority_row(priority, row)
    }

    fn push_priority_row(&mut self, priority: u64, row: ValueSampleRow) -> (counts: (usize, usize))
        requires
            old(self).wf(),
            old(self).priority_limit > 0,
            admits(old(self)@.limit, old(self)@.priority, priority),
        ensures
            final(self).wf(),
            final(self)@ == (ValueSampleState {
                priority: pushed(old(self)@.limit, old(self)@.priority, PriorityItem { priority, value: row@ }),
                ..old(self)@
            }),
            value_pending_count(final(self)@) + counts.1 == value_pending_count(old(self)@) + counts.0,
            counts.0 == 1,
            counts.1 == (if old(self)@.priority.len() >= old(self)@.limit { 1nat } else { 0nat }),
    {
        let ghost before = self@;
        let full = self.priority.len() >= self.priority_limit;
        let ghost items = self.priority.items();
        let ghost item = PriorityItem { priority, value: row };
        proof {
            lemma_admits_map(self.priority.limit(), items, priority, row_view_fn());
        }
        self.priority.push(priority, row);
        proof {
            lemma_pushed_map(before.limit, items, item, row_view_fn());
            assert(map_item(item, row_view_fn()) == PriorityItem { priority, value: row@ });
        }
        assert(admits(before.limit, items, priority));
        assert(items.len() <= before.limit);
        if full {
            proof { crate::sketch::priority::lemma_worst_index(items); }
        }
        assert(self.priority.items() == pushed(before.limit, items, item));
        assert(self.priority.items().len() == if full { items.len() } else { items.len() + 1 });
        assert(self@.priority.len() == if full { before.priority.len() } else { before.priority.len() + 1 });
        if full {
            (1, 1)
        } else {
            (1, 0)
        }
    }

    fn ranked_priority_rows(&self) -> (rows: Vec<ValueSampleRow>)
        requires
            self.wf(),
        ensures
            rows@.map_values(|r: ValueSampleRow| r@) == ranked_value_rows(self@.priority),
    {
        let ranked = self.priority.ranked();
        let ghost items = self.priority.items();
        proof {
            lemma_insertion_sorted_map(
                items,
                |it: PriorityItem<ValueSampleRow>| item_view(it),
                key_le::<PriorityItem<ValueSampleRow>>(),
                key_le::<PriorityItem<ValueSampleRowView>>(),
            );
            assert(items.map_values(|it: PriorityItem<ValueSampleRow>| item_view(it)) =~= map_items(items, row_view_fn()));
        }
        let ghost sorted_views = insertion_sorted(self@.priority);
        let ghost ranked_all = ranked@;
        assert(forall|i: int| 0 <= i < ranked_all.len() ==> #[trigger] item_view(PriorityItem::without_rank(ranked_all[i])) == sorted_views[i]) by {
            assert forall|i: int| 0 <= i < ranked_all.len() implies #[trigger] item_view(PriorityItem::without_rank(ranked_all[i])) == sorted_views[i] by {
                assert(ranked_all.map_values(|r: RankedPriorityItem<ValueSampleRow>| PriorityItem::without_rank(r))[i]
                    == insertion_sorted(items)[i]);
            }
        }
        let mut rows: Vec<ValueSampleRow> = Vec::new();
        let mut rest = ranked;
        let mut index: usize = 0;
        assert(rest@.skip(0) =~= rest@);
        while rest.len() > 0
            invariant
                index + rest@.len() == ranked_all.len(),
                ranked_all.len() <= usize::MAX,
                ranked_all.len() == sorted_views.len(),
                rest@ == ranked_all.skip(index as int),
                forall|i: int| 0 <= i < ranked_all.len() ==> (#[trigger] ranked_all[i]).rank == #[verifier::truncate] ((i + 1) as u32),
                forall|i: int| 0 <= i < ranked_all.len() ==> #[trigger] item_view(PriorityItem::without_rank(ranked_all[i])) == sorted_views[i],
                rows@.len() == index,
                forall|i: int| 0 <= i < index ==> (#[trigger] rows@[i])@ == (ValueSampleRowView {
                    sample_rank: Some(#[verifier::truncate] ((i + 1) as u32)),
                    ..sorted_views[i].value
                }),
            decreases rest@.len(),
        {
            let item = rest.remove(0);
            assert(item == ranked_all[index as int]);
            assert(item_view(PriorityItem::without_rank(item)) == sorted_views[index as int]);
            let mut row = item.value;
            row.sample_rank = Some(item.rank);
            rows.push(row);
            proof {
                assert(rest@ =~= ranked_all.skip(index + 1));
            }
            index = index + 1;
        }
        assert(rows@.map_values(|r: ValueSampleRow| r@) =~= ranked_value_rows(self@.priority));
        rows
    }

    /// Every waiting row, in row order.
    pub fn rows(&self) -> (rows: Vec<ValueSampleRow>)
        requires
            self.wf(),
        ensures
            rows@.map_values(|r: ValueSampleRow| r@) == value_rows(self@),
            rows@.len() == value_pending_count(self@),
            forall|i: int, j: int| #![trigger rows@[i], rows@[j]] 0 <= i < j < rows@.len() ==> (value_row_le())(
                rows@[i]@,
                rows@[j]@,
            ),
    {
        proof {
            self.lemma_bounded();
        }
        let mut rows: Vec<ValueSampleRow> = Vec::new();
        let mut index: usize = 0;
        while index < self.rows.len()
            invariant
                index <= self.rows@.len(),
                rows@.len() == index,
                forall|k: int| 0 <= k < index ==> (#[trigger] rows@[k])@ == self.rows@[k]@,
            decreases self.rows@.len() - index,
        {
            rows.push(self.rows[index].duplicate());
            index = index + 1;
        }
        let mut ranked = self.ranked_priority_rows();
        let ghost once_views = rows@.map_values(|r: ValueSampleRow| r@);
        assert(once_views =~= self@.rows);
        let ghost ranked_views = ranked@.map_values(|r: ValueSampleRow| r@);
        rows.append(&mut ranked);
        let ghost unsorted = rows@;
        assert(unsorted.map_values(|r: ValueSampleRow| r@) =~= once_views + ranked_views);
        let sorted = sort_rows(rows);
        proof {
            lemma_insertion_sorted_map(unsorted, |r: ValueSampleRow| r@, key_le::<ValueSampleRow>(), value_row_le());
        }
        sorted
    }

    /// Every waiting row, in row order; the waiting rows and the priority
    /// sample are emptied (the first-seen and first-non-empty samples stay
    /// taken).
    pub fn drain_rows(&mut self) -> (rows: Vec<ValueSampleRow>)
        requires
            old(self).wf(),
        ensures
            rows@.map_values(|r: ValueSampleRow| r@) == value_rows(old(self)@),
            rows@.len() == value_pending_count(old(self)@),
            final(self).wf(),
            final(self)@ == (ValueSampleState { priority: Seq::empty(), rows: Seq::empty(), ..old(self)@ }),
            value_pending_count(final(self)@) == 0,
    {
        let rows = self.rows();
        self.rows.clear();
        self.priority.clear();
        assert(self@.priority =~= Seq::<PriorityItem<ValueSampleRowView>>::empty());
        assert(self@.rows =~= Seq::<ValueSampleRowView>::empty());
        rows
    }

    /// The number of waiting rows, or `usize::MAX` when it does not fit.
    pub fn pending_row_count(&self) -> (count: usize)
        requires
            self.wf(),
        ensures
            count == (if value_pending_count(self@) <= usize::MAX { value_pending_count(self@) } else { usize::MAX as nat }),
    {
        let once = self.rows.len();
        let sampled = self.priority.len();
        if once > usize::MAX - sampled {
            usize::MAX
        } else {
            once + sampled
        }
    }
}


/// A value that is `null`, an object with no members or an array with no
/// items is never a first-non-empty sample; any other value (an empty
/// string included) is, when none was taken before. Observing a value adds
/// a first-non-empty row exactly then, and once taken the sample stays
/// taken.
pub proof fn lemma_first_non_empty_skips_empty_values(
    s: ValueSampleState,
    document_index: u64,
    source_path: Seq<char>,
    field_profile_id: Seq<char>,
    value: JsonValue,
    parent: Seq<(String, JsonValue)>,
    config: ProfileConfig,
)
    ensures
        ({
            let t = value_observed(s, document_index, source_path, field_profile_id, value, parent, config);
            let empty = value is Null || (value matches JsonValue::Object(fields) && fields@.len() == 0) || (
            value matches JsonValue::Array(items) && items@.len() == 0);
            &&& t.first_non_empty_taken == (s.first_non_empty_taken || !empty)
            &&& (exists|i: int| s.rows.len() <= i < t.rows.len() && (#[trigger] t.rows[i]).sample_kind
                == ValueSampleKind::FirstNonEmpty) <==> (!s.first_non_empty_taken && !empty)
            &&& forall|i: int| s.rows.len() <= i < t.rows.len() && (#[trigger] t.rows[i]).sample_kind
                == ValueSampleKind::FirstNonEmpty ==> t.rows[i].document_index == document_index
                && t.rows[i].source_path == source_path
        }),
{
    let t = value_observed(s, document_index, source_path, field_profile_id, value, parent, config);
    let s1 = if !s.first_seen_taken {
        ValueSampleState {
            first_seen_taken: true,
            rows: s.rows.push(
                value_sample_row(ValueSampleKind::FirstSeen, document_index, source_path, field_profile_id, value, parent, config, None),
            ),
            ..s
        }
    } else {
        s
    };
    if value_non_empty(value) && !s.first_non_empty_taken {
        let i = s1.rows.len() as int;
        assert(t.rows[i].sample_kind == ValueSampleKind::FirstNonEmpty);
    }
}

// ----- the rows of a run of observations -----

/// The state after `observations` are observed in order, each given as its
/// document index, source path, field profile id, value and parent object.
pub open spec fn value_observed_all(
    s: ValueSampleState,
    observations: Seq<(u64, Seq<char>, Seq<char>, JsonValue, Seq<(String, JsonValue)>)>,
    config: ProfileConfig,
) -> ValueSampleState
    decreases observations.len(),
{
    if observations.len() == 0 {
        s
    } else {
        let o = observations.last();
        value_observed(value_observed_all(s, observations.drop_last(), config), o.0, o.1, o.2, o.3, o.4, config)
    }
}

/// The priority candidates of `observations`, in order.
pub open spec fn value_candidates(
    observations: Seq<(u64, Seq<char>, Seq<char>, JsonValue, Seq<(String, JsonValue)>)>,
    config: ProfileConfig,
) -> Seq<PriorityItem<ValueSampleRowView>> {
    observations.map_values(
        |o: (u64, Seq<char>, Seq<char>, JsonValue, Seq<(String, JsonValue)>)| value_candidate(o.0, o.1, o.2, o.3, o.4, config),
    )
}

/// A fresh accumulator state with priority limit `limit`.
pub open spec fn fresh_value_samples(limit: nat) -> ValueSampleState {
    ValueSampleState { limit, first_seen_taken: false, first_non_empty_taken: false, priority: Seq::empty(), rows: Seq::empty() }
}

proof fn lemma_value_observed_all_parts(
    limit: nat,
    observations: Seq<(u64, Seq<char>, Seq<char>, JsonValue, Seq<(String, JsonValue)>)>,
    config: ProfileConfig,
)
    ensures
        ({
            let t = value_observed_all(fresh_value_samples(limit), observations, config);
            &&& t.limit == limit
            &&& t.priority == pushed_all(limit, value_candidates(observations, config))
            &&& t.rows.len() <= 2
            &&& (t.rows.len() > 0 <==> observations.len() > 0)
            &&& t.first_seen_taken == (observations.len() > 0)
            &&& t.rows.len() == (if t.first_seen_taken { 1int } else { 0int }) + (if t.first_non_empty_taken { 1int } else { 0int })
            &&& t.rows.len() > 0 ==> t.rows[0].sample_kind == ValueSampleKind::FirstSeen
            &&& t.rows.len() > 1 ==> t.rows[1].sample_kind == ValueSampleKind::FirstNonEmpty
        }),
    decreases observations.len(),
{
    if observations.len() > 0 {
        let init = observations.drop_last();
        lemma_value_observed_all_parts(limit, init, config);
        assert(value_candidates(observations, config).drop_last() =~= value_candidates(init, config));
        assert(value_candidates(observations, config).last() == {
            let o = observations.last();
            value_candidate(o.0, o.1, o.2, o.3, o.4, config)
        });
    } else {
        assert(value_candidates(observations, config) =~= Seq::<PriorityItem<ValueSampleRowView>>::empty());
    }
}

/// The rows waiting after `m` observations of a fresh accumulator with
/// priority limit `limit` (and no drain): one first-seen row (when `m > 0`),
/// at most one first-non-empty row, and the `min(limit, m)` priority
/// candidates with the smallest priorities, each with its own row, ranked
/// from 1 in ascending priority; no heavy hitter context row. The rows are
/// these, in row order.
pub proof fn lemma_value_rows_by_kind(
    limit: nat,
    observations: Seq<(u64, Seq<char>, Seq<char>, JsonValue, Seq<(String, JsonValue)>)>,
    config: ProfileConfig,
)
    ensures
        ({
            let t = value_observed_all(fresh_value_samples(limit), observations, config);
            let ranked = ranked_value_rows(t.priority);
            &&& t.priority == pushed_all(limit, value_candidates(observations, config))
            &&& t.priority.len() == if observations.len() < limit { observations.len() } else { limit }
            &&& forall|item: PriorityItem<ValueSampleRowView>| #[trigger] t.priority.to_multiset().count(item)
                <= value_candidates(observations, config).to_multiset().count(item)
            &&& (observations.len() > 0 <==> t.rows.len() > 0)
            &&& t.rows.len() <= 2
            &&& t.rows.len() > 0 ==> t.rows[0].sample_kind == ValueSampleKind::FirstSeen
            &&& t.rows.len() > 1 ==> t.rows[1].sample_kind == ValueSampleKind::FirstNonEmpty
            &&& ranked.len() == t.priority.len()
            &&& forall|i: int| 0 <= i < ranked.len() ==> (#[trigger] ranked[i]).sample_kind == ValueSampleKind::PrioritySample
                && ranked[i].sample_priority is Some
            &&& forall|i: int, j: int| 0 <= i < j < ranked.len() ==> (#[trigger] ranked[i]).sample_priority->Some_0
                <= (#[trigger] ranked[j]).sample_priority->Some_0
            &&& value_rows(t).len() == t.rows.len() + t.priority.len()
            &&& value_rows(t).to_multiset() == (t.rows + ranked).to_multiset()
            &&& forall|i: int| 0 <= i < value_rows(t).len() ==> (#[trigger] value_rows(t)[i]).sample_kind
                != ValueSampleKind::HeavyHitterContext
        }),
{
    broadcast use vstd::seq_lib::group_to_multiset_ensures;
    let t = value_observed_all(fresh_value_samples(limit), observations, config);
    let candidates = value_candidates(observations, config);
    lemma_value_observed_all_parts(limit, observations, config);
    crate::sketch::priority::lemma_pushed_all_smallest(limit, candidates);
    crate::sketch::priority::lemma_pushed_all_keeps_pairs(limit, candidates);
    let ranked = ranked_value_rows(t.priority);
    crate::util::sort::lemma_insertion_sorted_by_len(t.priority, key_le::<PriorityItem<ValueSampleRowView>>());
    let sorted = insertion_sorted(t.priority);
    crate::util::sort::lemma_insertion_sorted(t.priority);
    assert forall|i: int| 0 <= i < sorted.len() implies (#[trigger] sorted[i]).value.sample_kind == ValueSampleKind::PrioritySample
        && sorted[i].value.sample_priority == Some(sorted[i].priority) by {
        assert(sorted.contains(sorted[i]));
        vstd::seq_lib::to_multiset_contains(sorted, sorted[i]);
        vstd::seq_lib::to_multiset_contains(t.priority, sorted[i]);
        let k = choose|k: int| 0 <= k < t.priority.len() && t.priority[k] == sorted[i];
        assert(candidates.contains(#[trigger] t.priority[k]));
        let j = choose|j: int| 0 <= j < candidates.len() && candidates[j] == t.priority[k];
        assert(candidates[j].value.sample_kind == ValueSampleKind::PrioritySample);
    }
    assert forall|i: int| 0 <= i < ranked.len() implies (#[trigger] ranked[i]).sample_kind == ValueSampleKind::PrioritySample
        && ranked[i].sample_priority is Some by {
        assert(ranked[i].sample_kind == sorted[i].value.sample_kind);
    }
    assert forall|i: int, j: int| 0 <= i < j < ranked.len() implies (#[trigger] ranked[i]).sample_priority->Some_0
        <= (#[trigger] ranked[j]).sample_priority->Some_0 by {
        assert(sorted[i].sort_le_spec(&sorted[j]));
        assert(ranked[i].sample_priority == sorted[i].value.sample_priority);
        assert(ranked[j].sample_priority == sorted[j].value.sample_priority);
    }
    let all = t.rows + ranked;
    assert(total_preorder(value_row_le())) by {
        assert forall|a: ValueSampleRowView, b: ValueSampleRowView| #[trigger] (value_row_le())(a, b) || (value_row_le())(b, a) by {
            lemma_value_row_order(a, b, b);
        }
        assert forall|a: ValueSampleRowView, b: ValueSampleRowView, c: ValueSampleRowView| #[trigger] (value_row_le())(a, b)
            && #[trigger] (value_row_le())(b, c) implies (value_row_le())(a, c) by {
            lemma_value_row_order(a, b, c);
        }
    }
    crate::util::sort::lemma_insertion_sorted_by(all, value_row_le());
    crate::util::sort::lemma_insertion_sorted_by_len(all, value_row_le());
    let rows = value_rows(t);
    assert forall|i: int| 0 <= i < rows.len() implies (#[trigger] rows[i]).sample_kind != ValueSampleKind::HeavyHitterContext by {
        assert(rows.contains(rows[i]));
        vstd::seq_lib::to_multiset_contains(rows, rows[i]);
        vstd::seq_lib::to_multiset_contains(all, rows[i]);
        let k = choose|k: int| 0 <= k < all.len() && all[k] == rows[i];
        if k >= t.rows.len() {
            assert(all[k] == ranked[k - t.rows.len()]);
        }
    }
}

} // verus!
