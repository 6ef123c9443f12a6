//! The rows a flush writes, and what a flush must prune afterwards.

use vstd::prelude::*;

use crate::config::SamplingConfig;
use crate::field::accumulator::ShapeFieldRow;
use crate::field::summary::FieldSummary;
use crate::shape::accumulator::ShapeRow;
use crate::shape::sample::{ObjectSampleKind, ObjectSampleRow, SampleScope, scope_rank};
use crate::util::sort::{OrderedKey, SortKey, TextPairRow, TextRow, sorted_distinct, strictly_ascending, view_set};
use crate::util::text::{compare_text, lemma_text_lt_order, text_lt};
use crate::value::exact_counter::FieldValueRow;
use crate::value::sample::{ValueSampleKind, ValueSampleRow};

verus! {

/// The rows of one flush.
#[derive(Debug)]
pub struct ProfileChunk {
    pub shapes: Vec<ShapeRow>,
    pub shape_fields: Vec<ShapeFieldRow>,
    pub object_samples: Vec<ObjectSampleRow>,
    pub field_summaries: Vec<FieldSummary>,
    pub field_values: Vec<FieldValueRow>,
    pub value_samples: Vec<ValueSampleRow>,
}

impl ProfileChunk {
    /// A chunk without rows.
    pub fn new() -> (chunk: Self)
        ensures
            chunk.is_empty_spec(),
    {
        ProfileChunk {
            shapes: Vec::new(),
            shape_fields: Vec::new(),
            object_samples: Vec::new(),
            field_summaries: Vec::new(),
            field_values: Vec::new(),
            value_samples: Vec::new(),
        }
    }

    pub open spec fn is_empty_spec(&self) -> bool {
        &&& self.shapes@.len() == 0
        &&& self.shape_fields@.len() == 0
        &&& self.object_samples@.len() == 0
        &&& self.field_summaries@.len() == 0
        &&& self.field_values@.len() == 0
        &&& self.value_samples@.len() == 0
    }

    /// Whether the chunk has no row of any kind.
    pub fn is_empty(&self) -> (empty: bool)
        ensures
            empty == self.is_empty_spec(),
    {
        self.shapes.len() == 0 && self.shape_fields.len() == 0 && self.object_samples.len() == 0
            && self.field_summaries.len() == 0 && self.field_values.len() == 0 && self.value_samples.len() == 0
    }
}

impl Default for ProfileChunk {
    fn default() -> (chunk: Self)
        ensures
            chunk.is_empty_spec(),
    {
        ProfileChunk::new()
    }
}

/// Totals counted while scanning.
#[derive(Debug, Clone, Copy, PartialEq, Eq, Structural)]
pub struct SourceCounters {
    pub total_document_count: u64,
    pub total_object_count: u64,
    pub total_array_count: u64,
    pub total_scalar_count: u64,
}

impl Default for SourceCounters {
    fn default() -> (counters: Self)
        ensures
            counters == (SourceCounters {
                total_document_count: 0,
                total_object_count: 0,
                total_array_count: 0,
                total_scalar_count: 0,
            }),
    {
        SourceCounters { total_document_count: 0, total_object_count: 0, total_array_count: 0, total_scalar_count: 0 }
    }
}

/// The priority sample limit of each object sample scope.
#[derive(Debug, Clone, Copy, PartialEq, Eq, Structural)]
pub struct ObjectSamplePriorityLimits {
    pub canonical_path: usize,
    pub site_path: usize,
    pub field_set: usize,
    pub type_set: usize,
}

impl ObjectSamplePriorityLimits {
    /// The limits a sampling configuration sets.
    pub fn from_sampling(sampling: &SamplingConfig) -> (limits: Self)
        ensures
            limits.canonical_path == sampling.canonical_priority_limit,
            limits.site_path == sampling.site_priority_limit,
            limits.field_set == sampling.field_set_priority_limit,
            limits.type_set == sampling.type_set_priority_limit,
    {
        ObjectSamplePriorityLimits {
            canonical_path: sampling.canonical_priority_limit,
            site_path: sampling.site_priority_limit,
            field_set: sampling.field_set_priority_limit,
            type_set: sampling.type_set_priority_limit,
        }
    }

    pub fn limit_for(self, scope: SampleScope) -> (limit: usize)
        ensures
            limit == match scope {
                SampleScope::CanonicalPath => self.canonical_path,
                SampleScope::SitePath => self.site_path,
                SampleScope::FieldSet => self.field_set,
                SampleScope::TypeSet => self.type_set,
            },
    {
        match scope {
            SampleScope::CanonicalPath => self.canonical_path,
            SampleScope::SitePath => self.site_path,
            SampleScope::FieldSet => self.field_set,
            SampleScope::TypeSet => self.type_set,
        }
    }
}

/// A counter as a SQLite integer. Counters above `i64::MAX` cannot be
/// stored.
pub fn as_i64(value: u64) -> (stored: i64)
    requires
        value <= i64::MAX,
    ensures
        stored == value,
{
    value as i64
}

/// A flag as a SQLite integer: 1 or 0.
pub fn bool_i64(value: bool) -> (stored: i64)
    ensures
        stored == (if value { 1int } else { 0int }),
{
    if value {
        1
    } else {
        0
    }
}

/// An object priority sample key: its scope and sample key.
#[derive(Debug)]
pub struct ObjectPriorityKey {
    pub scope: SampleScope,
    pub key: String,
}

impl View for ObjectPriorityKey {
    type V = (SampleScope, Seq<char>);

    open spec fn view(&self) -> (SampleScope, Seq<char>) {
        (self.scope, self.key@)
    }
}

/// Keys by scope, then by sample key.
impl SortKey for ObjectPriorityKey {
    open spec fn sort_le_spec(&self, other: &Self) -> bool {
        scope_rank(self.scope) < scope_rank(other.scope) || (self.scope == other.scope && !text_lt(other.key@, self.key@))
    }

    fn sort_le(&self, other: &Self) -> (le: bool) {
        let a: u8 = match self.scope {
            SampleScope::CanonicalPath => 0,
            SampleScope::SitePath => 1,
            SampleScope::FieldSet => 2,
            SampleScope::TypeSet => 3,
        };
        let b: u8 = match other.scope {
            SampleScope::CanonicalPath => 0,
            SampleScope::SitePath => 1,
            SampleScope::FieldSet => 2,
            SampleScope::TypeSet => 3,
        };
        a < b || (a == b && compare_text(other.key.as_str(), self.key.as_str()) != -1)
    }

    proof fn lemma_sort_le_total(a: &Self, b: &Self) {
        lemma_text_lt_order(a.key@, b.key@);
    }

    proof fn lemma_sort_le_transitive(a: &Self, b: &Self, c: &Self) {
        crate::shape::sample::lemma_texts_ordered(a.key@, b.key@, c.key@);
    }
}

impl OrderedKey for ObjectPriorityKey {
    fn same_as(&self, other: &Self) -> (same: bool) {
        self.scope == other.scope && compare_text(self.key.as_str(), other.key.as_str()) == 0
    }

    proof fn lemma_sort_le_antisymmetric(a: &Self, b: &Self) {
        lemma_text_lt_order(a.key@, b.key@);
    }

    proof fn lemma_sort_le_same_view(a: &Self, b: &Self) {
        lemma_text_lt_order(a.key@, b.key@);
    }
}

/// The `(scope, key)` of every object priority sample among `rows`.
pub open spec fn object_priority_keys(rows: Seq<ObjectSampleRow>) -> Set<(SampleScope, Seq<char>)> {
    Set::new(|k: (SampleScope, Seq<char>)| exists|i: int| 0 <= i < rows.len() && (#[trigger] rows[i]).sample_kind
        == ObjectSampleKind::PrioritySample && (rows[i].sample_scope, rows[i].sample_key@) == k)
}

/// The field profile of every value priority sample among `rows`.
pub open spec fn value_priority_fields(rows: Seq<ValueSampleRow>) -> Set<Seq<char>> {
    Set::new(|k: Seq<char>| exists|i: int| 0 <= i < rows.len() && (#[trigger] rows[i]).sample_kind
        == ValueSampleKind::PrioritySample && rows[i].field_profile_id@ == k)
}

/// The `(field profile, value hash)` of every heavy-hitter context sample
/// among `rows` that has a value hash.
pub open spec fn heavy_hitter_context_keys(rows: Seq<ValueSampleRow>) -> Set<(Seq<char>, Seq<char>)> {
    Set::new(|k: (Seq<char>, Seq<char>)| exists|i: int| 0 <= i < rows.len() && (#[trigger] rows[i]).sample_kind
        == ValueSampleKind::HeavyHitterContext && rows[i].value_hash is Some && (
    rows[i].field_profile_id@, rows[i].value_hash->Some_0@) == k)
}

/// The sample keys a flush touched, each once and in ascending order: those
/// whose priority samples (and heavy-hitter context samples) must be
/// pruned back to their limits after the chunk is written.
#[derive(Debug)]
pub struct TouchedSampleKeys {
    pub object_priority: Vec<ObjectPriorityKey>,
    pub value_priority_fields: Vec<TextRow>,
    pub heavy_hitter_context: Vec<TextPairRow>,
}

impl TouchedSampleKeys {
    pub fn from_chunk(chunk: &ProfileChunk) -> (keys: Self)
        ensures
            strictly_ascending(keys.object_priority@),
            view_set(keys.object_priority@) == object_priority_keys(chunk.object_samples@),
            strictly_ascending(keys.value_priority_fields@),
            view_set(keys.value_priority_fields@) == value_priority_fields(chunk.value_samples@),
            strictly_ascending(keys.heavy_hitter_context@),
            view_set(keys.heavy_hitter_context@) == heavy_hitter_context_keys(chunk.value_samples@),
    {
        let rows = &chunk.object_samples;
        let mut object_keys: Vec<ObjectPriorityKey> = Vec::new();
        let mut index: usize = 0;
        while index < rows.len()
            invariant
                index <= rows@.len(),
                forall|k: (SampleScope, Seq<char>)| #[trigger] view_set(object_keys@).contains(k) == object_priority_keys(
                    rows@.subrange(0, index as int),
                ).contains(k),
            decreases rows@.len() - index,
        {
            let ghost before = object_keys@;
            let row = &rows[index];
            let ghost prefix = rows@.subrange(0, index as int);
            let ghost next = rows@.subrange(0, index + 1);
            if row.sample_kind == ObjectSampleKind::PrioritySample {
                object_keys.push(ObjectPriorityKey { scope: row.sample_scope, key: row.sample_key.clone() });
            }
            proof {
                assert forall|k: (SampleScope, Seq<char>)| #[trigger] view_set(object_keys@).contains(k)
                    == object_priority_keys(next).contains(k) by {
                    if object_priority_keys(next).contains(k) {
                        let i = choose|i: int| 0 <= i < next.len() && (#[trigger] next[i]).sample_kind
                            == ObjectSampleKind::PrioritySample && (next[i].sample_scope, next[i].sample_key@) == k;
                        if i < index {
                            assert(prefix[i] == next[i]);
                            assert(object_priority_keys(prefix).contains(k));
                            assert(view_set(before).contains(k));
                            let j = choose|j: int| 0 <= j < before.len() && (#[trigger] before[j])@ == k;
                            assert(object_keys@[j] == before[j]);
                        } else {
                            assert(object_keys@[object_keys@.len() - 1]@ == k);
                        }
                    }
                    if view_set(object_keys@).contains(k) {
                        let j = choose|j: int| 0 <= j < object_keys@.len() && (#[trigger] object_keys@[j])@ == k;
                        if j < before.len() {
                            assert(object_keys@[j] == before[j]);
                            assert(view_set(before).contains(k));
                            let i = choose|i: int| 0 <= i < prefix.len() && (#[trigger] prefix[i]).sample_kind
                                == ObjectSampleKind::PrioritySample && (prefix[i].sample_scope, prefix[i].sample_key@) == k;
                            assert(next[i] == prefix[i]);
                        } else {
                            assert(next[index as int] == rows@[index as int]);
                        }
                    }
                }
            }
            index = index + 1;
        }
        assert(rows@.subrange(0, rows@.len() as int) =~= rows@);
        assert(view_set(object_keys@) =~= object_priority_keys(rows@));
        let object_priority = sorted_distinct(object_keys);

        let values = &chunk.value_samples;
        let mut fields: Vec<TextRow> = Vec::new();
        let mut pairs: Vec<TextPairRow> = Vec::new();
        let mut index: usize = 0;
        while index < values.len()
            invariant
                index <= values@.len(),
                forall|k: Seq<char>| #[trigger] view_set(fields@).contains(k) == value_priority_fields(
                    values@.subrange(0, index as int),
                ).contains(k),
                forall|k: (Seq<char>, Seq<char>)| #[trigger] view_set(pairs@).contains(k) == heavy_hitter_context_keys(
                    values@.subrange(0, index as int),
                ).contains(k),
            decreases values@.len() - index,
        {
            let ghost before_fields = fields@;
            let ghost before_pairs = pairs@;
            let row = &values[index];
            let ghost prefix = values@.subrange(0, index as int);
            let ghost next = values@.subrange(0, index + 1);
            if row.sample_kind == ValueSampleKind::PrioritySample {
                fields.push(TextRow { text: row.field_profile_id.clone() });
            }
            if row.sample_kind == ValueSampleKind::HeavyHitterContext {
                match &row.value_hash {
                    Some(hash) => {
                        pairs.push(TextPairRow { first: row.field_profile_id.clone(), second: hash.clone() });
                    },
                    None => {},
                }
            }
            proof {
                assert forall|k: Seq<char>| #[trigger] view_set(fields@).contains(k) == value_priority_fields(next).contains(k) by {
                    if value_priority_fields(next).contains(k) {
                        let i = choose|i: int| 0 <= i < next.len() && (#[trigger] next[i]).sample_kind
                            == ValueSampleKind::PrioritySample && next[i].field_profile_id@ == k;
                        if i < index {
                            assert(prefix[i] == next[i]);
                            assert(value_priority_fields(prefix).contains(k));
                            assert(view_set(before_fields).contains(k));
                            let j = choose|j: int| 0 <= j < before_fields.len() && (#[trigger] before_fields[j])@ == k;
                            assert(fields@[j] == before_fields[j]);
                        } else {
                            assert(fields@[fields@.len() - 1]@ == k);
                        }
                    }
                    if view_set(fields@).contains(k) {
                        let j = choose|j: int| 0 <= j < fields@.len() && (#[trigger] fields@[j])@ == k;
                        if j < before_fields.len() {
                            assert(fields@[j] == before_fields[j]);
                            assert(view_set(before_fields).contains(k));
                            let i = choose|i: int| 0 <= i < prefix.len() && (#[trigger] prefix[i]).sample_kind
                                == ValueSampleKind::PrioritySample && prefix[i].field_profile_id@ == k;
                            assert(next[i] == prefix[i]);
                        } else {
                            assert(next[index as int] == values@[index as int]);
                        }
                    }
                }
                assert forall|k: (Seq<char>, Seq<char>)| #[trigger] view_set(pairs@).contains(k)
                    == heavy_hitter_context_keys(next).contains(k) by {
                    if heavy_hitter_context_keys(next).contains(k) {
                        let i = choose|i: int| 0 <= i < next.len() && (#[trigger] next[i]).sample_kind
                            == ValueSampleKind::HeavyHitterContext && next[i].value_hash is Some && (
                        next[i].field_profile_id@, next[i].value_hash->Some_0@) == k;
                        if i < index {
                            assert(prefix[i] == next[i]);
                            assert(heavy_hitter_context_keys(prefix).contains(k));
                            assert(view_set(before_pairs).contains(k));
                            let j = choose|j: int| 0 <= j < before_pairs.len() && (#[trigger] before_pairs[j])@ == k;
                            assert(pairs@[j] == before_pairs[j]);
                        } else {
                            assert(pairs@[pairs@.len() - 1]@ == k);
                        }
                    }
                    if view_set(pairs@).contains(k) {
                        let j = choose|j: int| 0 <= j < pairs@.len() && (#[trigger] pairs@[j])@ == k;
                        if j < before_pairs.len() {
                            assert(pairs@[j] == before_pairs[j]);
                            assert(view_set(before_pairs).contains(k));
                            let i = choose|i: int| 0 <= i < prefix.len() && (#[trigger] prefix[i]).sample_kind
                                == ValueSampleKind::HeavyHitterContext && prefix[i].value_hash is Some && (
                            prefix[i].field_profile_id@, prefix[i].value_hash->Some_0@) == k;
                            assert(next[i] == prefix[i]);
                        } else {
                            assert(next[index as int] == values@[index as int]);
                        }
                    }
                }
            }
            index = index + 1;
        }
        assert(values@.subrange(0, values@.len() as int) =~= values@);
        assert(view_set(fields@) =~= value_priority_fields(values@));
        assert(view_set(pairs@) =~= heavy_hitter_context_keys(values@));
        let value_priority_fields = sorted_distinct(fields);
        let heavy_hitter_context = sorted_distinct(pairs);
        TouchedSampleKeys { object_priority, value_priority_fields, heavy_hitter_context }
    }
}

} // verus!
