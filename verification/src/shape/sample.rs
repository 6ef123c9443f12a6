//! Object samples: the first object seen and the first non-empty object per
//! sample key, and a bounded priority sample per sample key, for four
//! nested scopes of keys.

use vstd::prelude::*;

use crate::config::SamplingConfig;
use crate::error::ProfileError;
use crate::field::id::sep;
use crate::refs::resolver::{ResolvedObjectContext, opt_text_view};
use crate::shape::id::{ShapeFacts, hash_text, optional_text};
use crate::util::dup::Duplicate;
use crate::util::hash::{fnv64, stable_hex, stable_u64};
use crate::util::json_value::{JsonValue, json_fields_text, object_json_string};
use crate::util::sort::{
    SortKey, insertion_sorted, insertion_sorted_by, key_le, lemma_insertion_sorted_map, sort_rows, sorted_by_key, total_preorder,
};
use crate::util::text::{compare_text, dec_text, lemma_text_lt_order, lemma_text_lt_transitive, push_char, push_decimal, push_str, str_to_string, text_lt};
use crate::util::truncate::{truncate_utf8, truncated_text};
use vstd::utf8::encode_utf8;

verus! {

#[derive(Debug, Clone, Copy, PartialEq, Eq, Structural, Hash, PartialOrd, Ord)]
pub enum SampleScope {
    CanonicalPath,
    SitePath,
    FieldSet,
    TypeSet,
}

#[derive(Debug, Clone, Copy, PartialEq, Eq, Structural, Hash, PartialOrd, Ord)]
pub enum ObjectSampleKind {
    FirstSeen,
    FirstNonEmpty,
    PrioritySample,
}

pub open spec fn scope_name(scope: SampleScope) -> Seq<char> {
    match scope {
        SampleScope::CanonicalPath => "canonical_path"@,
        SampleScope::SitePath => "site_path"@,
        SampleScope::FieldSet => "field_set"@,
        SampleScope::TypeSet => "type_set"@,
    }
}

/// Scopes in declaration order, from the widest to the narrowest.
pub open spec fn scope_rank(scope: SampleScope) -> int {
    match scope {
        SampleScope::CanonicalPath => 0,
        SampleScope::SitePath => 1,
        SampleScope::FieldSet => 2,
        SampleScope::TypeSet => 3,
    }
}

pub open spec fn kind_name(kind: ObjectSampleKind) -> Seq<char> {
    match kind {
        ObjectSampleKind::FirstSeen => "first_seen"@,
        ObjectSampleKind::FirstNonEmpty => "first_non_empty"@,
        ObjectSampleKind::PrioritySample => "priority_sample"@,
    }
}

pub open spec fn kind_rank(kind: ObjectSampleKind) -> int {
    match kind {
        ObjectSampleKind::FirstSeen => 0,
        ObjectSampleKind::FirstNonEmpty => 1,
        ObjectSampleKind::PrioritySample => 2,
    }
}

impl SampleScope {
    pub fn as_sql_str(self) -> (name: &'static str)
        ensures
            name@ == scope_name(self),
    {
        match self {
            SampleScope::CanonicalPath => "canonical_path",
            SampleScope::SitePath => "site_path",
            SampleScope::FieldSet => "field_set",
            SampleScope::TypeSet => "type_set",
        }
    }

    fn rank(self) -> (rank: u8)
        ensures
            rank == scope_rank(self),
    {
        match self {
            SampleScope::CanonicalPath => 0,
            SampleScope::SitePath => 1,
            SampleScope::FieldSet => 2,
            SampleScope::TypeSet => 3,
        }
    }
}

impl ObjectSampleKind {
    pub fn as_sql_str(self) -> (name: &'static str)
        ensures
            name@ == kind_name(self),
    {
        match self {
            ObjectSampleKind::FirstSeen => "first_seen",
            ObjectSampleKind::FirstNonEmpty => "first_non_empty",
            ObjectSampleKind::PrioritySample => "priority_sample",
        }
    }

    fn rank(self) -> (rank: u8)
        ensures
            rank == kind_rank(self),
    {
        match self {
            ObjectSampleKind::FirstSeen => 0,
            ObjectSampleKind::FirstNonEmpty => 1,
            ObjectSampleKind::PrioritySample => 2,
        }
    }
}

#[derive(Debug, Clone, PartialEq, Eq)]
pub struct ObjectSampleRow {
    pub object_sample_id: String,
    pub sample_scope: SampleScope,
    pub sample_key: String,
    pub canonical_path: String,
    pub site_path: Option<String>,
    pub schema_path: Option<String>,
    pub field_set_hash: Option<String>,
    pub type_set_hash: Option<String>,
    pub shape_id: Option<String>,
    pub sample_kind: ObjectSampleKind,
    pub document_index: u64,
    pub source_path: String,
    pub sample_json: String,
    pub sample_json_truncated: bool,
    pub sample_is_empty_object: bool,
    pub sample_is_empty_array: bool,
    pub sample_priority: Option<u64>,
    pub sample_rank: Option<u32>,
}

/// An object sample row with its texts as character sequences.
pub struct ObjectSampleRowView {
    pub object_sample_id: Seq<char>,
    pub sample_scope: SampleScope,
    pub sample_key: Seq<char>,
    pub canonical_path: Seq<char>,
    pub site_path: Option<Seq<char>>,
    pub schema_path: Option<Seq<char>>,
    pub field_set_hash: Option<Seq<char>>,
    pub type_set_hash: Option<Seq<char>>,
    pub shape_id: Option<Seq<char>>,
    pub sample_kind: ObjectSampleKind,
    pub document_index: u64,
    pub source_path: Seq<char>,
    pub sample_json: Seq<char>,
    pub sample_json_truncated: bool,
    pub sample_is_empty_object: bool,
    pub sample_is_empty_array: bool,
    pub sample_priority: Option<u64>,
    pub sample_rank: Option<u32>,
}

impl View for ObjectSampleRow {
    type V = ObjectSampleRowView;

    open spec fn view(&self) -> ObjectSampleRowView {
        ObjectSampleRowView {
            object_sample_id: self.object_sample_id@,
            sample_scope: self.sample_scope,
            sample_key: self.sample_key@,
            canonical_path: self.canonical_path@,
            site_path: opt_text_view(self.site_path),
            schema_path: opt_text_view(self.schema_path),
            field_set_hash: opt_text_view(self.field_set_hash),
            type_set_hash: opt_text_view(self.type_set_hash),
            shape_id: opt_text_view(self.shape_id),
            sample_kind: self.sample_kind,
            document_index: self.document_index,
            source_path: self.source_path@,
            sample_json: self.sample_json@,
            sample_json_truncated: self.sample_json_truncated,
            sample_is_empty_object: self.sample_is_empty_object,
            sample_is_empty_array: self.sample_is_empty_array,
            sample_priority: self.sample_priority,
            sample_rank: self.sample_rank,
        }
    }
}

impl Duplicate for ObjectSampleRow {
    fn duplicate(&self) -> (copy: Self) {
        ObjectSampleRow {
            object_sample_id: self.object_sample_id.duplicate(),
            sample_scope: self.sample_scope,
            sample_key: self.sample_key.duplicate(),
            canonical_path: self.canonical_path.duplicate(),
            site_path: self.site_path.duplicate(),
            schema_path: self.schema_path.duplicate(),
            field_set_hash: self.field_set_hash.duplicate(),
            type_set_hash: self.type_set_hash.duplicate(),
            shape_id: self.shape_id.duplicate(),
            sample_kind: self.sample_kind,
            document_index: self.document_index,
            source_path: self.source_path.duplicate(),
            sample_json: self.sample_json.duplicate(),
            sample_json_truncated: self.sample_json_truncated,
            sample_is_empty_object: self.sample_is_empty_object,
            sample_is_empty_array: self.sample_is_empty_array,
            sample_priority: self.sample_priority,
            sample_rank: self.sample_rank,
        }
    }
}

#[derive(Debug, Clone)]
pub struct ObjectSampleCandidate {
    pub priority: u64,
    pub row: ObjectSampleRow,
}

pub open spec fn str_option_view(text: Option<&str>) -> Option<Seq<char>> {
    match text {
        Some(t) => Some(t@),
        None => None,
    }
}

/// The sample key of a scope: the canonical path, then the site path, the
/// field-set hash and the type-set hash as the scope narrows, joined by
/// unit separators (an absent part is empty).
pub open spec fn sample_key_text(
    scope: SampleScope,
    canonical_path: Seq<char>,
    site_path: Option<Seq<char>>,
    field_set_hash: Option<Seq<char>>,
    type_set_hash: Option<Seq<char>>,
) -> Seq<char> {
    match scope {
        SampleScope::CanonicalPath => canonical_path,
        SampleScope::SitePath => canonical_path + sep() + optional_text(site_path),
        SampleScope::FieldSet => canonical_path + sep() + optional_text(site_path) + sep() + optional_text(field_set_hash),
        SampleScope::TypeSet => canonical_path + sep() + optional_text(site_path) + sep() + optional_text(field_set_hash)
            + sep() + optional_text(type_set_hash),
    }
}

fn push_optional(out: &mut String, text: Option<&str>)
    ensures
        final(out)@ == old(out)@ + optional_text(str_option_view(text)),
{
    match text {
        Some(t) => push_str(out, t),
        None => {
            assert(old(out)@ + Seq::<char>::empty() =~= old(out)@);
        },
    }
}

pub fn object_sample_key(
    scope: SampleScope,
    canonical_path: &str,
    site_path: Option<&str>,
    field_set_hash: Option<&str>,
    type_set_hash: Option<&str>,
) -> (key: String)
    ensures
        key@ == sample_key_text(
            scope,
            canonical_path@,
            str_option_view(site_path),
            str_option_view(field_set_hash),
            str_option_view(type_set_hash),
        ),
{
    let mut key = str_to_string(canonical_path);
    match scope {
        SampleScope::CanonicalPath => {},
        SampleScope::SitePath => {
            push_char(&mut key, '\x1f');
            push_optional(&mut key, site_path);
        },
        SampleScope::FieldSet => {
            push_char(&mut key, '\x1f');
            push_optional(&mut key, site_path);
            push_char(&mut key, '\x1f');
            push_optional(&mut key, field_set_hash);
        },
        SampleScope::TypeSet => {
            push_char(&mut key, '\x1f');
            push_optional(&mut key, site_path);
            push_char(&mut key, '\x1f');
            push_optional(&mut key, field_set_hash);
            push_char(&mut key, '\x1f');
            push_optional(&mut key, type_set_hash);
        },
    }
    key
}

/// An object counts as non-empty when it has a member.
pub fn object_is_structurally_non_empty(object: &Vec<(String, JsonValue)>) -> (non_empty: bool)
    ensures
        non_empty == (object@.len() > 0),
{
    object.len() > 0
}

/// Whether a value carries content: not null, and not an empty object or
/// array.
pub open spec fn value_non_empty(value: JsonValue) -> bool {
    match value {
        JsonValue::Null => false,
        JsonValue::Object(fields) => fields@.len() > 0,
        JsonValue::Array(items) => items@.len() > 0,
        _ => true,
    }
}

pub fn value_is_non_empty(value: &JsonValue) -> (non_empty: bool)
    ensures
        non_empty == value_non_empty(*value),
{
    match value {
        JsonValue::Null => false,
        JsonValue::Object(fields) => fields.len() > 0,
        JsonValue::Array(items) => items.len() > 0,
        _ => true,
    }
}

/// The hash input of an object sample priority.
pub open spec fn priority_input(scope: SampleScope, key: Seq<char>, document_index: u64, source_path: Seq<char>) -> Seq<char> {
    scope_name(scope) + sep() + key + sep() + dec_text(document_index as nat) + sep() + source_path
}

/// An object sample priority: the stable hash of the scope, key, document
/// index and source path, with the top bit cleared so that it fits a signed
/// 64-bit column.
pub open spec fn object_sample_priority(scope: SampleScope, key: Seq<char>, document_index: u64, source_path: Seq<char>) -> u64 {
    fnv64(encode_utf8(priority_input(scope, key, document_index, source_path))) & 0x7fff_ffff_ffff_ffffu64
}

/// The priority of an object sample: the stable hash of its scope, key,
/// document index and source path, kept within `i64::MAX`.
pub fn sample_priority(sample_scope: SampleScope, sample_key: &str, document_index: u64, source_path: &str) -> (priority: u64)
    ensures
        priority == object_sample_priority(sample_scope, sample_key@, document_index, source_path@),
        priority <= i64::MAX,
{
    let mut input = str_to_string(sample_scope.as_sql_str());
    push_char(&mut input, '\x1f');
    push_str(&mut input, sample_key);
    push_char(&mut input, '\x1f');
    push_decimal(&mut input, document_index);
    push_char(&mut input, '\x1f');
    push_str(&mut input, source_path);
    assert(input@ =~= priority_input(sample_scope, sample_key@, document_index, source_path@));
    let hash = stable_u64(input.as_str().as_bytes());
    let priority = hash & 0x7fff_ffff_ffff_ffffu64;
    assert(hash & 0x7fff_ffff_ffff_ffffu64 <= 0x7fff_ffff_ffff_ffffu64) by (bit_vector);
    priority
}

/// The decimal text of a priority, or nothing.
pub open spec fn priority_text(priority: Option<u64>) -> Seq<char> {
    match priority {
        Some(p) => dec_text(p as nat),
        None => Seq::empty(),
    }
}

/// The hash input of an object sample id.
pub open spec fn sample_id_input(
    scope: SampleScope,
    key: Seq<char>,
    kind: ObjectSampleKind,
    document_index: u64,
    source_path: Seq<char>,
    priority: Option<u64>,
    shape_id: Seq<char>,
) -> Seq<char> {
    scope_name(scope) + sep() + key + sep() + kind_name(kind) + sep() + dec_text(document_index as nat) + sep()
        + source_path + sep() + priority_text(priority) + sep() + shape_id
}

/// The compact JSON text of an object.
pub open spec fn object_text(object: Seq<(String, JsonValue)>) -> Seq<char> {
    seq!['{'] + json_fields_text(object) + seq!['}']
}

/// The row that samples `object` under `scope`, `key` and `kind`.
pub open spec fn object_sample_row(
    scope: SampleScope,
    key: Seq<char>,
    kind: ObjectSampleKind,
    document_index: u64,
    source_path: Seq<char>,
    context: ResolvedObjectContext,
    shape: ShapeFacts,
    object: Seq<(String, JsonValue)>,
    json_limit: usize,
    priority: Option<u64>,
) -> ObjectSampleRowView {
    ObjectSampleRowView {
        object_sample_id: hash_text(sample_id_input(scope, key, kind, document_index, source_path, priority, shape.shape_id@)),
        sample_scope: scope,
        sample_key: key,
        canonical_path: context.canonical_path@,
        site_path: opt_text_view(context.site_path),
        schema_path: Some(context.schema_path@),
        field_set_hash: Some(shape.field_set_hash@),
        type_set_hash: Some(shape.type_set_hash@),
        shape_id: Some(shape.shape_id@),
        sample_kind: kind,
        document_index,
        source_path,
        sample_json: truncated_text(object_text(object), json_limit as nat),
        sample_json_truncated: encode_utf8(object_text(object)).len() > json_limit,
        sample_is_empty_object: object.len() == 0,
        sample_is_empty_array: false,
        sample_priority: priority,
        sample_rank: None,
    }
}

fn make_object_sample_row(
    scope: SampleScope,
    key: &str,
    kind: ObjectSampleKind,
    document_index: u64,
    source_path: &str,
    context: &ResolvedObjectContext,
    shape: &ShapeFacts,
    object: &Vec<(String, JsonValue)>,
    config: &SamplingConfig,
    priority: Option<u64>,
) -> (row: ObjectSampleRow)
    ensures
        row@ == object_sample_row(
            scope,
            key@,
            kind,
            document_index,
            source_path@,
            *context,
            *shape,
            object@,
            config.object_json_limit_bytes,
            priority,
        ),
{
    let sample_json = object_json_string(object);
    let (sample_json, sample_json_truncated) = truncate_utf8(sample_json.as_str(), config.object_json_limit_bytes);
    let mut id_input = str_to_string(scope.as_sql_str());
    push_char(&mut id_input, '\x1f');
    push_str(&mut id_input, key);
    push_char(&mut id_input, '\x1f');
    push_str(&mut id_input, kind.as_sql_str());
    push_char(&mut id_input, '\x1f');
    push_decimal(&mut id_input, document_index);
    push_char(&mut id_input, '\x1f');
    push_str(&mut id_input, source_path);
    push_char(&mut id_input, '\x1f');
    match priority {
        Some(p) => push_decimal(&mut id_input, p),
        None => {},
    }
    push_char(&mut id_input, '\x1f');
    push_str(&mut id_input, shape.shape_id.as_str());
    assert(id_input@ =~= sample_id_input(scope, key@, kind, document_index, source_path@, priority, shape.shape_id@));
    ObjectSampleRow {
        object_sample_id: stable_hex(id_input.as_str().as_bytes()),
        sample_scope: scope,
        sample_key: str_to_string(key),
        canonical_path: context.canonical_path.clone(),
        site_path: context.site_path.duplicate(),
        schema_path: Some(context.schema_path.clone()),
        field_set_hash: Some(shape.field_set_hash.clone()),
        type_set_hash: Some(shape.type_set_hash.clone()),
        shape_id: Some(shape.shape_id.clone()),
        sample_kind: kind,
        document_index,
        source_path: str_to_string(source_path),
        sample_json,
        sample_json_truncated,
        sample_is_empty_object: object.len() == 0,
        sample_is_empty_array: false,
        sample_priority: priority,
        sample_rank: None,
    }
}

/// The priority sample limit of a scope.
pub open spec fn scope_priority_limit(scope: SampleScope, config: SamplingConfig) -> usize {
    match scope {
        SampleScope::CanonicalPath => config.canonical_priority_limit,
        SampleScope::SitePath => config.site_priority_limit,
        SampleScope::FieldSet => config.field_set_priority_limit,
        SampleScope::TypeSet => config.type_set_priority_limit,
    }
}

fn priority_limit(scope: SampleScope, config: &SamplingConfig) -> (limit: usize)
    ensures
        limit == scope_priority_limit(scope, *config),
{
    match scope {
        SampleScope::CanonicalPath => config.canonical_priority_limit,
        SampleScope::SitePath => config.site_priority_limit,
        SampleScope::FieldSet => config.field_set_priority_limit,
        SampleScope::TypeSet => config.type_set_priority_limit,
    }
}

// ----- priority candidates -----

/// A candidate as its priority and its row.
pub open spec fn candidate_view(candidate: ObjectSampleCandidate) -> (u64, ObjectSampleRowView) {
    (candidate.priority, candidate.row@)
}

/// Candidates by priority, then document index, source path and sample id.
pub open spec fn candidate_lt(a: (u64, ObjectSampleRowView), b: (u64, ObjectSampleRowView)) -> bool {
    a.0 < b.0 || (a.0 == b.0 && (a.1.document_index < b.1.document_index || (a.1.document_index
        == b.1.document_index && (text_lt(a.1.source_path, b.1.source_path) || (a.1.source_path == b.1.source_path
        && text_lt(a.1.object_sample_id, b.1.object_sample_id))))))
}

pub open spec fn candidate_le() -> spec_fn((u64, ObjectSampleRowView), (u64, ObjectSampleRowView)) -> bool {
    |a: (u64, ObjectSampleRowView), b: (u64, ObjectSampleRowView)| !candidate_lt(b, a)
}

fn candidate_less(a: &ObjectSampleCandidate, b: &ObjectSampleCandidate) -> (less: bool)
    ensures
        less == candidate_lt(candidate_view(*a), candidate_view(*b)),
{
    if a.priority != b.priority {
        return a.priority < b.priority;
    }
    if a.row.document_index != b.row.document_index {
        return a.row.document_index < b.row.document_index;
    }
    let path = compare_text(a.row.source_path.as_str(), b.row.source_path.as_str());
    if path != 0 {
        return path == -1;
    }
    compare_text(a.row.object_sample_id.as_str(), b.row.object_sample_id.as_str()) == -1
}

/// Order facts about three texts, for lexicographic orders built on them.
pub proof fn lemma_texts_ordered(a: Seq<char>, b: Seq<char>, c: Seq<char>)
    ensures
        a == b || text_lt(a, b) || text_lt(b, a),
        b == c || text_lt(b, c) || text_lt(c, b),
        a == c || text_lt(a, c) || text_lt(c, a),
        !(text_lt(a, b) && text_lt(b, a)),
        !(text_lt(b, c) && text_lt(c, b)),
        !(text_lt(a, c) && text_lt(c, a)),
        text_lt(a, b) && text_lt(b, c) ==> text_lt(a, c),
        text_lt(c, b) && text_lt(b, a) ==> text_lt(c, a),
        text_lt(a, c) && text_lt(c, b) ==> text_lt(a, b),
        text_lt(b, c) && text_lt(c, a) ==> text_lt(b, a),
        text_lt(b, a) && text_lt(a, c) ==> text_lt(b, c),
        text_lt(c, a) && text_lt(a, b) ==> text_lt(c, b),
{
    lemma_text_lt_order(a, b);
    lemma_text_lt_order(b, c);
    lemma_text_lt_order(a, c);
    lemma_text_lt_transitive(a, b, c);
    lemma_text_lt_transitive(c, b, a);
    lemma_text_lt_transitive(a, c, b);
    lemma_text_lt_transitive(b, c, a);
    lemma_text_lt_transitive(b, a, c);
    lemma_text_lt_transitive(c, a, b);
}

proof fn lemma_candidate_order(a: (u64, ObjectSampleRowView), b: (u64, ObjectSampleRowView), c: (u64, ObjectSampleRowView))
    ensures
        !candidate_lt(a, b) || !candidate_lt(b, a),
        !candidate_lt(b, a) && !candidate_lt(c, b) ==> !candidate_lt(c, a),
{
    lemma_texts_ordered(a.1.source_path, b.1.source_path, c.1.source_path);
    lemma_texts_ordered(a.1.object_sample_id, b.1.object_sample_id, c.1.object_sample_id);
}

impl SortKey for ObjectSampleCandidate {
    open spec fn sort_le_spec(&self, other: &Self) -> bool {
        (candidate_le())(candidate_view(*self), candidate_view(*other))
    }

    fn sort_le(&self, other: &Self) -> (le: bool) {
        !candidate_less(other, self)
    }

    proof fn lemma_sort_le_total(a: &Self, b: &Self) {
        lemma_candidate_order(candidate_view(*a), candidate_view(*b), candidate_view(*b));
    }

    proof fn lemma_sort_le_transitive(a: &Self, b: &Self, c: &Self) {
        lemma_candidate_order(candidate_view(*a), candidate_view(*b), candidate_view(*c));
    }
}

/// The index of the largest candidate; among equal largest, the last one.
pub open spec fn topk_worst(items: Seq<(u64, ObjectSampleRowView)>) -> int
    decreases items.len(),
{
    if items.len() <= 1 {
        0
    } else {
        let previous = topk_worst(items.drop_last());
        if !candidate_lt(items.last(), items[previous]) {
            items.len() - 1
        } else {
            previous
        }
    }
}

proof fn lemma_topk_worst(items: Seq<(u64, ObjectSampleRowView)>)
    requires
        items.len() > 0,
    ensures
        0 <= topk_worst(items) < items.len(),
        forall|k: int| 0 <= k < items.len() ==> !candidate_lt(items[topk_worst(items)], #[trigger] items[k]),
    decreases items.len(),
{
    if items.len() > 1 {
        let init = items.drop_last();
        lemma_topk_worst(init);
        let previous = topk_worst(init);
        assert(items[previous] == init[previous]);
        let worst = topk_worst(items);
        assert(worst == if !candidate_lt(items.last(), items[previous]) { items.len() - 1 } else { previous });
        assert forall|k: int| 0 <= k < items.len() implies !candidate_lt(items[worst], #[trigger] items[k]) by {
            if k < items.len() - 1 {
                assert(items[k] == init[k]);
                assert(!candidate_lt(init[previous], init[k]));
                lemma_candidate_order(items[k], init[previous], items.last());
            } else {
                lemma_candidate_order(items.last(), init[previous], items.last());
                lemma_candidate_order(items.last(), items.last(), items.last());
            }
        }
    } else {
        lemma_candidate_order(items[0], items[0], items[0]);
    }
}

/// What a bounded sample of `limit` candidates holds after `candidate` is
/// offered: it is added while there is room; else it replaces the largest
/// candidate when it is smaller.
pub open spec fn topk_pushed(
    limit: nat,
    items: Seq<(u64, ObjectSampleRowView)>,
    candidate: (u64, ObjectSampleRowView),
) -> Seq<(u64, ObjectSampleRowView)> {
    if items.len() < limit {
        items.push(candidate)
    } else if items.len() == 0 {
        items
    } else if candidate_lt(candidate, items[topk_worst(items)]) {
        items.update(topk_worst(items), candidate)
    } else {
        items
    }
}

/// The candidates' rows in candidate order, ranked from 1.
pub open spec fn ranked_candidate_rows(items: Seq<(u64, ObjectSampleRowView)>) -> Seq<ObjectSampleRowView> {
    let sorted = insertion_sorted_by(items, candidate_le());
    Seq::new(
        sorted.len(),
        |i: int| ObjectSampleRowView { sample_rank: Some(#[verifier::truncate] ((i + 1) as u32)), ..sorted[i].1 },
    )
}

#[derive(Debug)]
struct TopK {
    limit: usize,
    candidates: Vec<ObjectSampleCandidate>,
}

impl View for TopK {
    type V = (nat, Seq<(u64, ObjectSampleRowView)>);

    closed spec fn view(&self) -> (nat, Seq<(u64, ObjectSampleRowView)>) {
        (self.limit as nat, self.candidates@.map_values(|c: ObjectSampleCandidate| candidate_view(c)))
    }
}

impl TopK {
    fn new(limit: usize) -> (top: Self)
        ensures
            top@ == (limit as nat, Seq::<(u64, ObjectSampleRowView)>::empty()),
    {
        let top = TopK { limit, candidates: Vec::new() };
        assert(top@.1 =~= Seq::<(u64, ObjectSampleRowView)>::empty());
        top
    }

    fn worst(&self) -> (index: usize)
        requires
            self.candidates@.len() > 0,
        ensures
            index == topk_worst(self@.1),
            index < self.candidates@.len(),
    {
        let ghost views = self@.1;
        let mut best: usize = 0;
        let mut index: usize = 1;
        while index < self.candidates.len()
            invariant
                1 <= index <= self.candidates@.len(),
                views == self.candidates@.map_values(|c: ObjectSampleCandidate| candidate_view(c)),
                best == topk_worst(views.subrange(0, index as int)),
            decreases self.candidates@.len() - index,
        {
            let ghost prefix = views.subrange(0, index + 1);
            assert(prefix.drop_last() =~= views.subrange(0, index as int));
            proof { lemma_topk_worst(views.subrange(0, index as int)); }
            assert(prefix.last() == views[index as int]);
            assert(views.subrange(0, index as int)[best as int] == views[best as int]);
            if !candidate_less(&self.candidates[index], &self.candidates[best]) {
                best = index;
            }
            index = index + 1;
        }
        assert(views.subrange(0, views.len() as int) =~= views);
        proof { lemma_topk_worst(views); }
        best
    }

    fn push(&mut self, candidate: ObjectSampleCandidate)
        ensures
            final(self)@ == (old(self)@.0, topk_pushed(old(self)@.0, old(self)@.1, candidate_view(candidate))),
    {
        let ghost before = self@.1;
        if self.candidates.len() < self.limit {
            self.candidates.push(candidate);
            assert(self@.1 =~= before.push(candidate_view(candidate)));
            return;
        }
        if self.candidates.len() == 0 {
            return;
        }
        let worst = self.worst();
        if candidate_less(&candidate, &self.candidates[worst]) {
            self.candidates.set(worst, candidate);
            assert(self@.1 =~= before.update(worst as int, candidate_view(candidate)));
        }
    }

    fn ranked_rows(&self) -> (rows: Vec<ObjectSampleRow>)
        ensures
            rows@.map_values(|r: ObjectSampleRow| r@) == ranked_candidate_rows(self@.1),
    {
        let mut copies: Vec<ObjectSampleCandidate> = Vec::new();
        let mut index: usize = 0;
        while index < self.candidates.len()
            invariant
                index <= self.candidates@.len(),
                copies@.len() == index,
                forall|k: int| 0 <= k < index ==> candidate_view(#[trigger] copies@[k]) == candidate_view(self.candidates@[k]),
            decreases self.candidates@.len() - index,
        {
            let candidate = &self.candidates[index];
            copies.push(ObjectSampleCandidate { priority: candidate.priority, row: candidate.row.duplicate() });
            index = index + 1;
        }
        let ghost copies_view = copies@;
        assert(copies_view.map_values(|c: ObjectSampleCandidate| candidate_view(c)) =~= self@.1);
        let sorted = sort_rows(copies);
        proof {
            lemma_insertion_sorted_map(
                copies_view,
                |c: ObjectSampleCandidate| candidate_view(c),
                key_le::<ObjectSampleCandidate>(),
                candidate_le(),
            );
        }
        let ghost sorted_views = insertion_sorted_by(self@.1, candidate_le());
        assert(sorted@.map_values(|c: ObjectSampleCandidate| candidate_view(c)) == sorted_views);
        let mut rows: Vec<ObjectSampleRow> = Vec::new();
        let mut rest = sorted;
        let ghost sorted_all = rest@;
        let mut rank: usize = 0;
        assert(rest@.skip(0) =~= rest@);
        while rest.len() > 0
            invariant
                rank + rest@.len() == sorted_all.len(),
                sorted_all.len() <= usize::MAX,
                rest@ == sorted_all.skip(rank as int),
                sorted_all.map_values(|c: ObjectSampleCandidate| candidate_view(c)) == sorted_views,
                rows@.len() == rank,
                forall|i: int| 0 <= i < rank ==> (#[trigger] rows@[i])@ == (ObjectSampleRowView {
                    sample_rank: Some(#[verifier::truncate] ((i + 1) as u32)),
                    ..sorted_views[i].1
                }),
            decreases rest@.len(),
        {
            let candidate = rest.remove(0);
            assert(candidate == sorted_all[rank as int]);
            assert(candidate_view(candidate) == sorted_views[rank as int]);
            let mut row = candidate.row;
            row.sample_rank = Some(#[verifier::truncate] ((rank as u64 + 1) as u32));
            rows.push(row);
            proof {
                assert(rest@ =~= sorted_all.skip(rank + 1));
            }
            rank = rank + 1;
        }
        assert(rows@.map_values(|r: ObjectSampleRow| r@) =~= ranked_candidate_rows(self@.1));
        rows
    }
}

// ----- the order of drained rows -----

/// No rank before every rank, then ranks in ascending order.
pub open spec fn sample_rank_lt(a: Option<u32>, b: Option<u32>) -> bool {
    match (a, b) {
        (None, Some(_)) => true,
        (Some(x), Some(y)) => x < y,
        _ => false,
    }
}

/// Rows by scope, sample key, kind, rank, document index, source path and
/// sample id.
pub open spec fn sample_row_lt(a: ObjectSampleRowView, b: ObjectSampleRowView) -> bool {
    scope_rank(a.sample_scope) < scope_rank(b.sample_scope) || (a.sample_scope == b.sample_scope && (text_lt(
        a.sample_key,
        b.sample_key,
    ) || (a.sample_key == b.sample_key && (kind_rank(a.sample_kind) < kind_rank(b.sample_kind) || (a.sample_kind
        == b.sample_kind && (sample_rank_lt(a.sample_rank, b.sample_rank) || (a.sample_rank == b.sample_rank && (
    a.document_index < b.document_index || (a.document_index == b.document_index && (text_lt(
        a.source_path,
        b.source_path,
    ) || (a.source_path == b.source_path && text_lt(a.object_sample_id, b.object_sample_id))))))))))))
}

pub open spec fn sample_row_le() -> spec_fn(ObjectSampleRowView, ObjectSampleRowView) -> bool {
    |a: ObjectSampleRowView, b: ObjectSampleRowView| !sample_row_lt(b, a)
}

fn rank_less(a: Option<u32>, b: Option<u32>) -> (less: bool)
    ensures
        less == sample_rank_lt(a, b),
{
    match (a, b) {
        (None, Some(_)) => true,
        (Some(x), Some(y)) => x < y,
        _ => false,
    }
}

fn row_less(a: &ObjectSampleRow, b: &ObjectSampleRow) -> (less: bool)
    ensures
        less == sample_row_lt(a@, b@),
{
    let scope_a = a.sample_scope.rank();
    let scope_b = b.sample_scope.rank();
    if scope_a != scope_b {
        return scope_a < scope_b;
    }
    let key = compare_text(a.sample_key.as_str(), b.sample_key.as_str());
    if key != 0 {
        return key == -1;
    }
    let kind_a = a.sample_kind.rank();
    let kind_b = b.sample_kind.rank();
    if kind_a != kind_b {
        return kind_a < kind_b;
    }
    if a.sample_rank != b.sample_rank {
        return rank_less(a.sample_rank, b.sample_rank);
    }
    if a.document_index != b.document_index {
        return a.document_index < b.document_index;
    }
    let path = compare_text(a.source_path.as_str(), b.source_path.as_str());
    if path != 0 {
        return path == -1;
    }
    compare_text(a.object_sample_id.as_str(), b.object_sample_id.as_str()) == -1
}

proof fn lemma_sample_row_order(a: ObjectSampleRowView, b: ObjectSampleRowView, c: ObjectSampleRowView)
    ensures
        !sample_row_lt(a, b) || !sample_row_lt(b, a),
        !sample_row_lt(b, a) && !sample_row_lt(c, b) ==> !sample_row_lt(c, a),
{
    lemma_texts_ordered(a.sample_key, b.sample_key, c.sample_key);
    lemma_texts_ordered(a.source_path, b.source_path, c.source_path);
    lemma_texts_ordered(a.object_sample_id, b.object_sample_id, c.object_sample_id);
}

impl SortKey for ObjectSampleRow {
    open spec fn sort_le_spec(&self, other: &Self) -> bool {
        (sample_row_le())(self@, other@)
    }

    fn sort_le(&self, other: &Self) -> (le: bool) {
        !row_less(other, self)
    }

    proof fn lemma_sort_le_total(a: &Self, b: &Self) {
        lemma_sample_row_order(a@, b@, b@);
    }

    proof fn lemma_sort_le_transitive(a: &Self, b: &Self, c: &Self) {
        lemma_sample_row_order(a@, b@, c@);
    }
}

// ----- the accumulator -----

/// What an object sample accumulator holds: the `(scope, key, kind)` of
/// every once-per-key sample taken since the last drain, the priority
/// groups by `(scope, key)` with their limits and candidates, and the rows
/// waiting to be drained.
pub struct ObjectSampleState {
    pub once_seen: Seq<(SampleScope, Seq<char>, ObjectSampleKind)>,
    pub groups: Seq<((SampleScope, Seq<char>), (nat, Seq<(u64, ObjectSampleRowView)>))>,
    pub pending: Seq<ObjectSampleRowView>,
}

pub struct ObjectSampleAccumulator {
    once_seen: Vec<(SampleScope, String, ObjectSampleKind)>,
    priority: Vec<((SampleScope, String), TopK)>,
    pending_rows: Vec<ObjectSampleRow>,
    offers: Ghost<Seq<Seq<(u64, ObjectSampleRowView)>>>,
}

impl View for ObjectSampleAccumulator {
    type V = ObjectSampleState;

    closed spec fn view(&self) -> ObjectSampleState {
        ObjectSampleState {
            once_seen: self.once_seen@.map_values(|e: (SampleScope, String, ObjectSampleKind)| (e.0, e.1@, e.2)),
            groups: self.priority@.map_values(|g: ((SampleScope, String), TopK)| ((g.0.0, g.0.1@), g.1@)),
            pending: self.pending_rows@.map_values(|r: ObjectSampleRow| r@),
        }
    }
}

pub open spec fn empty_object_samples() -> ObjectSampleState {
    ObjectSampleState { once_seen: Seq::empty(), groups: Seq::empty(), pending: Seq::empty() }
}

/// A once-per-key sample is taken only the first time its `(scope, key,
/// kind)` is seen.
pub open spec fn once_recorded(
    s: ObjectSampleState,
    scope: SampleScope,
    key: Seq<char>,
    kind: ObjectSampleKind,
    row: ObjectSampleRowView,
) -> ObjectSampleState {
    if s.once_seen.contains((scope, key, kind)) {
        s
    } else {
        ObjectSampleState { once_seen: s.once_seen.push((scope, key, kind)), pending: s.pending.push(row), ..s }
    }
}

/// The first group with `key`, if any.
pub open spec fn first_group(
    groups: Seq<((SampleScope, Seq<char>), (nat, Seq<(u64, ObjectSampleRowView)>))>,
    key: (SampleScope, Seq<char>),
) -> Option<int> {
    if exists|i: int| 0 <= i < groups.len() && (#[trigger] groups[i]).0 == key {
        Some(choose|i: int| 0 <= i < groups.len() && (#[trigger] groups[i]).0 == key
            && forall|j: int| 0 <= j < i ==> (#[trigger] groups[j]).0 != key)
    } else {
        None
    }
}

/// A priority candidate is offered to its group, which is created with the
/// scope's limit on first use; a limit of zero takes no priority samples.
pub open spec fn priority_recorded(
    s: ObjectSampleState,
    scope: SampleScope,
    key: Seq<char>,
    limit: usize,
    candidate: (u64, ObjectSampleRowView),
) -> ObjectSampleState {
    if limit == 0 {
        s
    } else {
        match first_group(s.groups, (scope, key)) {
            Some(i) => ObjectSampleState {
                groups: s.groups.update(
                    i,
                    (s.groups[i].0, (s.groups[i].1.0, topk_pushed(s.groups[i].1.0, s.groups[i].1.1, candidate))),
                ),
                ..s
            },
            None => ObjectSampleState {
                groups: s.groups.push(((scope, key), (limit as nat, topk_pushed(limit as nat, Seq::empty(), candidate)))),
                ..s
            },
        }
    }
}

/// The sample key of an object under a scope.
pub open spec fn scope_key(scope: SampleScope, context: ResolvedObjectContext, shape: ShapeFacts) -> Seq<char> {
    sample_key_text(
        scope,
        context.canonical_path@,
        opt_text_view(context.site_path),
        Some(shape.field_set_hash@),
        Some(shape.type_set_hash@),
    )
}

/// Observing an object under one scope: its first-seen sample, its
/// first-non-empty sample when it has a member, and its priority
/// candidate.
pub open spec fn scope_observed(
    s: ObjectSampleState,
    scope: SampleScope,
    document_index: u64,
    source_path: Seq<char>,
    context: ResolvedObjectContext,
    shape: ShapeFacts,
    object: Seq<(String, JsonValue)>,
    config: SamplingConfig,
) -> ObjectSampleState {
    let key = scope_key(scope, context, shape);
    let limit = config.object_json_limit_bytes;
    let row = |kind: ObjectSampleKind, priority: Option<u64>|
        object_sample_row(scope, key, kind, document_index, source_path, context, shape, object, limit, priority);
    let s1 = once_recorded(s, scope, key, ObjectSampleKind::FirstSeen, row(ObjectSampleKind::FirstSeen, None));
    let s2 = if object.len() > 0 {
        once_recorded(s1, scope, key, ObjectSampleKind::FirstNonEmpty, row(ObjectSampleKind::FirstNonEmpty, None))
    } else {
        s1
    };
    let priority = object_sample_priority(scope, key, document_index, source_path);
    priority_recorded(
        s2,
        scope,
        key,
        scope_priority_limit(scope, config),
        (priority, row(ObjectSampleKind::PrioritySample, Some(priority))),
    )
}

/// Observing an object under each scope in turn, from the widest.
pub open spec fn object_observed(
    s: ObjectSampleState,
    document_index: u64,
    source_path: Seq<char>,
    context: ResolvedObjectContext,
    shape: ShapeFacts,
    object: Seq<(String, JsonValue)>,
    config: SamplingConfig,
) -> ObjectSampleState {
    let s1 = scope_observed(s, SampleScope::CanonicalPath, document_index, source_path, context, shape, object, config);
    let s2 = scope_observed(s1, SampleScope::SitePath, document_index, source_path, context, shape, object, config);
    let s3 = scope_observed(s2, SampleScope::FieldSet, document_index, source_path, context, shape, object, config);
    scope_observed(s3, SampleScope::TypeSet, document_index, source_path, context, shape, object, config)
}

/// The ranked rows of every group, group after group.
pub open spec fn group_rows(groups: Seq<((SampleScope, Seq<char>), (nat, Seq<(u64, ObjectSampleRowView)>))>) -> Seq<ObjectSampleRowView>
    decreases groups.len(),
{
    if groups.len() == 0 {
        Seq::empty()
    } else {
        group_rows(groups.drop_last()) + ranked_candidate_rows(groups.last().1.1)
    }
}

/// What a drain hands out: the waiting rows and every group's ranked
/// rows, in row order.
pub open spec fn drained_rows(s: ObjectSampleState) -> Seq<ObjectSampleRowView> {
    insertion_sorted_by(s.pending + group_rows(s.groups), sample_row_le())
}

/// A drain leaves nothing to hand out: a second drain gives no rows.
pub proof fn lemma_second_drain_empty()
    ensures
        drained_rows(empty_object_samples()).len() == 0,
{
    let s = empty_object_samples();
    assert(s.pending + group_rows(s.groups) =~= Seq::<ObjectSampleRowView>::empty());
}

/// The number of candidates held by the groups.
pub open spec fn candidate_count(groups: Seq<((SampleScope, Seq<char>), (nat, Seq<(u64, ObjectSampleRowView)>))>) -> nat
    decreases groups.len(),
{
    if groups.len() == 0 {
        0
    } else {
        candidate_count(groups.drop_last()) + groups.last().1.1.len()
    }
}

impl ObjectSampleAccumulator {
    /// The candidates offered to each priority group since the last drain,
    /// in order.
    pub closed spec fn offered(&self) -> Seq<Seq<(u64, ObjectSampleRowView)>> {
        self.offers@
    }

    /// Each priority group holds what offering its candidates in order to an
    /// empty group of its limit keeps.
    pub open spec fn groups_follow_offers(&self) -> bool {
        groups_follow(self@.groups, self.offered())
    }

    pub fn new() -> (accumulator: Self)
        ensures
            accumulator@ == empty_object_samples(),
            accumulator.groups_follow_offers(),
    {
        let accumulator = ObjectSampleAccumulator {
            once_seen: Vec::new(),
            priority: Vec::new(),
            pending_rows: Vec::new(),
            offers: Ghost(Seq::empty()),
        };
        assert(accumulator@.once_seen =~= Seq::<(SampleScope, Seq<char>, ObjectSampleKind)>::empty());
        assert(accumulator@.groups =~= Seq::<((SampleScope, Seq<char>), (nat, Seq<(u64, ObjectSampleRowView)>))>::empty());
        assert(accumulator@.pending =~= Seq::<ObjectSampleRowView>::empty());
        accumulator
    }

    /// Takes the object's samples under every scope.
    pub fn observe(
        &mut self,
        document_index: u64,
        source_path: &str,
        context: &ResolvedObjectContext,
        shape: &ShapeFacts,
        object: &Vec<(String, JsonValue)>,
        config: &SamplingConfig,
    ) -> (result: Result<(), ProfileError>)
        ensures
            result is Ok,
            final(self)@ == object_observed(old(self)@, document_index, source_path@, *context, *shape, object@, *config),
            old(self).groups_follow_offers() ==> final(self).groups_follow_offers(),
    {
        self.observe_scope(SampleScope::CanonicalPath, document_index, source_path, context, shape, object, config);
        self.observe_scope(SampleScope::SitePath, document_index, source_path, context, shape, object, config);
        self.observe_scope(SampleScope::FieldSet, document_index, source_path, context, shape, object, config);
        self.observe_scope(SampleScope::TypeSet, document_index, source_path, context, shape, object, config);
        Ok(())
    }

    fn observe_scope(
        &mut self,
        scope: SampleScope,
        document_index: u64,
        source_path: &str,
        context: &ResolvedObjectContext,
        shape: &ShapeFacts,
        object: &Vec<(String, JsonValue)>,
        config: &SamplingConfig,
    )
        ensures
            final(self)@ == scope_observed(old(self)@, scope, document_index, source_path@, *context, *shape, object@, *config),
            old(self).groups_follow_offers() ==> final(self).groups_follow_offers(),
    {
        let site = match &context.site_path {
            Some(site) => Some(site.as_str()),
            None => None,
        };
        let key = object_sample_key(
            scope,
            context.canonical_path.as_str(),
            site,
            Some(shape.field_set_hash.as_str()),
            Some(shape.type_set_hash.as_str()),
        );
        assert(key@ == scope_key(scope, *context, *shape));
        self.enqueue_once(scope, &key, ObjectSampleKind::FirstSeen, document_index, source_path, context, shape, object, config);
        if object_is_structurally_non_empty(object) {
            self.enqueue_once(
                scope,
                &key,
                ObjectSampleKind::FirstNonEmpty,
                document_index,
                source_path,
                context,
                shape,
                object,
                config,
            );
        }
        self.enqueue_priority(scope, &key, document_index, source_path, context, shape, object, config);
    }

    fn once_seen_contains(&self, scope: SampleScope, key: &str, kind: ObjectSampleKind) -> (found: bool)
        ensures
            found == self@.once_seen.contains((scope, key@, kind)),
    {
        let ghost seen = self@.once_seen;
        let mut index: usize = 0;
        while index < self.once_seen.len()
            invariant
                index <= self.once_seen@.len(),
                seen == self@.once_seen,
                seen.len() == self.once_seen@.len(),
                forall|k: int| 0 <= k < index ==> (#[trigger] seen[k]) != (scope, key@, kind),
            decreases self.once_seen@.len() - index,
        {
            let entry = &self.once_seen[index];
            assert(seen[index as int] == (entry.0, entry.1@, entry.2));
            if entry.0 == scope && entry.2 == kind && compare_text(entry.1.as_str(), key) == 0 {
                assert(seen[index as int] == (scope, key@, kind));
                return true;
            }
            index = index + 1;
        }
        false
    }

    fn enqueue_once(
        &mut self,
        scope: SampleScope,
        key: &String,
        kind: ObjectSampleKind,
        document_index: u64,
        source_path: &str,
        context: &ResolvedObjectContext,
        shape: &ShapeFacts,
        object: &Vec<(String, JsonValue)>,
        config: &SamplingConfig,
    )
        ensures
            final(self)@ == once_recorded(
                old(self)@,
                scope,
                key@,
                kind,
                object_sample_row(
                    scope,
                    key@,
                    kind,
                    document_index,
                    source_path@,
                    *context,
                    *shape,
                    object@,
                    config.object_json_limit_bytes,
                    None,
                ),
            ),
            final(self).offered() == old(self).offered(),
            final(self)@.groups == old(self)@.groups,
    {
        if self.once_seen_contains(scope, key.as_str(), kind) {
            return;
        }
        let row = make_object_sample_row(scope, key.as_str(), kind, document_index, source_path, context, shape, object, config, None);
        let ghost before = self@;
        self.once_seen.push((scope, key.clone(), kind));
        self.pending_rows.push(row);
        assert(self@.once_seen =~= before.once_seen.push((scope, key@, kind)));
        assert(self@.pending =~= before.pending.push(row@));
        assert(self@.groups =~= before.groups);
    }

    fn group_position(&self, scope: SampleScope, key: &str) -> (found: Option<usize>)
        ensures
            match found {
                Some(i) => first_group(self@.groups, (scope, key@)) == Some(i as int) && i < self.priority@.len(),
                None => first_group(self@.groups, (scope, key@)) is None,
            },
    {
        let ghost groups = self@.groups;
        let ghost target = (scope, key@);
        let mut index: usize = 0;
        while index < self.priority.len()
            invariant
                index <= self.priority@.len(),
                groups == self@.groups,
                groups.len() == self.priority@.len(),
                target == (scope, key@),
                forall|k: int| 0 <= k < index ==> (#[trigger] groups[k]).0 != target,
            decreases self.priority@.len() - index,
        {
            let entry = &self.priority[index];
            assert(groups[index as int].0 == (entry.0.0, entry.0.1@));
            if entry.0.0 == scope && compare_text(entry.0.1.as_str(), key) == 0 {
                proof {
                    let w = index as int;
                    assert(groups[w].0 == target);
                    let c = choose|i: int| 0 <= i < groups.len() && (#[trigger] groups[i]).0 == target
                        && forall|j: int| 0 <= j < i ==> (#[trigger] groups[j]).0 != target;
                    assert(0 <= c < groups.len() && groups[c].0 == target);
                    if c < w {
                        assert(groups[c].0 != target);
                    }
                    if c > w {
                        assert(groups[w].0 != target);
                    }
                }
                return Some(index);
            }
            index = index + 1;
        }
        None
    }

    #[verifier::rlimit(40)]
    fn enqueue_priority(
        &mut self,
        scope: SampleScope,
        key: &String,
        document_index: u64,
        source_path: &str,
        context: &ResolvedObjectContext,
        shape: &ShapeFacts,
        object: &Vec<(String, JsonValue)>,
        config: &SamplingConfig,
    )
        ensures
            final(self)@ == priority_recorded(
                old(self)@,
                scope,
                key@,
                scope_priority_limit(scope, *config),
                (
                    object_sample_priority(scope, key@, document_index, source_path@),
                    object_sample_row(
                        scope,
                        key@,
                        ObjectSampleKind::PrioritySample,
                        document_index,
                        source_path@,
                        *context,
                        *shape,
                        object@,
                        config.object_json_limit_bytes,
                        Some(object_sample_priority(scope, key@, document_index, source_path@)),
                    ),
                ),
            ),
            old(self).groups_follow_offers() ==> final(self).groups_follow_offers(),
    {
        let ghost offers_before = self.offers@;
        let limit = priority_limit(scope, config);
        if limit == 0 {
            return;
        }
        let priority = sample_priority(scope, key.as_str(), document_index, source_path);
        let row = make_object_sample_row(
            scope,
            key.as_str(),
            ObjectSampleKind::PrioritySample,
            document_index,
            source_path,
            context,
            shape,
            object,
            config,
            Some(priority),
        );
        let candidate = ObjectSampleCandidate { priority, row };
        let ghost offered = candidate_view(candidate);
        let ghost before = self@;
        match self.group_position(scope, key.as_str()) {
            Some(i) => {
                let mut group = self.priority.remove(i);
                let ghost group_before = group.1@;
                assert(before.groups[i as int] == ((group.0.0, group.0.1@), group_before));
                group.1.push(candidate);
                self.priority.insert(i, group);
                assert(self@.groups =~= before.groups.update(
                    i as int,
                    (before.groups[i as int].0, (group_before.0, topk_pushed(group_before.0, group_before.1, offered))),
                ));
                self.offers = Ghost(offers_before.update(i as int, offers_before[i as int].push(offered)));
                proof {
                    if groups_follow(before.groups, offers_before) {
                        lemma_follow_offer_to_group(before.groups, offers_before, i as int, offered);
                    }
                }
            },
            None => {
                let mut group = TopK::new(limit);
                group.push(candidate);
                self.priority.push(((scope, key.clone()), group));
                assert(self@.groups =~= before.groups.push(
                    ((scope, key@), (limit as nat, topk_pushed(limit as nat, Seq::empty(), offered))),
                ));
                self.offers = Ghost(offers_before.push(seq![offered]));
                proof {
                    if groups_follow(before.groups, offers_before) {
                        lemma_follow_new_group(before.groups, offers_before, (scope, key@), limit as nat, offered);
                    }
                }
            },
        }
        assert(self@.once_seen =~= before.once_seen);
        assert(self@.pending =~= before.pending);
    }

    /// Hands out every waiting row and every group's ranked rows, in row
    /// order, and forgets everything: after a drain each key's first-seen
    /// and first-non-empty samples are taken afresh.
    pub fn drain_rows(&mut self) -> (rows: Vec<ObjectSampleRow>)
        ensures
            rows@.map_values(|r: ObjectSampleRow| r@) == drained_rows(old(self)@),
            forall|i: int, j: int| #![trigger rows@[i], rows@[j]] 0 <= i < j < rows@.len() ==> (sample_row_le())(
                rows@[i]@,
                rows@[j]@,
            ),
            final(self)@ == empty_object_samples(),
            drained_rows(final(self)@).len() == 0,
            final(self).groups_follow_offers(),
    {
        proof {
            lemma_second_drain_empty();
        }
        let ghost before = self@;
        let mut rows: Vec<ObjectSampleRow> = Vec::new();
        rows.append(&mut self.pending_rows);
        assert(rows@.map_values(|r: ObjectSampleRow| r@) =~= before.pending);
        let mut index: usize = 0;
        assert(before.groups.subrange(0, 0) =~= Seq::<((SampleScope, Seq<char>), (nat, Seq<(u64, ObjectSampleRowView)>))>::empty());
        while index < self.priority.len()
            invariant
                index <= self.priority@.len(),
                self@.groups == before.groups,
                rows@.map_values(|r: ObjectSampleRow| r@) == before.pending + group_rows(before.groups.subrange(0, index as int)),
            decreases self.priority@.len() - index,
        {
            let ranked = self.priority[index].1.ranked_rows();
            let ghost previous = rows@;
            let mut ranked = ranked;
            rows.append(&mut ranked);
            proof {
                let prefix = before.groups.subrange(0, index + 1);
                assert(prefix.drop_last() =~= before.groups.subrange(0, index as int));
                assert(prefix.last() == before.groups[index as int]);
                assert(before.groups[index as int].1 == self.priority@[index as int].1@);
                assert(rows@.map_values(|r: ObjectSampleRow| r@) =~= previous.map_values(|r: ObjectSampleRow| r@)
                    + ranked_candidate_rows(before.groups[index as int].1.1));
            }
            index = index + 1;
        }
        assert(before.groups.subrange(0, self.priority@.len() as int) =~= before.groups);
        self.once_seen.clear();
        self.priority.clear();
        self.offers = Ghost(Seq::empty());
        let ghost unsorted = rows@;
        let sorted = sort_rows(rows);
        proof {
            lemma_insertion_sorted_map(unsorted, |r: ObjectSampleRow| r@, key_le::<ObjectSampleRow>(), sample_row_le());
        }
        assert(self@.once_seen =~= Seq::<(SampleScope, Seq<char>, ObjectSampleKind)>::empty());
        assert(self@.groups =~= Seq::<((SampleScope, Seq<char>), (nat, Seq<(u64, ObjectSampleRowView)>))>::empty());
        assert(self@.pending =~= Seq::<ObjectSampleRowView>::empty());
        sorted
    }

    /// How many rows a drain would hand out now, or `usize::MAX` when that
    /// number does not fit.
    pub fn pending_row_count(&self) -> (count: usize)
        ensures
            count == (if self@.pending.len() + candidate_count(self@.groups) <= usize::MAX {
                self@.pending.len() + candidate_count(self@.groups)
            } else {
                usize::MAX as nat
            }),
    {
        let ghost groups = self@.groups;
        let mut count: usize = self.pending_rows.len();
        let mut saturated = false;
        let mut index: usize = 0;
        assert(groups.subrange(0, 0) =~= Seq::<((SampleScope, Seq<char>), (nat, Seq<(u64, ObjectSampleRowView)>))>::empty());
        while index < self.priority.len()
            invariant
                index <= self.priority@.len(),
                groups == self@.groups,
                saturated ==> count == usize::MAX
                    && self@.pending.len() + candidate_count(groups.subrange(0, index as int)) > usize::MAX,
                !saturated ==> count == self@.pending.len() + candidate_count(groups.subrange(0, index as int)),
            decreases self.priority@.len() - index,
        {
            let held = self.priority[index].1.candidates.len();
            proof {
                let prefix = groups.subrange(0, index + 1);
                assert(prefix.drop_last() =~= groups.subrange(0, index as int));
                assert(prefix.last().1.1.len() == held);
            }
            if !saturated {
                if count > usize::MAX - held {
                    count = usize::MAX;
                    saturated = true;
                } else {
                    count = count + held;
                }
            }
            index = index + 1;
        }
        assert(groups.subrange(0, self.priority@.len() as int) =~= groups);
        count
    }
}

impl Default for ObjectSampleAccumulator {
    fn default() -> (accumulator: Self)
        ensures
            accumulator@ == empty_object_samples(),
    {
        ObjectSampleAccumulator::new()
    }
}

proof fn lemma_first_match_exists(
    groups: Seq<((SampleScope, Seq<char>), (nat, Seq<(u64, ObjectSampleRowView)>))>,
    key: (SampleScope, Seq<char>),
    start: int,
    w: int,
)
    requires
        0 <= start <= w < groups.len(),
        groups[w].0 == key,
        forall|j: int| 0 <= j < start ==> (#[trigger] groups[j]).0 != key,
    ensures
        exists|i: int| 0 <= i < groups.len() && (#[trigger] groups[i]).0 == key
            && forall|j: int| 0 <= j < i ==> (#[trigger] groups[j]).0 != key,
    decreases w - start,
{
    if groups[start].0 == key {
        assert(0 <= start < groups.len() && groups[start].0 == key);
    } else {
        lemma_first_match_exists(groups, key, start + 1, w);
    }
}

proof fn lemma_first_group_in_range(
    groups: Seq<((SampleScope, Seq<char>), (nat, Seq<(u64, ObjectSampleRowView)>))>,
    key: (SampleScope, Seq<char>),
)
    ensures
        first_group(groups, key) matches Some(i) ==> 0 <= i < groups.len() && groups[i].0 == key,
{
    if exists|i: int| 0 <= i < groups.len() && (#[trigger] groups[i]).0 == key {
        let w = choose|i: int| 0 <= i < groups.len() && (#[trigger] groups[i]).0 == key;
        lemma_first_match_exists(groups, key, 0, w);
    }
}

proof fn lemma_topk_pushed_len(limit: nat, items: Seq<(u64, ObjectSampleRowView)>, candidate: (u64, ObjectSampleRowView))
    requires
        items.len() <= limit,
    ensures
        topk_pushed(limit, items, candidate).len() <= limit,
{
    if items.len() > 0 {
        lemma_topk_worst(items);
    }
}

/// A priority group keeps its smallest candidates: a candidate the full
/// group turns away is no smaller than any candidate it holds; when the
/// group evicts its largest candidate for a smaller one, every candidate
/// left is no larger than the evicted one; and every other candidate stays.
pub proof fn lemma_topk_keeps_smallest(limit: nat, items: Seq<(u64, ObjectSampleRowView)>, candidate: (u64, ObjectSampleRowView))
    requires
        items.len() <= limit,
    ensures
        topk_pushed(limit, items, candidate).len() <= limit,
        0 < items.len() == limit && !candidate_lt(candidate, items[topk_worst(items)]) ==> forall|k: int|
            0 <= k < items.len() ==> !candidate_lt(candidate, #[trigger] items[k]),
        0 < items.len() == limit && candidate_lt(candidate, items[topk_worst(items)]) ==> forall|k: int|
            0 <= k < items.len() ==> !candidate_lt(items[topk_worst(items)], #[trigger] topk_pushed(limit, items, candidate)[k]),
        forall|k: int| 0 <= k < items.len() && !(items.len() == limit && k == topk_worst(items))
            ==> #[trigger] topk_pushed(limit, items, candidate).contains(items[k]),
{
    lemma_topk_pushed_len(limit, items, candidate);
    let result = topk_pushed(limit, items, candidate);
    if items.len() > 0 {
        lemma_topk_worst(items);
        let w = topk_worst(items);
        if items.len() == limit && !candidate_lt(candidate, items[w]) {
            assert forall|k: int| 0 <= k < items.len() implies !candidate_lt(candidate, #[trigger] items[k]) by {
                lemma_candidate_order(items[k], items[w], candidate);
            }
        }
        if items.len() == limit && candidate_lt(candidate, items[w]) {
            assert forall|k: int| 0 <= k < items.len() implies !candidate_lt(items[w], #[trigger] result[k]) by {
                if k == w {
                    lemma_candidate_order(candidate, items[w], candidate);
                }
            }
        }
    }
    assert forall|k: int| 0 <= k < items.len() && !(items.len() == limit && k == topk_worst(items)) implies #[trigger] result.contains(
        items[k],
    ) by {
        assert(result[k] == items[k]);
    }
}

/// Each group holds what offering its candidates in `offers`, in order, to
/// an empty group of its limit keeps.
pub open spec fn groups_follow(
    groups: Seq<((SampleScope, Seq<char>), (nat, Seq<(u64, ObjectSampleRowView)>))>,
    offers: Seq<Seq<(u64, ObjectSampleRowView)>>,
) -> bool {
    &&& offers.len() == groups.len()
    &&& forall|i: int| 0 <= i < groups.len() ==> #[trigger] groups[i].1.1 == topk_all(groups[i].1.0, offers[i])
}

proof fn lemma_follow_offer_to_group(
    groups: Seq<((SampleScope, Seq<char>), (nat, Seq<(u64, ObjectSampleRowView)>))>,
    offers: Seq<Seq<(u64, ObjectSampleRowView)>>,
    i: int,
    c: (u64, ObjectSampleRowView),
)
    requires
        groups_follow(groups, offers),
        0 <= i < groups.len(),
    ensures
        groups_follow(
            groups.update(i, (groups[i].0, (groups[i].1.0, topk_pushed(groups[i].1.0, groups[i].1.1, c)))),
            offers.update(i, offers[i].push(c)),
        ),
{
    let after = groups.update(i, (groups[i].0, (groups[i].1.0, topk_pushed(groups[i].1.0, groups[i].1.1, c))));
    let offers_after = offers.update(i, offers[i].push(c));
    assert(offers[i].push(c).drop_last() =~= offers[i]);
    assert forall|k: int| 0 <= k < after.len() implies #[trigger] after[k].1.1 == topk_all(after[k].1.0, offers_after[k]) by {
        if k != i {
            assert(after[k] == groups[k]);
            assert(offers_after[k] == offers[k]);
        }
    }
}

proof fn lemma_follow_new_group(
    groups: Seq<((SampleScope, Seq<char>), (nat, Seq<(u64, ObjectSampleRowView)>))>,
    offers: Seq<Seq<(u64, ObjectSampleRowView)>>,
    key: (SampleScope, Seq<char>),
    limit: nat,
    c: (u64, ObjectSampleRowView),
)
    requires
        groups_follow(groups, offers),
    ensures
        groups_follow(groups.push((key, (limit, topk_pushed(limit, Seq::empty(), c)))), offers.push(seq![c])),
{
    let after = groups.push((key, (limit, topk_pushed(limit, Seq::empty(), c))));
    let offers_after = offers.push(seq![c]);
    assert(seq![c].drop_last() =~= Seq::<(u64, ObjectSampleRowView)>::empty());
    assert forall|k: int| 0 <= k < after.len() implies #[trigger] after[k].1.1 == topk_all(after[k].1.0, offers_after[k]) by {
        if k < groups.len() {
            assert(after[k] == groups[k]);
            assert(offers_after[k] == offers[k]);
        } else {
            let single = seq![c];
            assert(offers_after[k] == single);
            assert(single.len() == 1 && single.last() == c);
            assert(topk_all(limit, single.drop_last()) == Seq::<(u64, ObjectSampleRowView)>::empty());
            assert(topk_all(limit, single) == topk_pushed(limit, topk_all(limit, single.drop_last()), c));
        }
    }
}

/// What a priority group of `limit` candidates holds after the candidates
/// of `stream` are offered in order to an empty group.
pub open spec fn topk_all(limit: nat, stream: Seq<(u64, ObjectSampleRowView)>) -> Seq<(u64, ObjectSampleRowView)>
    decreases stream.len(),
{
    if stream.len() == 0 {
        Seq::empty()
    } else {
        topk_pushed(limit, topk_all(limit, stream.drop_last()), stream.last())
    }
}

/// A priority group keeps the smallest candidates offered to it: it holds
/// `min(limit, n)` of the `n` candidates, only candidates that were
/// offered, all of them while it is not full, and none larger than a
/// candidate it turned away or evicted.
pub proof fn lemma_topk_all_smallest(limit: nat, stream: Seq<(u64, ObjectSampleRowView)>)
    ensures
        topk_all(limit, stream).len() == if stream.len() < limit { stream.len() } else { limit },
        forall|c: (u64, ObjectSampleRowView)| #[trigger] topk_all(limit, stream).to_multiset().count(c)
            <= stream.to_multiset().count(c),
        forall|c: (u64, ObjectSampleRowView), k: int| 0 <= k < topk_all(limit, stream).len()
            && #[trigger] topk_all(limit, stream).to_multiset().count(c) < stream.to_multiset().count(c)
            ==> !candidate_lt(c, #[trigger] topk_all(limit, stream)[k]),
        topk_all(limit, stream).len() < limit ==> topk_all(limit, stream).to_multiset() == stream.to_multiset(),
    decreases stream.len(),
{
    broadcast use vstd::seq_lib::group_to_multiset_ensures;
    let held = topk_all(limit, stream);
    if stream.len() > 0 {
        let init = stream.drop_last();
        let x = stream.last();
        lemma_topk_all_smallest(limit, init);
        let before = topk_all(limit, init);
        let kept0 = before.to_multiset();
        let seen0 = init.to_multiset();
        assert(stream =~= init.push(x));
        vstd::seq_lib::to_multiset_build(init, x);
        let seen = stream.to_multiset();
        assert(seen == seen0.insert(x));
        if before.len() > 0 {
            lemma_topk_worst(before);
        }
        if before.len() < limit {
            assert(held == before.push(x));
            vstd::seq_lib::to_multiset_build(before, x);
            assert(held.to_multiset() =~= seen);
        } else if before.len() == 0 || !candidate_lt(x, before[topk_worst(before)]) {
            assert(held == before);
            assert forall|c: (u64, ObjectSampleRowView), k: int| 0 <= k < held.len() && #[trigger] held.to_multiset().count(c)
                < seen.count(c) implies !candidate_lt(c, #[trigger] held[k]) by {
                if c != x {
                    assert(kept0.count(c) < seen0.count(c));
                } else {
                    let w = topk_worst(before);
                    lemma_candidate_order(before[k], before[w], x);
                }
            }
        } else {
            let w = topk_worst(before);
            assert(held == before.update(w, x));
            vstd::seq_lib::to_multiset_update(before, w, x);
            let kept = held.to_multiset();
            assert(kept == kept0.insert(x).remove(before[w]));
            assert(kept0.count(before[w]) > 0) by {
                vstd::seq_lib::to_multiset_contains(before, before[w]);
                assert(before.contains(before[w]));
            }
            assert forall|c: (u64, ObjectSampleRowView)| #[trigger] kept.count(c) <= seen.count(c) by {
                assert(kept0.count(c) <= seen0.count(c));
            }
            assert forall|c: (u64, ObjectSampleRowView), k: int| 0 <= k < held.len() && #[trigger] kept.count(c) < seen.count(c)
                implies !candidate_lt(c, #[trigger] held[k]) by {
                lemma_candidate_order(x, before[w], x);
                if c != before[w] {
                    assert(kept0.count(c) < seen0.count(c));
                    assert(!candidate_lt(c, before[w]));
                    lemma_candidate_order(x, before[w], c);
                    if k != w {
                        assert(held[k] == before[k]);
                    }
                } else {
                    if k != w {
                        assert(held[k] == before[k]);
                    }
                }
            }
        }
    }
}

/// Each priority group keeps the smallest candidates offered to it since
/// the last drain: `min(limit, n)` of its `n` candidates, only offered
/// ones, and none larger than a candidate it turned away or evicted.
pub proof fn lemma_groups_keep_smallest(accumulator: ObjectSampleAccumulator, i: int)
    requires
        accumulator.groups_follow_offers(),
        0 <= i < accumulator@.groups.len(),
    ensures
        ({
            let limit = accumulator@.groups[i].1.0;
            let held = accumulator@.groups[i].1.1;
            let offered = accumulator.offered()[i];
            &&& held.len() == if offered.len() < limit { offered.len() } else { limit }
            &&& forall|c: (u64, ObjectSampleRowView)| #[trigger] held.to_multiset().count(c) <= offered.to_multiset().count(c)
            &&& forall|c: (u64, ObjectSampleRowView), k: int| 0 <= k < held.len() && #[trigger] held.to_multiset().count(c)
                < offered.to_multiset().count(c) ==> !candidate_lt(c, #[trigger] held[k])
        }),
{
    assert(accumulator@.groups[i].1.1 == topk_all(accumulator@.groups[i].1.0, accumulator.offered()[i]));
    lemma_topk_all_smallest(accumulator@.groups[i].1.0, accumulator.offered()[i]);
}

/// No priority group holds more candidates than its limit.
pub open spec fn groups_within_limits(s: ObjectSampleState) -> bool {
    forall|i: int| 0 <= i < s.groups.len() ==> (#[trigger] s.groups[i]).1.1.len() <= s.groups[i].1.0
}

/// A once-per-key sample is taken once: recording it again changes nothing.
pub proof fn lemma_once_recorded_once(
    s: ObjectSampleState,
    scope: SampleScope,
    key: Seq<char>,
    kind: ObjectSampleKind,
    first: ObjectSampleRowView,
    second: ObjectSampleRowView,
)
    ensures
        once_recorded(once_recorded(s, scope, key, kind, first), scope, key, kind, second) == once_recorded(
            s,
            scope,
            key,
            kind,
            first,
        ),
{
    if !s.once_seen.contains((scope, key, kind)) {
        assert(s.once_seen.push((scope, key, kind))[s.once_seen.len() as int] == (scope, key, kind));
    }
}

proof fn lemma_priority_recorded_bounded(
    s: ObjectSampleState,
    scope: SampleScope,
    key: Seq<char>,
    limit: usize,
    candidate: (u64, ObjectSampleRowView),
)
    requires
        groups_within_limits(s),
    ensures
        groups_within_limits(priority_recorded(s, scope, key, limit, candidate)),
        priority_recorded(s, scope, key, limit, candidate).once_seen == s.once_seen,
{
    lemma_first_group_in_range(s.groups, (scope, key));
    let t = priority_recorded(s, scope, key, limit, candidate);
    if limit != 0 {
        match first_group(s.groups, (scope, key)) {
            Some(i) => {
                let g = s.groups[i].1;
                assert(s.groups[i].1.1.len() <= s.groups[i].1.0);
                lemma_topk_pushed_len(g.0, g.1, candidate);
                assert forall|k: int| 0 <= k < t.groups.len() implies (#[trigger] t.groups[k]).1.1.len() <= t.groups[k].1.0 by {
                    if k != i {
                        assert(t.groups[k] == s.groups[k]);
                    }
                }
            },
            None => {
                assert(topk_pushed(limit as nat, Seq::empty(), candidate).len() <= limit);
                assert forall|k: int| 0 <= k < t.groups.len() implies (#[trigger] t.groups[k]).1.1.len() <= t.groups[k].1.0 by {
                    if k < s.groups.len() {
                        assert(t.groups[k] == s.groups[k]);
                    }
                }
            },
        }
    }
}

proof fn lemma_scope_observed(
    s: ObjectSampleState,
    scope: SampleScope,
    document_index: u64,
    source_path: Seq<char>,
    context: ResolvedObjectContext,
    shape: ShapeFacts,
    object: Seq<(String, JsonValue)>,
    config: SamplingConfig,
)
    requires
        groups_within_limits(s),
    ensures
        ({
            let t = scope_observed(s, scope, document_index, source_path, context, shape, object, config);
            let key = scope_key(scope, context, shape);
            &&& groups_within_limits(t)
            &&& t.once_seen.contains((scope, key, ObjectSampleKind::FirstSeen))
            &&& forall|e| s.once_seen.contains(e) ==> #[trigger] t.once_seen.contains(e)
            &&& forall|e| #[trigger] t.once_seen.contains(e) ==> s.once_seen.contains(e)
                || e == (scope, key, ObjectSampleKind::FirstSeen)
                || (object.len() > 0 && e == (scope, key, ObjectSampleKind::FirstNonEmpty))
        }),
{
    let key = scope_key(scope, context, shape);
    let limit = config.object_json_limit_bytes;
    let row = |kind: ObjectSampleKind, priority: Option<u64>|
        object_sample_row(scope, key, kind, document_index, source_path, context, shape, object, limit, priority);
    let first = (scope, key, ObjectSampleKind::FirstSeen);
    let s1 = once_recorded(s, scope, key, ObjectSampleKind::FirstSeen, row(ObjectSampleKind::FirstSeen, None));
    if !s.once_seen.contains(first) {
        assert(s1.once_seen[s.once_seen.len() as int] == first);
    }
    assert(s1.once_seen.contains(first));
    let s2 = if object.len() > 0 {
        once_recorded(s1, scope, key, ObjectSampleKind::FirstNonEmpty, row(ObjectSampleKind::FirstNonEmpty, None))
    } else {
        s1
    };
    assert(forall|e| s1.once_seen.contains(e) ==> #[trigger] s2.once_seen.contains(e)) by {
        assert forall|e| s1.once_seen.contains(e) implies #[trigger] s2.once_seen.contains(e) by {
            let k = choose|k: int| 0 <= k < s1.once_seen.len() && s1.once_seen[k] == e;
            assert(s2.once_seen[k] == e);
        }
    }
    assert(forall|e| s.once_seen.contains(e) ==> #[trigger] s1.once_seen.contains(e)) by {
        assert forall|e| s.once_seen.contains(e) implies #[trigger] s1.once_seen.contains(e) by {
            let k = choose|k: int| 0 <= k < s.once_seen.len() && s.once_seen[k] == e;
            assert(s1.once_seen[k] == e);
        }
    }
    assert forall|e| #[trigger] s2.once_seen.contains(e) implies s.once_seen.contains(e) || e == first || (object.len()
        > 0 && e == (scope, key, ObjectSampleKind::FirstNonEmpty)) by {
        let k = choose|k: int| 0 <= k < s2.once_seen.len() && s2.once_seen[k] == e;
        if k < s.once_seen.len() {
            assert(s.once_seen[k] == e);
        } else if k < s1.once_seen.len() {
            assert(e == first);
        }
    }
    let priority = object_sample_priority(scope, key, document_index, source_path);
    lemma_priority_recorded_bounded(
        s2,
        scope,
        key,
        scope_priority_limit(scope, config),
        (priority, row(ObjectSampleKind::PrioritySample, Some(priority))),
    );
}

/// Observing an object gives each of its scope keys a first-seen sample, an
/// empty object gives no first-non-empty sample, samples taken before are
/// kept, and no priority group grows past its limit.
pub proof fn lemma_object_observed_samples(
    s: ObjectSampleState,
    document_index: u64,
    source_path: Seq<char>,
    context: ResolvedObjectContext,
    shape: ShapeFacts,
    object: Seq<(String, JsonValue)>,
    config: SamplingConfig,
)
    requires
        groups_within_limits(s),
    ensures
        ({
            let t = object_observed(s, document_index, source_path, context, shape, object, config);
            &&& groups_within_limits(t)
            &&& forall|scope: SampleScope| #[trigger] t.once_seen.contains(
                (scope, scope_key(scope, context, shape), ObjectSampleKind::FirstSeen),
            )
            &&& forall|e| s.once_seen.contains(e) ==> #[trigger] t.once_seen.contains(e)
            &&& object.len() == 0 ==> forall|e: (SampleScope, Seq<char>, ObjectSampleKind)| #[trigger] t.once_seen.contains(e)
                && e.2 == ObjectSampleKind::FirstNonEmpty ==> s.once_seen.contains(e)
        }),
{
    let s1 = scope_observed(s, SampleScope::CanonicalPath, document_index, source_path, context, shape, object, config);
    let s2 = scope_observed(s1, SampleScope::SitePath, document_index, source_path, context, shape, object, config);
    let s3 = scope_observed(s2, SampleScope::FieldSet, document_index, source_path, context, shape, object, config);
    let t = scope_observed(s3, SampleScope::TypeSet, document_index, source_path, context, shape, object, config);
    lemma_scope_observed(s, SampleScope::CanonicalPath, document_index, source_path, context, shape, object, config);
    lemma_scope_observed(s1, SampleScope::SitePath, document_index, source_path, context, shape, object, config);
    lemma_scope_observed(s2, SampleScope::FieldSet, document_index, source_path, context, shape, object, config);
    lemma_scope_observed(s3, SampleScope::TypeSet, document_index, source_path, context, shape, object, config);
    assert forall|scope: SampleScope| #[trigger] t.once_seen.contains(
        (scope, scope_key(scope, context, shape), ObjectSampleKind::FirstSeen),
    ) by {
        match scope {
            SampleScope::CanonicalPath => {},
            SampleScope::SitePath => {},
            SampleScope::FieldSet => {},
            SampleScope::TypeSet => {},
        }
    }
}


proof fn lemma_candidate_le_preorder()
    ensures
        total_preorder(candidate_le()),
{
    assert forall|a: (u64, ObjectSampleRowView), b: (u64, ObjectSampleRowView)| #[trigger] (candidate_le())(a, b)
        || (candidate_le())(b, a) by {
        lemma_candidate_order(a, b, b);
    }
    assert forall|a: (u64, ObjectSampleRowView), b: (u64, ObjectSampleRowView), c: (u64, ObjectSampleRowView)| #[trigger] (
    candidate_le())(a, b) && #[trigger] (candidate_le())(b, c) implies (candidate_le())(a, c) by {
        lemma_candidate_order(a, b, c);
    }
}

proof fn lemma_sample_row_le_preorder()
    ensures
        total_preorder(sample_row_le()),
{
    assert forall|a: ObjectSampleRowView, b: ObjectSampleRowView| #[trigger] (sample_row_le())(a, b) || (sample_row_le())(b, a) by {
        lemma_sample_row_order(a, b, b);
    }
    assert forall|a: ObjectSampleRowView, b: ObjectSampleRowView, c: ObjectSampleRowView| #[trigger] (sample_row_le())(a, b)
        && #[trigger] (sample_row_le())(b, c) implies (sample_row_le())(a, c) by {
        lemma_sample_row_order(a, b, c);
    }
}

// ----- one row per sample key -----

/// The scope, key and kind of a row.
pub open spec fn row_sample_key(row: ObjectSampleRowView) -> (SampleScope, Seq<char>, ObjectSampleKind) {
    (row.sample_scope, row.sample_key, row.sample_kind)
}

/// A priority group's candidates are priority samples of its scope and key,
/// each row carrying its candidate's priority.
pub open spec fn group_candidates_belong(group: ((SampleScope, Seq<char>), (nat, Seq<(u64, ObjectSampleRowView)>))) -> bool {
    forall|k: int| 0 <= k < group.1.1.len() ==> {
        let c = #[trigger] group.1.1[k];
        &&& c.1.sample_scope == group.0.0
        &&& c.1.sample_key == group.0.1
        &&& c.1.sample_kind == ObjectSampleKind::PrioritySample
        &&& c.1.sample_priority == Some(c.0)
    }
}

/// The waiting rows are the once-per-key samples taken, one row for each
/// `(scope, key, kind)` recorded and none recorded twice; no two priority
/// groups share a `(scope, key)`, and each group's candidates belong to it.
pub open spec fn samples_consistent(s: ObjectSampleState) -> bool {
    &&& s.pending.map_values(|r: ObjectSampleRowView| row_sample_key(r)) == s.once_seen
    &&& s.once_seen.no_duplicates()
    &&& forall|i: int, j: int| #![trigger s.groups[i], s.groups[j]] 0 <= i < j < s.groups.len() ==> s.groups[i].0 != s.groups[j].0
    &&& forall|i: int| 0 <= i < s.groups.len() ==> group_candidates_belong(#[trigger] s.groups[i])
}

proof fn lemma_once_recorded_consistent(
    s: ObjectSampleState,
    scope: SampleScope,
    key: Seq<char>,
    kind: ObjectSampleKind,
    row: ObjectSampleRowView,
)
    requires
        samples_consistent(s),
        row_sample_key(row) == (scope, key, kind),
    ensures
        samples_consistent(once_recorded(s, scope, key, kind, row)),
{
    let t = once_recorded(s, scope, key, kind, row);
    if !s.once_seen.contains((scope, key, kind)) {
        assert(t.pending.map_values(|r: ObjectSampleRowView| row_sample_key(r)) =~= s.pending.map_values(
            |r: ObjectSampleRowView| row_sample_key(r),
        ).push(row_sample_key(row)));
        assert forall|a: int, b: int| 0 <= a < t.once_seen.len() && 0 <= b < t.once_seen.len() && a != b implies t.once_seen[a]
            != t.once_seen[b] by {
            if a < s.once_seen.len() && b < s.once_seen.len() {
            } else if a < s.once_seen.len() {
                assert(s.once_seen.contains(s.once_seen[a]));
            } else {
                assert(s.once_seen.contains(s.once_seen[b]));
            }
        }
    }
}

proof fn lemma_topk_pushed_belongs(
    group: ((SampleScope, Seq<char>), (nat, Seq<(u64, ObjectSampleRowView)>)),
    candidate: (u64, ObjectSampleRowView),
)
    requires
        group_candidates_belong(group),
        candidate.1.sample_scope == group.0.0,
        candidate.1.sample_key == group.0.1,
        candidate.1.sample_kind == ObjectSampleKind::PrioritySample,
        candidate.1.sample_priority == Some(candidate.0),
    ensures
        group_candidates_belong((group.0, (group.1.0, topk_pushed(group.1.0, group.1.1, candidate)))),
{
    let items = group.1.1;
    let result = topk_pushed(group.1.0, items, candidate);
    if items.len() > 0 {
        lemma_topk_worst(items);
    }
    assert forall|k: int| 0 <= k < result.len() implies {
        let c = #[trigger] result[k];
        &&& c.1.sample_scope == group.0.0
        &&& c.1.sample_key == group.0.1
        &&& c.1.sample_kind == ObjectSampleKind::PrioritySample
        &&& c.1.sample_priority == Some(c.0)
    } by {
        if k < items.len() && result[k] == items[k] {
        } else {
            assert(result[k] == candidate);
        }
    }
}

proof fn lemma_priority_recorded_consistent(
    s: ObjectSampleState,
    scope: SampleScope,
    key: Seq<char>,
    limit: usize,
    candidate: (u64, ObjectSampleRowView),
)
    requires
        samples_consistent(s),
        candidate.1.sample_scope == scope,
        candidate.1.sample_key == key,
        candidate.1.sample_kind == ObjectSampleKind::PrioritySample,
        candidate.1.sample_priority == Some(candidate.0),
    ensures
        samples_consistent(priority_recorded(s, scope, key, limit, candidate)),
{
    lemma_first_group_in_range(s.groups, (scope, key));
    let t = priority_recorded(s, scope, key, limit, candidate);
    if limit != 0 {
        match first_group(s.groups, (scope, key)) {
            Some(i) => {
                lemma_topk_pushed_belongs(s.groups[i], candidate);
                assert forall|a: int, b: int| #![trigger t.groups[a], t.groups[b]] 0 <= a < b < t.groups.len() implies t.groups[a].0
                    != t.groups[b].0 by {
                    assert(s.groups[a].0 != s.groups[b].0);
                }
                assert forall|k: int| 0 <= k < t.groups.len() implies group_candidates_belong(#[trigger] t.groups[k]) by {
                    if k != i {
                        assert(t.groups[k] == s.groups[k]);
                    }
                }
            },
            None => {
                let fresh: ((SampleScope, Seq<char>), (nat, Seq<(u64, ObjectSampleRowView)>)) = ((scope, key), (limit as nat, Seq::empty()));
                lemma_topk_pushed_belongs(fresh, candidate);
                assert forall|a: int, b: int| #![trigger t.groups[a], t.groups[b]] 0 <= a < b < t.groups.len() implies t.groups[a].0
                    != t.groups[b].0 by {
                    if b < s.groups.len() {
                        assert(s.groups[a].0 != s.groups[b].0);
                    } else {
                        assert(t.groups[a] == s.groups[a]);
                        if s.groups[a].0 == (scope, key) {
                            assert(exists|i: int| 0 <= i < s.groups.len() && (#[trigger] s.groups[i]).0 == (scope, key));
                        }
                    }
                }
                assert forall|k: int| 0 <= k < t.groups.len() implies group_candidates_belong(#[trigger] t.groups[k]) by {
                    if k < s.groups.len() {
                        assert(t.groups[k] == s.groups[k]);
                    }
                }
            },
        }
    }
}

proof fn lemma_scope_observed_consistent(
    s: ObjectSampleState,
    scope: SampleScope,
    document_index: u64,
    source_path: Seq<char>,
    context: ResolvedObjectContext,
    shape: ShapeFacts,
    object: Seq<(String, JsonValue)>,
    config: SamplingConfig,
)
    requires
        samples_consistent(s),
    ensures
        samples_consistent(scope_observed(s, scope, document_index, source_path, context, shape, object, config)),
{
    let key = scope_key(scope, context, shape);
    let limit = config.object_json_limit_bytes;
    let row = |kind: ObjectSampleKind, priority: Option<u64>|
        object_sample_row(scope, key, kind, document_index, source_path, context, shape, object, limit, priority);
    lemma_once_recorded_consistent(s, scope, key, ObjectSampleKind::FirstSeen, row(ObjectSampleKind::FirstSeen, None));
    let s1 = once_recorded(s, scope, key, ObjectSampleKind::FirstSeen, row(ObjectSampleKind::FirstSeen, None));
    if object.len() > 0 {
        lemma_once_recorded_consistent(s1, scope, key, ObjectSampleKind::FirstNonEmpty, row(ObjectSampleKind::FirstNonEmpty, None));
    }
    let s2 = if object.len() > 0 {
        once_recorded(s1, scope, key, ObjectSampleKind::FirstNonEmpty, row(ObjectSampleKind::FirstNonEmpty, None))
    } else {
        s1
    };
    let priority = object_sample_priority(scope, key, document_index, source_path);
    lemma_priority_recorded_consistent(
        s2,
        scope,
        key,
        scope_priority_limit(scope, config),
        (priority, row(ObjectSampleKind::PrioritySample, Some(priority))),
    );
}

/// No samples are consistent samples.
pub proof fn lemma_no_samples_consistent()
    ensures
        samples_consistent(empty_object_samples()),
{
    let e = empty_object_samples();
    assert(e.pending.map_values(|r: ObjectSampleRowView| row_sample_key(r)) =~= e.once_seen);
}

/// Observing an object keeps the samples consistent.
pub proof fn lemma_object_observed_consistent(
    s: ObjectSampleState,
    document_index: u64,
    source_path: Seq<char>,
    context: ResolvedObjectContext,
    shape: ShapeFacts,
    object: Seq<(String, JsonValue)>,
    config: SamplingConfig,
)
    requires
        samples_consistent(s),
    ensures
        samples_consistent(object_observed(s, document_index, source_path, context, shape, object, config)),
{
    let s1 = scope_observed(s, SampleScope::CanonicalPath, document_index, source_path, context, shape, object, config);
    let s2 = scope_observed(s1, SampleScope::SitePath, document_index, source_path, context, shape, object, config);
    let s3 = scope_observed(s2, SampleScope::FieldSet, document_index, source_path, context, shape, object, config);
    lemma_scope_observed_consistent(s, SampleScope::CanonicalPath, document_index, source_path, context, shape, object, config);
    lemma_scope_observed_consistent(s1, SampleScope::SitePath, document_index, source_path, context, shape, object, config);
    lemma_scope_observed_consistent(s2, SampleScope::FieldSet, document_index, source_path, context, shape, object, config);
    lemma_scope_observed_consistent(s3, SampleScope::TypeSet, document_index, source_path, context, shape, object, config);
}

/// What a drain of consistent samples hands out, by sample key: the rows
/// are the waiting once-per-key rows and each priority group's ranked
/// rows, in row order; there is exactly one waiting row for each recorded
/// `(scope, key, kind)` (a first-seen for every observed key, a
/// first-non-empty only for a key once seen non-empty); and every row of a
/// priority group is a priority sample of that group's scope and key, no
/// two groups sharing one.
pub proof fn lemma_drained_rows_by_key(s: ObjectSampleState)
    requires
        samples_consistent(s),
    ensures
        drained_rows(s).to_multiset() == (s.pending + group_rows(s.groups)).to_multiset(),
        drained_rows(s).len() == s.pending.len() + group_rows(s.groups).len(),
        forall|e: (SampleScope, Seq<char>, ObjectSampleKind)| #[trigger] s.once_seen.contains(e) ==> exists|i: int|
            0 <= i < s.pending.len() && row_sample_key(#[trigger] s.pending[i]) == e && forall|j: int| 0 <= j < s.pending.len()
                && row_sample_key(#[trigger] s.pending[j]) == e ==> j == i,
        forall|i: int| 0 <= i < s.pending.len() ==> s.once_seen.contains(row_sample_key(#[trigger] s.pending[i])),
        forall|i: int, j: int| #![trigger s.groups[i], s.groups[j]] 0 <= i < j < s.groups.len() ==> s.groups[i].0 != s.groups[j].0,
        forall|i: int, k: int| 0 <= i < s.groups.len() && 0 <= k < ranked_candidate_rows(s.groups[i].1.1).len() ==> {
            let r = #[trigger] ranked_candidate_rows(s.groups[i].1.1)[k];
            &&& r.sample_scope == s.groups[i].0.0
            &&& r.sample_key == s.groups[i].0.1
            &&& r.sample_kind == ObjectSampleKind::PrioritySample
        },
{
    let keys = s.pending.map_values(|r: ObjectSampleRowView| row_sample_key(r));
    assert forall|e: (SampleScope, Seq<char>, ObjectSampleKind)| #[trigger] s.once_seen.contains(e) implies exists|i: int|
        0 <= i < s.pending.len() && row_sample_key(#[trigger] s.pending[i]) == e && forall|j: int| 0 <= j < s.pending.len()
            && row_sample_key(#[trigger] s.pending[j]) == e ==> j == i by {
        let i = choose|i: int| 0 <= i < s.once_seen.len() && s.once_seen[i] == e;
        assert(keys[i] == row_sample_key(s.pending[i]));
        assert forall|j: int| 0 <= j < s.pending.len() && row_sample_key(#[trigger] s.pending[j]) == e implies j == i by {
            assert(keys[j] == row_sample_key(s.pending[j]));
        }
    }
    assert forall|i: int| 0 <= i < s.pending.len() implies s.once_seen.contains(row_sample_key(#[trigger] s.pending[i])) by {
        assert(keys[i] == row_sample_key(s.pending[i]));
    }
    assert forall|i: int, k: int| 0 <= i < s.groups.len() && 0 <= k < ranked_candidate_rows(s.groups[i].1.1).len() implies {
        let r = #[trigger] ranked_candidate_rows(s.groups[i].1.1)[k];
        &&& r.sample_scope == s.groups[i].0.0
        &&& r.sample_key == s.groups[i].0.1
        &&& r.sample_kind == ObjectSampleKind::PrioritySample
    } by {
        let items = s.groups[i].1.1;
        let sorted = insertion_sorted_by(items, candidate_le());
        lemma_candidate_le_preorder();
        crate::util::sort::lemma_insertion_sorted_by(items, candidate_le());
        broadcast use vstd::seq_lib::group_to_multiset_ensures;
        assert(sorted.contains(sorted[k]));
        vstd::seq_lib::to_multiset_contains(sorted, sorted[k]);
        vstd::seq_lib::to_multiset_contains(items, sorted[k]);
        let m = choose|m: int| 0 <= m < items.len() && items[m] == sorted[k];
        assert(group_candidates_belong(s.groups[i]));
        assert(items[m] == s.groups[i].1.1[m]);
    }
    lemma_sample_row_le_preorder();
    crate::util::sort::lemma_insertion_sorted_by(s.pending + group_rows(s.groups), sample_row_le());
    crate::util::sort::lemma_insertion_sorted_by_len(s.pending + group_rows(s.groups), sample_row_le());
}


// ----- each scope's own limit -----

/// The limit `config` configures for a scope: the canonical path scope's,
/// the site path scope's, the field set scope's or the type set scope's own
/// `priority_sample_limit`.
pub open spec fn configured_scope_limit(scope: SampleScope, config: SamplingConfig) -> nat {
    match scope {
        SampleScope::CanonicalPath => config.canonical_priority_limit as nat,
        SampleScope::SitePath => config.site_priority_limit as nat,
        SampleScope::FieldSet => config.field_set_priority_limit as nat,
        SampleScope::TypeSet => config.type_set_priority_limit as nat,
    }
}

/// Some priority group has the key `(scope, key)`.
pub open spec fn has_group(s: ObjectSampleState, scope: SampleScope, key: Seq<char>) -> bool {
    exists|i: int| 0 <= i < s.groups.len() && (#[trigger] s.groups[i]).0 == (scope, key)
}

/// Every priority group has the limit its scope is configured with.
pub open spec fn groups_use_scope_limits(s: ObjectSampleState, config: SamplingConfig) -> bool {
    forall|i: int| 0 <= i < s.groups.len() ==> (#[trigger] s.groups[i]).1.0 == configured_scope_limit(s.groups[i].0.0, config)
}

proof fn lemma_scope_observed_limits(
    s: ObjectSampleState,
    scope: SampleScope,
    document_index: u64,
    source_path: Seq<char>,
    context: ResolvedObjectContext,
    shape: ShapeFacts,
    object: Seq<(String, JsonValue)>,
    config: SamplingConfig,
)
    requires
        groups_use_scope_limits(s, config),
    ensures
        ({
            let t = scope_observed(s, scope, document_index, source_path, context, shape, object, config);
            let key = scope_key(scope, context, shape);
            &&& groups_use_scope_limits(t, config)
            &&& configured_scope_limit(scope, config) > 0 ==> has_group(t, scope, key)
            &&& forall|sc: SampleScope, k: Seq<char>| #[trigger] has_group(s, sc, k) ==> has_group(t, sc, k)
        }),
{
    let key = scope_key(scope, context, shape);
    let limit = config.object_json_limit_bytes;
    let row = |kind: ObjectSampleKind, priority: Option<u64>|
        object_sample_row(scope, key, kind, document_index, source_path, context, shape, object, limit, priority);
    let s1 = once_recorded(s, scope, key, ObjectSampleKind::FirstSeen, row(ObjectSampleKind::FirstSeen, None));
    let s2 = if object.len() > 0 {
        once_recorded(s1, scope, key, ObjectSampleKind::FirstNonEmpty, row(ObjectSampleKind::FirstNonEmpty, None))
    } else {
        s1
    };
    assert(s2.groups == s.groups);
    let priority = object_sample_priority(scope, key, document_index, source_path);
    let t = priority_recorded(
        s2,
        scope,
        key,
        scope_priority_limit(scope, config),
        (priority, row(ObjectSampleKind::PrioritySample, Some(priority))),
    );
    lemma_first_group_in_range(s.groups, (scope, key));
    assert(t == scope_observed(s, scope, document_index, source_path, context, shape, object, config));
    if scope_priority_limit(scope, config) != 0 {
        match first_group(s.groups, (scope, key)) {
            Some(i) => {
                assert forall|k: int| 0 <= k < t.groups.len() implies (#[trigger] t.groups[k]).1.0 == configured_scope_limit(
                    t.groups[k].0.0,
                    config,
                ) by {
                    if k != i {
                        assert(t.groups[k] == s.groups[k]);
                    } else {
                        assert(s.groups[k].1.0 == configured_scope_limit(s.groups[k].0.0, config));
                    }
                }
                assert(t.groups[i].0 == (scope, key));
                assert forall|sc: SampleScope, k: Seq<char>| #[trigger] has_group(s, sc, k) implies has_group(t, sc, k) by {
                    let j = choose|j: int| 0 <= j < s.groups.len() && (#[trigger] s.groups[j]).0 == (sc, k);
                    assert(t.groups[j].0 == s.groups[j].0);
                }
            },
            None => {
                let n = s.groups.len() as int;
                assert forall|sc: SampleScope, k: Seq<char>| #[trigger] has_group(s, sc, k) implies has_group(t, sc, k) by {
                    let j = choose|j: int| 0 <= j < s.groups.len() && (#[trigger] s.groups[j]).0 == (sc, k);
                    assert(t.groups[j] == s.groups[j]);
                }
                assert forall|k: int| 0 <= k < t.groups.len() implies (#[trigger] t.groups[k]).1.0 == configured_scope_limit(
                    t.groups[k].0.0,
                    config,
                ) by {
                    if k < n {
                        assert(t.groups[k] == s.groups[k]);
                    }
                }
                assert(t.groups[n].0 == (scope, key));
            },
        }
    }
}

/// Empty samples have no priority group, so each of their groups trivially
/// has its scope's limit.
pub proof fn lemma_no_samples_use_scope_limits(config: SamplingConfig)
    ensures
        groups_use_scope_limits(empty_object_samples(), config),
{
}

/// Each scope's priority group has that scope's own configured limit:
/// observing an object under `config` keeps every group's limit the one its
/// scope is configured with, and gives each scope whose configured limit is
/// positive a group for the object's key in that scope. With
/// `lemma_groups_keep_smallest`, the group of a scope keeps `min(n, L)` of
/// the `n` objects offered to it, `L` being that scope's own limit.
pub proof fn lemma_object_observed_scope_limits(
    s: ObjectSampleState,
    document_index: u64,
    source_path: Seq<char>,
    context: ResolvedObjectContext,
    shape: ShapeFacts,
    object: Seq<(String, JsonValue)>,
    config: SamplingConfig,
)
    requires
        groups_use_scope_limits(s, config),
    ensures
        ({
            let t = object_observed(s, document_index, source_path, context, shape, object, config);
            &&& groups_use_scope_limits(t, config)
            &&& forall|scope: SampleScope| configured_scope_limit(scope, config) > 0 ==> #[trigger] has_group(
                t,
                scope,
                scope_key(scope, context, shape),
            )
        }),
{
    let s1 = scope_observed(s, SampleScope::CanonicalPath, document_index, source_path, context, shape, object, config);
    let s2 = scope_observed(s1, SampleScope::SitePath, document_index, source_path, context, shape, object, config);
    let s3 = scope_observed(s2, SampleScope::FieldSet, document_index, source_path, context, shape, object, config);
    let t = scope_observed(s3, SampleScope::TypeSet, document_index, source_path, context, shape, object, config);
    lemma_scope_observed_limits(s, SampleScope::CanonicalPath, document_index, source_path, context, shape, object, config);
    lemma_scope_observed_limits(s1, SampleScope::SitePath, document_index, source_path, context, shape, object, config);
    lemma_scope_observed_limits(s2, SampleScope::FieldSet, document_index, source_path, context, shape, object, config);
    lemma_scope_observed_limits(s3, SampleScope::TypeSet, document_index, source_path, context, shape, object, config);
    assert forall|scope: SampleScope| configured_scope_limit(scope, config) > 0 implies #[trigger] has_group(
        t,
        scope,
        scope_key(scope, context, shape),
    ) by {
        let key = scope_key(scope, context, shape);
        match scope {
            SampleScope::CanonicalPath => {
                assert(has_group(s1, scope, key));
                assert(has_group(s2, scope, key));
                assert(has_group(s3, scope, key));
            },
            SampleScope::SitePath => {
                assert(has_group(s2, scope, key));
                assert(has_group(s3, scope, key));
            },
            SampleScope::FieldSet => {
                assert(has_group(s3, scope, key));
            },
            SampleScope::TypeSet => {},
        }
    }
}

} // verus!
