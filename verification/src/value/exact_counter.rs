//! Exact value counts for a field profile, kept while the number of
//! distinct values and their bytes stay within budget.

use vstd::prelude::*;

use crate::util::json_type::{JsonType, json_type_name, json_type_of};
use crate::util::json_value::{JsonValue, json_text};
use crate::util::sort::{SortKey, insertion_sorted_by, key_le, lemma_insertion_sorted_map, sort_rows};
use crate::util::text::{compare_text, text_lt};
use crate::util::truncate::{truncate_utf8, truncated_text};
use crate::value::display::{display_raw, display_raw_text};
use crate::value::identity::{
    ValueKey, canonical_json, canonical_text, key_hash_text, value_hash_from_key, value_key, value_key_of,
};
use vstd::utf8::encode_utf8;

verus! {

#[derive(Debug, Clone, Copy, PartialEq, Eq, Structural)]
pub enum CountMethod {
    Exact,
    Approximate,
    Sampled,
    Unavailable,
}

impl CountMethod {
    pub fn as_sql_str(self) -> (name: &'static str)
        ensures
            name@ == count_method_name(self),
    {
        match self {
            CountMethod::Exact => {
                proof { reveal_strlit("exact"); }
                "exact"
            },
            CountMethod::Approximate => {
                proof { reveal_strlit("approximate"); }
                "approximate"
            },
            CountMethod::Sampled => {
                proof { reveal_strlit("sampled"); }
                "sampled"
            },
            CountMethod::Unavailable => {
                proof { reveal_strlit("unavailable"); }
                "unavailable"
            },
        }
    }
}

pub open spec fn count_method_name(method: CountMethod) -> Seq<char> {
    match method {
        CountMethod::Exact => seq!['e', 'x', 'a', 'c', 't'],
        CountMethod::Approximate => seq!['a', 'p', 'p', 'r', 'o', 'x', 'i', 'm', 'a', 't', 'e'],
        CountMethod::Sampled => seq!['s', 'a', 'm', 'p', 'l', 'e', 'd'],
        CountMethod::Unavailable => seq!['u', 'n', 'a', 'v', 'a', 'i', 'l', 'a', 'b', 'l', 'e'],
    }
}

#[derive(Debug, Clone, Copy, PartialEq, Eq, Structural)]
pub enum ValueSource {
    ExactFull,
    ExactSelected,
    HeavyHitter,
    Sampled,
}

impl ValueSource {
    pub fn as_sql_str(self) -> (name: &'static str)
        ensures
            name@ == value_source_name(self),
    {
        match self {
            ValueSource::ExactFull => {
                proof { reveal_strlit("exact_full"); }
                "exact_full"
            },
            ValueSource::ExactSelected => {
                proof { reveal_strlit("exact_selected"); }
                "exact_selected"
            },
            ValueSource::HeavyHitter => {
                proof { reveal_strlit("heavy_hitter"); }
                "heavy_hitter"
            },
            ValueSource::Sampled => {
                proof { reveal_strlit("sampled"); }
                "sampled"
            },
        }
    }
}

pub open spec fn value_source_name(source: ValueSource) -> Seq<char> {
    match source {
        ValueSource::ExactFull => seq!['e', 'x', 'a', 'c', 't', '_', 'f', 'u', 'l', 'l'],
        ValueSource::ExactSelected => seq!['e', 'x', 'a', 'c', 't', '_', 's', 'e', 'l', 'e', 'c', 't', 'e', 'd'],
        ValueSource::HeavyHitter => seq!['h', 'e', 'a', 'v', 'y', '_', 'h', 'i', 't', 't', 'e', 'r'],
        ValueSource::Sampled => seq!['s', 'a', 'm', 'p', 'l', 'e', 'd'],
    }
}

#[derive(Debug, Clone, PartialEq)]
pub struct FieldValueRow {
    pub field_profile_id: String,
    pub value_hash: String,
    pub value_type: JsonType,
    pub value_text: Option<String>,
    pub value_text_truncated: bool,
    pub count: Option<u64>,
    pub count_method: CountMethod,
    pub value_source: ValueSource,
    pub rank: Option<u32>,
    pub is_complete_distribution: bool,
}

/// A field value row with its texts as character sequences.
pub struct FieldValueRowView {
    pub field_profile_id: Seq<char>,
    pub value_hash: Seq<char>,
    pub value_type: JsonType,
    pub value_text: Option<Seq<char>>,
    pub value_text_truncated: bool,
    pub count: Option<u64>,
    pub count_method: CountMethod,
    pub value_source: ValueSource,
    pub rank: Option<u32>,
    pub is_complete_distribution: bool,
}

pub open spec fn option_text_view(text: Option<String>) -> Option<Seq<char>> {
    match text {
        Some(t) => Some(t@),
        None => None,
    }
}

impl View for FieldValueRow {
    type V = FieldValueRowView;

    open spec fn view(&self) -> FieldValueRowView {
        FieldValueRowView {
            field_profile_id: self.field_profile_id@,
            value_hash: self.value_hash@,
            value_type: self.value_type,
            value_text: option_text_view(self.value_text),
            value_text_truncated: self.value_text_truncated,
            count: self.count,
            count_method: self.count_method,
            value_source: self.value_source,
            rank: self.rank,
            is_complete_distribution: self.is_complete_distribution,
        }
    }
}

/// `None` before every count, then counts in ascending order.
pub open spec fn option_count_lt(a: Option<u64>, b: Option<u64>) -> bool {
    match (a, b) {
        (None, Some(_)) => true,
        (Some(x), Some(y)) => x < y,
        _ => false,
    }
}

/// Rows by descending count, then by ascending value hash.
pub open spec fn row_le() -> spec_fn(FieldValueRowView, FieldValueRowView) -> bool {
    |a: FieldValueRowView, b: FieldValueRowView|
        option_count_lt(b.count, a.count) || (a.count == b.count && !text_lt(b.value_hash, a.value_hash))
}

impl SortKey for FieldValueRow {
    open spec fn sort_le_spec(&self, other: &Self) -> bool {
        (row_le())(self@, other@)
    }

    fn sort_le(&self, other: &Self) -> (le: bool) {
        let greater = match (&other.count, &self.count) {
            (None, Some(_)) => true,
            (Some(x), Some(y)) => *x < *y,
            _ => false,
        };
        let equal = match (&other.count, &self.count) {
            (None, None) => true,
            (Some(x), Some(y)) => *x == *y,
            _ => false,
        };
        greater || (equal && compare_text(other.value_hash.as_str(), self.value_hash.as_str()) != -1)
    }

    proof fn lemma_sort_le_total(a: &Self, b: &Self) {
        crate::util::text::lemma_text_lt_order(a.value_hash@, b.value_hash@);
    }

    proof fn lemma_sort_le_transitive(a: &Self, b: &Self, c: &Self) {
        crate::util::text::lemma_text_lt_order(a.value_hash@, b.value_hash@);
        crate::util::text::lemma_text_lt_order(b.value_hash@, c.value_hash@);
        crate::util::text::lemma_text_lt_order(a.value_hash@, c.value_hash@);
        if text_lt(c.value_hash@, a.value_hash@) && a.value_hash@ != b.value_hash@ && b.value_hash@ != c.value_hash@ {
            crate::util::text::lemma_text_lt_transitive(a.value_hash@, b.value_hash@, c.value_hash@);
        }
    }
}

/// `rows` with ranks 1, 2, ... in order.
pub open spec fn with_ranks(rows: Seq<FieldValueRowView>) -> Seq<FieldValueRowView> {
    Seq::new(rows.len(), |i: int| FieldValueRowView { rank: Some(#[verifier::truncate] ((i + 1) as u32)), ..rows[i] })
}

/// Gives `rows` the ranks 1, 2, ... in their order.
pub fn ranked_rows(rows: Vec<FieldValueRow>) -> (ranked: Vec<FieldValueRow>)
    ensures
        ranked@.map_values(|r: FieldValueRow| r@) == with_ranks(rows@.map_values(|r: FieldValueRow| r@)),
{
    let ghost sorted_views = rows@.map_values(|r: FieldValueRow| r@);
    let count = rows.len();
    let mut ranked: Vec<FieldValueRow> = Vec::new();
    let mut rest = rows;
    let mut taken: usize = 0;
    assert(rest@.map_values(|r: FieldValueRow| r@) =~= sorted_views.skip(0));
    while rest.len() > 0
        invariant
            taken + rest@.len() == count,
            count == sorted_views.len(),
            rest@.map_values(|r: FieldValueRow| r@) == sorted_views.skip(taken as int),
            ranked@.map_values(|r: FieldValueRow| r@) == with_ranks(sorted_views).subrange(0, taken as int),
        decreases rest@.len(),
    {
        let ghost before = rest@;
        let mut row = rest.remove(0);
        proof {
            assert(before.map_values(|r: FieldValueRow| r@)[0] == row@);
            assert(row@ == sorted_views[taken as int]);
        }
        let rank = #[verifier::truncate] ((taken as u64 + 1) as u32);
        row.rank = Some(rank);
        let ghost ranked_before = ranked@;
        ranked.push(row);
        proof {
            assert(ranked_before.map_values(|r: FieldValueRow| r@).len() == ranked_before.len());
            assert(ranked_before.len() == taken);
            assert(rest@ =~= before.remove(0));
            assert forall|k: int| 0 <= k < rest@.len() implies #[trigger] rest@[k]@ == sorted_views.skip(taken + 1)[k] by {
                assert(rest@[k] == before[k + 1]);
                assert(before.map_values(|r: FieldValueRow| r@)[k + 1] == sorted_views.skip(taken as int)[k + 1]);
            }
            assert(rest@.map_values(|r: FieldValueRow| r@) =~= sorted_views.skip(taken + 1));
            assert forall|k: int| 0 <= k < taken implies #[trigger] ranked@[k]@ == with_ranks(sorted_views)[k] by {
                assert(ranked@[k] == ranked_before[k]);
                assert(ranked_before.map_values(|r: FieldValueRow| r@)[k] == with_ranks(sorted_views).subrange(0, taken as int)[k]);
            }
            assert(ranked@[taken as int]@ == with_ranks(sorted_views)[taken as int]);
            assert(ranked@.map_values(|r: FieldValueRow| r@) =~= with_ranks(sorted_views).subrange(0, taken + 1));
        }
        taken = taken + 1;
    }
    assert(with_ranks(sorted_views).subrange(0, count as int) =~= with_ranks(sorted_views));
    ranked
}

#[derive(Debug, Clone)]
pub struct ExactValueState {
    pub count: u64,
    pub value_type: JsonType,
    pub stored_text: Option<String>,
    pub approx_bytes: usize,
}

/// A value's state as its count, type, display text and byte estimate.
impl View for ExactValueState {
    type V = (u64, JsonType, Option<Seq<char>>, usize);

    open spec fn view(&self) -> (u64, JsonType, Option<Seq<char>>, usize) {
        (self.count, self.value_type, option_text_view(self.stored_text), self.approx_bytes)
    }
}

#[derive(Clone)]
pub struct ExactCounter {
    enabled: bool,
    counts: Vec<(ValueKey, ExactValueState)>,
    distinct_threshold: usize,
    byte_budget: usize,
    used_bytes: usize,
    values_seen: Ghost<Seq<JsonValue>>,
}

/// A counted value: its key and its state.
pub open spec fn entry_view(entry: (ValueKey, ExactValueState)) -> ((u8, bool, Seq<char>), (u64, JsonType, Option<Seq<char>>, usize)) {
    (entry.0@, entry.1@)
}

/// The byte estimate of a value: nothing for null, one for a boolean, the
/// text of a number or string, the canonical JSON of an array or object.
pub open spec fn approx_bytes_of(value: JsonValue) -> nat {
    match value {
        JsonValue::Null => 0,
        JsonValue::Bool(_) => 1,
        JsonValue::Number(number) => encode_utf8(number.text@).len(),
        JsonValue::String(text) => encode_utf8(text@).len(),
        _ => encode_utf8(canonical_text(value)).len(),
    }
}

pub fn approximate_value_bytes(value: &JsonValue) -> (bytes: usize)
    ensures
        bytes == approx_bytes_of(*value),
{
    match value {
        JsonValue::Null => 0,
        JsonValue::Bool(_) => 1,
        JsonValue::Number(number) => number.text.as_str().as_bytes().len(),
        JsonValue::String(text) => text.as_str().as_bytes().len(),
        _ => {
            let canonical = canonical_json(value);
            canonical.as_str().as_bytes().len()
        },
    }
}

/// Whether two counted values have the same key.
pub open spec fn distinct_value_keys(entries: Seq<((u8, bool, Seq<char>), (u64, JsonType, Option<Seq<char>>, usize))>) -> bool {
    forall|i: int, j: int| #![trigger entries[i], entries[j]] 0 <= i < j < entries.len() ==> entries[i].0 != entries[j].0
}

/// The sum of the byte estimates of the counted values.
pub open spec fn total_bytes(entries: Seq<((u8, bool, Seq<char>), (u64, JsonType, Option<Seq<char>>, usize))>) -> int
    decreases entries.len(),
{
    if entries.len() == 0 {
        0
    } else {
        total_bytes(entries.drop_last()) + entries.last().1.3
    }
}

/// The position of the value with this key, when it is counted.
pub open spec fn value_position(entries: Seq<((u8, bool, Seq<char>), (u64, JsonType, Option<Seq<char>>, usize))>, key: (u8, bool, Seq<char>)) -> int {
    choose|i: int| 0 <= i < entries.len() && #[trigger] entries[i].0 == key
}

pub open spec fn counts_value(entries: Seq<((u8, bool, Seq<char>), (u64, JsonType, Option<Seq<char>>, usize))>, key: (u8, bool, Seq<char>)) -> bool {
    exists|i: int| 0 <= i < entries.len() && #[trigger] entries[i].0 == key
}

/// The row for one counted value.
pub open spec fn exact_row(field_profile_id: Seq<char>, value_text_limit: nat, entry: ((u8, bool, Seq<char>), (u64, JsonType, Option<Seq<char>>, usize))) -> FieldValueRowView {
    FieldValueRowView {
        field_profile_id,
        value_hash: key_hash_text(entry.0),
        value_type: entry.1.1,
        value_text: match entry.1.2 {
            Some(text) => Some(truncated_text(text, value_text_limit)),
            None => None,
        },
        value_text_truncated: match entry.1.2 {
            Some(text) => encode_utf8(text).len() > value_text_limit,
            None => false,
        },
        count: Some(entry.1.0),
        count_method: CountMethod::Exact,
        value_source: ValueSource::ExactFull,
        rank: None,
        is_complete_distribution: true,
    }
}

/// What observing `value` does to an exact counter that is `enabled` with
/// `entries`: a counted value counts once more; a new value is added, unless
/// the distinct values or their bytes would then pass their limits, which
/// disables the counter and forgets every value. A disabled counter stays as
/// it is.
pub open spec fn exact_step(
    threshold: nat,
    budget: nat,
    enabled: bool,
    entries: Seq<((u8, bool, Seq<char>), (u64, JsonType, Option<Seq<char>>, usize))>,
    value: JsonValue,
) -> (bool, Seq<((u8, bool, Seq<char>), (u64, JsonType, Option<Seq<char>>, usize))>) {
    let key = value_key_of(value);
    if !enabled {
        (false, entries)
    } else if counts_value(entries, key) {
        let i = value_position(entries, key);
        let e = entries[i];
        (true, entries.update(i, (e.0, ((e.1.0 + 1) as u64, e.1.1, e.1.2, e.1.3))))
    } else {
        let added = entries.push((key, (1u64, json_type_of(value), Some(display_raw(value)), approx_bytes_of(value) as usize)));
        if added.len() > threshold || total_bytes(entries) + approx_bytes_of(value) > budget {
            (false, Seq::empty())
        } else {
            (true, added)
        }
    }
}

/// A new exact counter after observing `stream`, value after value.
pub open spec fn exact_after(threshold: nat, budget: nat, stream: Seq<JsonValue>) -> (
    bool,
    Seq<((u8, bool, Seq<char>), (u64, JsonType, Option<Seq<char>>, usize))>,
)
    decreases stream.len(),
{
    if stream.len() == 0 {
        (true, Seq::empty())
    } else {
        let before = exact_after(threshold, budget, stream.drop_last());
        exact_step(threshold, budget, before.0, before.1, stream.last())
    }
}

/// How many values of `stream` have the key `key`.
pub open spec fn key_occurrences(stream: Seq<JsonValue>, key: (u8, bool, Seq<char>)) -> nat
    decreases stream.len(),
{
    if stream.len() == 0 {
        0
    } else {
        key_occurrences(stream.drop_last(), key) + if value_key_of(stream.last()) == key { 1nat } else { 0nat }
    }
}

proof fn lemma_key_occurrences_bounded(stream: Seq<JsonValue>, key: (u8, bool, Seq<char>))
    ensures
        key_occurrences(stream, key) <= stream.len(),
        key_occurrences(stream, key) > 0 ==> exists|j: int| 0 <= j < stream.len() && value_key_of(#[trigger] stream[j]) == key,
    decreases stream.len(),
{
    if stream.len() > 0 {
        let init = stream.drop_last();
        lemma_key_occurrences_bounded(init, key);
        if key_occurrences(init, key) > 0 {
            let j = choose|j: int| 0 <= j < init.len() && value_key_of(#[trigger] init[j]) == key;
            assert(stream[j] == init[j]);
        }
        if value_key_of(stream.last()) == key {
            assert(value_key_of(stream[stream.len() - 1]) == key);
        }
    }
}

/// An exact counter's distribution is complete: while the counter stays
/// enabled, every value of the stream is counted, no key is counted twice,
/// each count is the key's number of occurrences, and the distinct values
/// stay within the threshold. Once disabled, it stays disabled and empty.
pub proof fn lemma_exact_counts_complete(threshold: nat, budget: nat, stream: Seq<JsonValue>)
    requires
        stream.len() < u64::MAX,
    ensures
        ({
            let (enabled, entries) = exact_after(threshold, budget, stream);
            &&& !enabled ==> entries.len() == 0
            &&& enabled ==> {
                &&& distinct_value_keys(entries)
                &&& entries.len() <= threshold
                &&& forall|i: int| 0 <= i < entries.len() ==> (#[trigger] entries[i]).1.0 == key_occurrences(
                    stream,
                    entries[i].0,
                )
                &&& forall|j: int| 0 <= j < stream.len() ==> counts_value(entries, value_key_of(#[trigger] stream[j]))
            }
        }),
        forall|k: int| 0 <= k <= stream.len() && !(#[trigger] exact_after(threshold, budget, stream.subrange(0, k))).0
            ==> !exact_after(threshold, budget, stream).0,
    decreases stream.len(),
{
    if stream.len() == 0 {
        assert forall|k: int| 0 <= k <= stream.len() && !(#[trigger] exact_after(threshold, budget, stream.subrange(0, k))).0
            implies !exact_after(threshold, budget, stream).0 by {
            assert(stream.subrange(0, k) =~= stream);
        }
    } else {
        let init = stream.drop_last();
        let value = stream.last();
        let key = value_key_of(value);
        lemma_exact_counts_complete(threshold, budget, init);
        let (enabled, entries) = exact_after(threshold, budget, init);
        let (now_enabled, now) = exact_after(threshold, budget, stream);
        assert(exact_after(threshold, budget, stream) == exact_step(threshold, budget, enabled, entries, value));
        assert forall|view: (u8, bool, Seq<char>)| #[trigger] key_occurrences(stream, view) == key_occurrences(init, view)
            + if key == view { 1nat } else { 0nat } by {
        }
        assert forall|k: int| 0 <= k <= stream.len() && !(#[trigger] exact_after(threshold, budget, stream.subrange(0, k))).0
            implies !now_enabled by {
            if k == stream.len() {
                assert(stream.subrange(0, k) =~= stream);
            } else {
                assert(stream.subrange(0, k) =~= init.subrange(0, k));
            }
        }
        if enabled {
            if counts_value(entries, key) {
                let p = value_position(entries, key);
                lemma_key_occurrences_bounded(init, key);
                assert forall|i: int| 0 <= i < now.len() implies (#[trigger] now[i]).1.0 == key_occurrences(stream, now[i].0) by {
                    if i != p {
                        assert(now[i] == entries[i]);
                        if i < p {
                            assert(entries[i].0 != entries[p].0);
                        } else {
                            assert(entries[p].0 != entries[i].0);
                        }
                    }
                }
                assert forall|j: int| 0 <= j < stream.len() implies counts_value(now, value_key_of(#[trigger] stream[j])) by {
                    if j < init.len() {
                        assert(stream[j] == init[j]);
                        let w = choose|w: int| 0 <= w < entries.len() && #[trigger] entries[w].0 == value_key_of(init[j]);
                        assert(now[w].0 == entries[w].0);
                    } else {
                        assert(now[p].0 == key);
                    }
                }
                assert forall|i: int, j: int| #![trigger now[i], now[j]] 0 <= i < j < now.len() implies now[i].0 != now[j].0 by {
                    assert(entries[i].0 != entries[j].0);
                }
            } else {
                let added = entries.push(
                    (key, (1u64, json_type_of(value), Some(display_raw(value)), approx_bytes_of(value) as usize)),
                );
                if now_enabled {
                    assert(now == added);
                    let n = entries.len() as int;
                    lemma_key_occurrences_bounded(init, key);
                    if key_occurrences(init, key) > 0 {
                        let j = choose|j: int| 0 <= j < init.len() && value_key_of(#[trigger] init[j]) == key;
                        assert(counts_value(entries, value_key_of(init[j])));
                        assert(false);
                    }
                    assert forall|i: int| 0 <= i < now.len() implies (#[trigger] now[i]).1.0 == key_occurrences(stream, now[i].0) by {
                        if i < n {
                            assert(now[i] == entries[i]);
                            if entries[i].0 == key {
                                assert(counts_value(entries, key));
                            }
                        }
                    }
                    assert forall|j: int| 0 <= j < stream.len() implies counts_value(now, value_key_of(#[trigger] stream[j])) by {
                        if j < init.len() {
                            assert(stream[j] == init[j]);
                            let w = choose|w: int| 0 <= w < entries.len() && #[trigger] entries[w].0 == value_key_of(init[j]);
                            assert(now[w] == entries[w]);
                        } else {
                            assert(now[n].0 == key);
                        }
                    }
                    assert forall|i: int, j: int| #![trigger now[i], now[j]] 0 <= i < j < now.len() implies now[i].0
                        != now[j].0 by {
                        if j < n {
                            assert(entries[i].0 != entries[j].0);
                        } else {
                            assert(now[i] == entries[i]);
                            if entries[i].0 == key {
                                assert(counts_value(entries, key));
                            }
                        }
                    }
                }
            }
        }
    }
}

impl ExactCounter {
    pub closed spec fn enabled(&self) -> bool {
        self.enabled
    }

    /// The counted values in storage order.
    pub closed spec fn entries(&self) -> Seq<((u8, bool, Seq<char>), (u64, JsonType, Option<Seq<char>>, usize))> {
        self.counts@.map_values(|entry: (ValueKey, ExactValueState)| entry_view(entry))
    }

    pub closed spec fn distinct_threshold(&self) -> nat {
        self.distinct_threshold as nat
    }

    pub closed spec fn byte_budget(&self) -> nat {
        self.byte_budget as nat
    }

    pub closed spec fn used_bytes(&self) -> nat {
        self.used_bytes as nat
    }

    /// Within budget while enabled, emptied once disabled; one entry per
    /// key; `used_bytes` is the sum of the entries' estimates.
    pub open spec fn counts_ok(&self) -> bool {
        &&& distinct_value_keys(self.entries())
        &&& self.used_bytes() == total_bytes(self.entries())
        &&& self.enabled() ==> self.entries().len() <= self.distinct_threshold() && self.used_bytes() <= self.byte_budget()
        &&& !self.enabled() ==> self.entries().len() == 0
    }

    /// The values observed so far, in order.
    pub closed spec fn observed_values(&self) -> Seq<JsonValue> {
        self.values_seen@
    }

    /// The counts are well formed, and they are those of a new counter that
    /// observed the observed values in order.
    pub open spec fn wf(&self) -> bool {
        &&& self.counts_ok()
        &&& (self.enabled(), self.entries()) == exact_after(self.distinct_threshold(), self.byte_budget(), self.observed_values())
    }

    pub fn new(distinct_threshold: usize, byte_budget: usize) -> (counter: Self)
        ensures
            counter.enabled(),
            counter.entries() == Seq::<((u8, bool, Seq<char>), (u64, JsonType, Option<Seq<char>>, usize))>::empty(),
            counter.distinct_threshold() == distinct_threshold,
            counter.byte_budget() == byte_budget,
            counter.wf(),
    {
        let counter = Self {
            enabled: true,
            counts: Vec::new(),
            distinct_threshold,
            byte_budget,
            used_bytes: 0,
            values_seen: Ghost(Seq::empty()),
        };
        assert(counter.entries() =~= Seq::empty());
        counter
    }

    fn position_of(&self, key: &ValueKey) -> (position: Option<usize>)
        ensures
            position.is_some() <==> counts_value(self.entries(), key@),
            position matches Some(i) ==> i < self.entries().len() && self.entries()[i as int].0 == key@,
    {
        let mut index: usize = 0;
        while index < self.counts.len()
            invariant
                index <= self.counts@.len(),
                forall|k: int| 0 <= k < index ==> (#[trigger] self.entries()[k]).0 != key@,
            decreases self.counts@.len() - index,
        {
            assert(self.entries()[index as int] == entry_view(self.counts@[index as int]));
            if self.counts[index].0.same_key(key) {
                assert(self.entries()[index as int].0 == key@);
                return Some(index);
            }
            index = index + 1;
        }
        None
    }

    pub fn observe(&mut self, value: &JsonValue)
        requires
            old(self).wf(),
            forall|i: int| 0 <= i < old(self).entries().len() ==> (#[trigger] old(self).entries()[i]).1.0 < u64::MAX,
        ensures
            final(self).wf(),
            final(self).observed_values() == old(self).observed_values().push(*value),
            (final(self).enabled(), final(self).entries()) == exact_step(
                old(self).distinct_threshold(),
                old(self).byte_budget(),
                old(self).enabled(),
                old(self).entries(),
                *value,
            ),
            final(self).distinct_threshold() == old(self).distinct_threshold(),
            final(self).byte_budget() == old(self).byte_budget(),
            !old(self).enabled() ==> final(self).enabled() == old(self).enabled() && final(self).entries() == old(self).entries(),
            old(self).enabled() && counts_value(old(self).entries(), value_key_of(*value)) ==> {
                let i = value_position(old(self).entries(), value_key_of(*value));
                let e = old(self).entries()[i];
                &&& final(self).enabled()
                &&& final(self).entries() == old(self).entries().update(i, (e.0, ((e.1.0 + 1) as u64, e.1.1, e.1.2, e.1.3)))
            },
            old(self).enabled() && !counts_value(old(self).entries(), value_key_of(*value)) ==> {
                let added = old(self).entries().push((value_key_of(*value),
                    (1u64, json_type_of(*value), Some(display_raw(*value)), approx_bytes_of(*value) as usize)));
                let over = added.len() > old(self).distinct_threshold()
                    || old(self).used_bytes() + approx_bytes_of(*value) > old(self).byte_budget();
                &&& final(self).enabled() == !over
                &&& over ==> final(self).entries().len() == 0 && final(self).used_bytes() == 0
                &&& !over ==> final(self).entries() == added
            },
    {
        let ghost seen = self.values_seen@;
        self.count_value(value);
        self.values_seen = Ghost(seen.push(*value));
        proof {
            assert(seen.push(*value).drop_last() =~= seen);
        }
    }

    fn count_value(&mut self, value: &JsonValue)
        requires
            old(self).counts_ok(),
            forall|i: int| 0 <= i < old(self).entries().len() ==> (#[trigger] old(self).entries()[i]).1.0 < u64::MAX,
        ensures
            final(self).counts_ok(),
            final(self).observed_values() == old(self).observed_values(),
            (final(self).enabled(), final(self).entries()) == exact_step(
                old(self).distinct_threshold(),
                old(self).byte_budget(),
                old(self).enabled(),
                old(self).entries(),
                *value,
            ),
            final(self).distinct_threshold() == old(self).distinct_threshold(),
            final(self).byte_budget() == old(self).byte_budget(),
            !old(self).enabled() ==> final(self).enabled() == old(self).enabled() && final(self).entries() == old(self).entries(),
            old(self).enabled() && counts_value(old(self).entries(), value_key_of(*value)) ==> {
                let i = value_position(old(self).entries(), value_key_of(*value));
                let e = old(self).entries()[i];
                &&& final(self).enabled()
                &&& final(self).entries() == old(self).entries().update(i, (e.0, ((e.1.0 + 1) as u64, e.1.1, e.1.2, e.1.3)))
            },
            old(self).enabled() && !counts_value(old(self).entries(), value_key_of(*value)) ==> {
                let added = old(self).entries().push((value_key_of(*value),
                    (1u64, json_type_of(*value), Some(display_raw(*value)), approx_bytes_of(*value) as usize)));
                let over = added.len() > old(self).distinct_threshold()
                    || old(self).used_bytes() + approx_bytes_of(*value) > old(self).byte_budget();
                &&& final(self).enabled() == !over
                &&& over ==> final(self).entries().len() == 0 && final(self).used_bytes() == 0
                &&& !over ==> final(self).entries() == added
            },
    {
        if !self.enabled {
            return;
        }
        let ghost entries = self.entries();
        let key = value_key(value);
        match self.position_of(&key) {
            Some(position) => {
                let ghost chosen = value_position(entries, key@);
                proof {
                    if chosen != position {
                        if chosen < position {
                            assert(entries[chosen].0 != entries[position as int].0);
                        } else {
                            assert(entries[position as int].0 != entries[chosen].0);
                        }
                    }
                }
                let (stored_key, state) = self.counts.remove(position);
                let updated = ExactValueState {
                    count: state.count + 1,
                    value_type: state.value_type,
                    stored_text: state.stored_text,
                    approx_bytes: state.approx_bytes,
                };
                self.counts.insert(position, (stored_key, updated));
                proof {
                    let e = entries[position as int];
                    assert(self.entries() =~= entries.update(position as int, (e.0, ((e.1.0 + 1) as u64, e.1.1, e.1.2, e.1.3))));
                    lemma_total_bytes_update(entries, position as int, (e.0, ((e.1.0 + 1) as u64, e.1.1, e.1.2, e.1.3)));
                }
            },
            None => {
                let approx_bytes = approximate_value_bytes(value);
                if approx_bytes > usize::MAX - self.used_bytes {
                    self.disable();
                    return;
                }
                self.used_bytes = self.used_bytes + approx_bytes;
                let state = ExactValueState {
                    count: 1,
                    value_type: JsonType::from_value(value),
                    stored_text: Some(display_raw_text(value)),
                    approx_bytes,
                };
                self.counts.push((key, state));
                proof {
                    let added = entries.push((value_key_of(*value),
                        (1u64, json_type_of(*value), Some(display_raw(*value)), approx_bytes_of(*value) as usize)));
                    assert(self.entries() =~= added);
                    assert(added.drop_last() =~= entries);
                }
                if self.counts.len() > self.distinct_threshold || self.used_bytes > self.byte_budget {
                    self.disable();
                }
            },
        }
    }

    pub fn is_enabled(&self) -> (enabled: bool)
        ensures
            enabled == self.enabled(),
    {
        self.enabled
    }

    pub fn distinct_count(&self) -> (count: Option<u64>)
        ensures
            count == (if self.enabled() { Some(self.entries().len() as u64) } else { None::<u64> }),
    {
        if self.enabled {
            Some(self.counts.len() as u64)
        } else {
            None
        }
    }

    /// One exact row per counted value, by descending count then ascending
    /// value hash, ranked from 1; no rows once disabled.
    pub fn exact_full_rows(&self, field_profile_id: &str, value_text_limit: usize) -> (rows: Vec<FieldValueRow>)
        ensures
            !self.enabled() ==> rows@.len() == 0,
            self.enabled() ==> rows@.map_values(|r: FieldValueRow| r@) == with_ranks(insertion_sorted_by(
                self.entries().map_values(|e| exact_row(field_profile_id@, value_text_limit as nat, e)),
                row_le(),
            )),
    {
        if !self.enabled {
            return Vec::new();
        }
        let ghost unsorted_views = self.entries().map_values(|e| exact_row(field_profile_id@, value_text_limit as nat, e));
        let mut rows: Vec<FieldValueRow> = Vec::new();
        let mut index: usize = 0;
        while index < self.counts.len()
            invariant
                index <= self.counts@.len(),
                unsorted_views == self.entries().map_values(|e| exact_row(field_profile_id@, value_text_limit as nat, e)),
                rows@.map_values(|r: FieldValueRow| r@) == unsorted_views.subrange(0, index as int),
            decreases self.counts@.len() - index,
        {
            let entry = &self.counts[index];
            let (value_text, value_text_truncated) = match &entry.1.stored_text {
                Some(text) => {
                    let (cut, truncated) = truncate_utf8(text.as_str(), value_text_limit);
                    (Some(cut), truncated)
                },
                None => (None, false),
            };
            let row = FieldValueRow {
                field_profile_id: crate::util::text::str_to_string(field_profile_id),
                value_hash: value_hash_from_key(&entry.0),
                value_type: entry.1.value_type,
                value_text,
                value_text_truncated,
                count: Some(entry.1.count),
                count_method: CountMethod::Exact,
                value_source: ValueSource::ExactFull,
                rank: None,
                is_complete_distribution: true,
            };
            proof {
                assert(self.entries()[index as int] == entry_view(*entry));
                assert(row@ == unsorted_views[index as int]);
            }
            let ghost before = rows@;
            rows.push(row);
            proof {
                assert(before.map_values(|r: FieldValueRow| r@).len() == before.len());
                assert(before.len() == index);
                assert forall|k: int| 0 <= k < index implies #[trigger] rows@[k]@ == unsorted_views[k] by {
                    assert(rows@[k] == before[k]);
                    assert(before.map_values(|r: FieldValueRow| r@)[k] == unsorted_views.subrange(0, index as int)[k]);
                }
                assert(rows@[index as int] == row);
                assert(rows@.map_values(|r: FieldValueRow| r@) =~= unsorted_views.subrange(0, index + 1));
            }
            index = index + 1;
        }
        assert(unsorted_views.subrange(0, self.counts@.len() as int) =~= unsorted_views);
        let ghost unsorted = rows@;
        let sorted = sort_rows(rows);
        proof {
            lemma_insertion_sorted_map(unsorted, |r: FieldValueRow| r@, key_le::<FieldValueRow>(), row_le());
        }
        let ghost sorted_views = sorted@.map_values(|r: FieldValueRow| r@);
        let count = sorted.len();
        let mut ranked: Vec<FieldValueRow> = Vec::new();
        let mut rest = sorted;
        let mut taken: usize = 0;
        assert(rest@.map_values(|r: FieldValueRow| r@) =~= sorted_views.skip(0));
        while rest.len() > 0
            invariant
                taken + rest@.len() == count,
                count == sorted_views.len(),
                rest@.map_values(|r: FieldValueRow| r@) == sorted_views.skip(taken as int),
                ranked@.map_values(|r: FieldValueRow| r@) == with_ranks(sorted_views).subrange(0, taken as int),
            decreases rest@.len(),
        {
            let ghost before = rest@;
            let mut row = rest.remove(0);
            proof {
                assert(before.map_values(|r: FieldValueRow| r@)[0] == row@);
                assert(row@ == sorted_views[taken as int]);
            }
            let rank = #[verifier::truncate] ((taken as u64 + 1) as u32);
            row.rank = Some(rank);
            let ghost ranked_before = ranked@;
            ranked.push(row);
            proof {
                assert(ranked_before.map_values(|r: FieldValueRow| r@).len() == ranked_before.len());
                assert(ranked_before.len() == taken);
                assert(rest@ =~= before.remove(0));
                assert forall|k: int| 0 <= k < rest@.len() implies #[trigger] rest@[k]@ == sorted_views.skip(taken + 1)[k] by {
                    assert(rest@[k] == before[k + 1]);
                    assert(before.map_values(|r: FieldValueRow| r@)[k + 1] == sorted_views.skip(taken as int)[k + 1]);
                }
                assert(rest@.map_values(|r: FieldValueRow| r@) =~= sorted_views.skip(taken + 1));
                assert forall|k: int| 0 <= k < taken implies #[trigger] ranked@[k]@ == with_ranks(sorted_views)[k] by {
                    assert(ranked@[k] == ranked_before[k]);
                    assert(ranked_before.map_values(|r: FieldValueRow| r@)[k] == with_ranks(sorted_views).subrange(0, taken as int)[k]);
                }
                assert(ranked@[taken as int]@ == with_ranks(sorted_views)[taken as int]);
                assert(ranked@.map_values(|r: FieldValueRow| r@) =~= with_ranks(sorted_views).subrange(0, taken + 1));
            }
            taken = taken + 1;
        }
        assert(with_ranks(sorted_views).subrange(0, count as int) =~= with_ranks(sorted_views));
        ranked
    }

    fn disable(&mut self)
        ensures
            !final(self).enabled(),
            final(self).entries().len() == 0,
            final(self).used_bytes() == 0,
            final(self).distinct_threshold() == old(self).distinct_threshold(),
            final(self).byte_budget() == old(self).byte_budget(),
            final(self).observed_values() == old(self).observed_values(),
            final(self).counts_ok(),
    {
        self.enabled = false;
        self.counts.clear();
        self.used_bytes = 0;
        assert(self.entries() =~= Seq::empty());
    }
}

pub proof fn lemma_total_bytes_update(
    entries: Seq<((u8, bool, Seq<char>), (u64, JsonType, Option<Seq<char>>, usize))>,
    i: int,
    entry: ((u8, bool, Seq<char>), (u64, JsonType, Option<Seq<char>>, usize)),
)
    requires
        0 <= i < entries.len(),
    ensures
        total_bytes(entries.update(i, entry)) == total_bytes(entries) - entries[i].1.3 + entry.1.3,
    decreases entries.len(),
{
    if i < entries.len() - 1 {
        lemma_total_bytes_update(entries.drop_last(), i, entry);
        assert(entries.update(i, entry).drop_last() =~= entries.drop_last().update(i, entry));
    } else {
        assert(entries.update(i, entry).drop_last() =~= entries.drop_last());
    }
}

#[derive(Debug, Clone, PartialEq, Eq)]
pub struct GlobalExactBudget {
    pub limit_bytes: usize,
    pub used_bytes: usize,
}

impl GlobalExactBudget {
    pub fn new(limit_bytes: usize) -> (budget: Self)
        ensures
            budget.limit_bytes == limit_bytes,
            budget.used_bytes == 0,
    {
        Self { limit_bytes, used_bytes: 0 }
    }

    /// Reserves `bytes` when they fit within the limit.
    pub fn try_reserve(&mut self, bytes: usize) -> (reserved: bool)
        ensures
            reserved == (old(self).used_bytes + bytes <= old(self).limit_bytes),
            final(self).limit_bytes == old(self).limit_bytes,
            final(self).used_bytes == if reserved { (old(self).used_bytes + bytes) as usize } else { old(self).used_bytes },
    {
        match self.used_bytes.checked_add(bytes) {
            Some(next) => {
                if next <= self.limit_bytes {
                    self.used_bytes = next;
                    true
                } else {
                    false
                }
            },
            None => false,
        }
    }
}

/// The exact counter's distribution is complete, whatever values it
/// observed: while it stays enabled, every observed value is counted, no
/// value twice, each with its number of occurrences, within the distinct
/// threshold; once disabled it holds nothing and stays disabled.
pub proof fn lemma_counter_complete(counter: ExactCounter)
    requires
        counter.wf(),
        counter.observed_values().len() < u64::MAX,
    ensures
        !counter.enabled() ==> counter.entries().len() == 0,
        counter.enabled() ==> {
            &&& counter.entries().len() <= counter.distinct_threshold()
            &&& forall|i: int| 0 <= i < counter.entries().len() ==> (#[trigger] counter.entries()[i]).1.0 == key_occurrences(
                counter.observed_values(),
                counter.entries()[i].0,
            )
            &&& forall|j: int| 0 <= j < counter.observed_values().len() ==> counts_value(
                counter.entries(),
                value_key_of(#[trigger] counter.observed_values()[j]),
            )
        },
        forall|k: int| 0 <= k <= counter.observed_values().len() && !(#[trigger] exact_after(
            counter.distinct_threshold(),
            counter.byte_budget(),
            counter.observed_values().subrange(0, k),
        )).0 ==> !counter.enabled(),
{
    lemma_exact_counts_complete(counter.distinct_threshold(), counter.byte_budget(), counter.observed_values());
}

/// The distribution of `stream` with no limits: each distinct value, in
/// the order first seen, with its count, type, display text and byte
/// estimate.
pub open spec fn tally(stream: Seq<JsonValue>) -> Seq<((u8, bool, Seq<char>), (u64, JsonType, Option<Seq<char>>, usize))>
    decreases stream.len(),
{
    if stream.len() == 0 {
        Seq::empty()
    } else {
        let before = tally(stream.drop_last());
        let value = stream.last();
        let key = value_key_of(value);
        if counts_value(before, key) {
            let i = value_position(before, key);
            let e = before[i];
            before.update(i, (e.0, ((e.1.0 + 1) as u64, e.1.1, e.1.2, e.1.3)))
        } else {
            before.push((key, (1u64, json_type_of(value), Some(display_raw(value)), approx_bytes_of(value) as usize)))
        }
    }
}

/// One more value: a counted value counts once more, a new one is added.
proof fn lemma_tally_step(stream: Seq<JsonValue>)
    requires
        stream.len() > 0,
        approx_bytes_of(stream.last()) <= usize::MAX,
    ensures
        ({
            let before = tally(stream.drop_last());
            let key = value_key_of(stream.last());
            &&& counts_value(before, key) ==> tally(stream).len() == before.len()
                && total_bytes(tally(stream)) == total_bytes(before)
                && tally(stream) == before.update(value_position(before, key), (before[value_position(before, key)].0, (
                    (before[value_position(before, key)].1.0 + 1) as u64,
                    before[value_position(before, key)].1.1,
                    before[value_position(before, key)].1.2,
                    before[value_position(before, key)].1.3,
                )))
            &&& !counts_value(before, key) ==> tally(stream) == before.push((key, (
                1u64,
                json_type_of(stream.last()),
                Some(display_raw(stream.last())),
                approx_bytes_of(stream.last()) as usize,
            ))) && total_bytes(tally(stream)) == total_bytes(before) + approx_bytes_of(stream.last())
        }),
{
    let before = tally(stream.drop_last());
    let key = value_key_of(stream.last());
    if counts_value(before, key) {
        let i = value_position(before, key);
        let e = before[i];
        lemma_total_bytes_update(before, i, (e.0, ((e.1.0 + 1) as u64, e.1.1, e.1.2, e.1.3)));
    } else {
        let added = before.push((key, (
            1u64,
            json_type_of(stream.last()),
            Some(display_raw(stream.last())),
            approx_bytes_of(stream.last()) as usize,
        )));
        assert(added.drop_last() =~= before);
    }
}

/// An exact counter stays enabled exactly while the distinct values it
/// observed, and the sum of their byte estimates, fit within its threshold
/// and its budget; while enabled it holds the unlimited distribution.
pub proof fn lemma_enabled_iff_fits(threshold: nat, budget: nat, stream: Seq<JsonValue>)
    requires
        forall|j: int| 0 <= j < stream.len() ==> approx_bytes_of(#[trigger] stream[j]) <= usize::MAX,
    ensures
        exact_after(threshold, budget, stream).0 <==> (tally(stream).len() <= threshold && total_bytes(tally(stream)) <= budget),
        exact_after(threshold, budget, stream).0 ==> exact_after(threshold, budget, stream).1 == tally(stream),
    decreases stream.len(),
{
    if stream.len() > 0 {
        let init = stream.drop_last();
        assert forall|j: int| 0 <= j < init.len() implies approx_bytes_of(#[trigger] init[j]) <= usize::MAX by {
            assert(init[j] == stream[j]);
        }
        lemma_enabled_iff_fits(threshold, budget, init);
        assert(approx_bytes_of(stream.last()) <= usize::MAX) by {
            assert(stream.last() == stream[stream.len() - 1]);
        }
        lemma_tally_step(stream);
        lemma_total_bytes_nonnegative(tally(init));
    }
}

proof fn lemma_total_bytes_nonnegative(entries: Seq<((u8, bool, Seq<char>), (u64, JsonType, Option<Seq<char>>, usize))>)
    ensures
        total_bytes(entries) >= 0,
    decreases entries.len(),
{
    if entries.len() > 0 {
        lemma_total_bytes_nonnegative(entries.drop_last());
    }
}

/// The value keys that occur in `stream`.
pub open spec fn stream_keys(stream: Seq<JsonValue>) -> Set<(u8, bool, Seq<char>)> {
    stream.map_values(|v: JsonValue| value_key_of(v)).to_set()
}

/// The keys of the entries of a distribution, in order.
pub open spec fn entry_keys(entries: Seq<((u8, bool, Seq<char>), (u64, JsonType, Option<Seq<char>>, usize))>) -> Seq<(u8, bool, Seq<char>)> {
    entries.map_values(|e: ((u8, bool, Seq<char>), (u64, JsonType, Option<Seq<char>>, usize))| e.0)
}

/// Entry `i` of `entries` stands for a value of `stream` with the same key,
/// and keeps that value's byte estimate.
pub open spec fn entry_from_stream(
    entries: Seq<((u8, bool, Seq<char>), (u64, JsonType, Option<Seq<char>>, usize))>,
    i: int,
    stream: Seq<JsonValue>,
) -> bool {
    exists|j: int| 0 <= j < stream.len() && value_key_of(#[trigger] stream[j]) == entries[i].0
        && entries[i].1.3 == approx_bytes_of(stream[j]) as usize
}

/// The unlimited distribution holds one entry per distinct key of the
/// stream, each with the byte estimate of a value of that key: as many
/// entries as the stream has distinct keys.
pub proof fn lemma_tally_keys(stream: Seq<JsonValue>)
    ensures
        distinct_value_keys(tally(stream)),
        forall|j: int| 0 <= j < stream.len() ==> counts_value(tally(stream), value_key_of(#[trigger] stream[j])),
        forall|i: int| 0 <= i < tally(stream).len() ==> #[trigger] entry_from_stream(tally(stream), i, stream),
        entry_keys(tally(stream)).to_set() == stream_keys(stream),
        tally(stream).len() == stream_keys(stream).len(),
    decreases stream.len(),
{
    let t = tally(stream);
    if stream.len() > 0 {
        let init = stream.drop_last();
        let v = stream.last();
        let k = value_key_of(v);
        lemma_tally_keys(init);
        let before = tally(init);
        assert forall|j: int| 0 <= j < init.len() implies #[trigger] init[j] == stream[j] by {}
        if counts_value(before, k) {
            let p = value_position(before, k);
            assert forall|i: int| 0 <= i < t.len() implies #[trigger] t[i].0 == before[i].0 by {}
            assert forall|a: int, b: int| #![trigger t[a], t[b]] 0 <= a < b < t.len() implies t[a].0 != t[b].0 by {
                assert(before[a].0 != before[b].0);
            }
            assert forall|j: int| 0 <= j < stream.len() implies counts_value(t, value_key_of(#[trigger] stream[j])) by {
                if j < init.len() {
                    assert(counts_value(before, value_key_of(init[j])));
                    let w = choose|w: int| 0 <= w < before.len() && #[trigger] before[w].0 == value_key_of(init[j]);
                    assert(t[w].0 == before[w].0);
                } else {
                    assert(t[p].0 == k);
                }
            }
            assert forall|i: int| 0 <= i < t.len() implies #[trigger] entry_from_stream(t, i, stream) by {
                assert(entry_from_stream(before, i, init));
                let j = choose|j: int| 0 <= j < init.len() && value_key_of(#[trigger] init[j]) == before[i].0
                    && before[i].1.3 == approx_bytes_of(init[j]) as usize;
                assert(stream[j] == init[j]);
            }
        } else {
            let n = before.len() as int;
            assert(t == before.push((k, (1u64, json_type_of(v), Some(display_raw(v)), approx_bytes_of(v) as usize))));
            assert forall|a: int, b: int| #![trigger t[a], t[b]] 0 <= a < b < t.len() implies t[a].0 != t[b].0 by {
                if b < n {
                    assert(before[a].0 != before[b].0);
                } else {
                    assert(t[a] == before[a]);
                    if t[a].0 == k {
                        assert(counts_value(before, k));
                    }
                }
            }
            assert forall|j: int| 0 <= j < stream.len() implies counts_value(t, value_key_of(#[trigger] stream[j])) by {
                if j < init.len() {
                    assert(counts_value(before, value_key_of(init[j])));
                    let w = choose|w: int| 0 <= w < before.len() && #[trigger] before[w].0 == value_key_of(init[j]);
                    assert(t[w] == before[w]);
                } else {
                    assert(t[n].0 == k);
                }
            }
            assert forall|i: int| 0 <= i < t.len() implies #[trigger] entry_from_stream(t, i, stream) by {
                if i < n {
                    assert(entry_from_stream(before, i, init));
                    let j = choose|j: int| 0 <= j < init.len() && value_key_of(#[trigger] init[j]) == before[i].0
                        && before[i].1.3 == approx_bytes_of(init[j]) as usize;
                    assert(stream[j] == init[j]);
                    assert(t[i] == before[i]);
                } else {
                    assert(value_key_of(stream[stream.len() - 1]) == t[i].0);
                }
            }
        }
    }
    let keys = entry_keys(t);
    assert forall|x: (u8, bool, Seq<char>)| keys.to_set().contains(x) <==> stream_keys(stream).contains(x) by {
        let mapped = stream.map_values(|v: JsonValue| value_key_of(v));
        if keys.to_set().contains(x) {
            let i = choose|i: int| 0 <= i < keys.len() && keys[i] == x;
            assert(entry_from_stream(t, i, stream));
            let j = choose|j: int| 0 <= j < stream.len() && value_key_of(#[trigger] stream[j]) == t[i].0
                && t[i].1.3 == approx_bytes_of(stream[j]) as usize;
            assert(mapped[j] == x);
        }
        if stream_keys(stream).contains(x) {
            let j = choose|j: int| 0 <= j < mapped.len() && mapped[j] == x;
            assert(counts_value(t, value_key_of(stream[j])));
            let w = choose|w: int| 0 <= w < t.len() && #[trigger] t[w].0 == value_key_of(stream[j]);
            assert(keys[w] == x);
        }
    }
    assert(keys.to_set() =~= stream_keys(stream));
    assert(keys.no_duplicates()) by {
        assert forall|a: int, b: int| 0 <= a < keys.len() && 0 <= b < keys.len() && a != b implies keys[a] != keys[b] by {
            if a < b {
                assert(t[a].0 != t[b].0);
            } else {
                assert(t[b].0 != t[a].0);
            }
        }
    }
    keys.unique_seq_to_set();
}

/// An exact counter is enabled exactly while the distinct values it
/// observed, and the sum of their byte estimates (one value per distinct
/// key), fit within its threshold and its budget; while enabled its entries
/// are the unlimited distribution, one per distinct key.
pub proof fn lemma_counter_enabled_iff_fits(counter: ExactCounter)
    requires
        counter.wf(),
        forall|j: int| 0 <= j < counter.observed_values().len() ==> approx_bytes_of(#[trigger] counter.observed_values()[j])
            <= usize::MAX,
    ensures
        counter.enabled() <==> (stream_keys(counter.observed_values()).len() <= counter.distinct_threshold() && total_bytes(
            tally(counter.observed_values()),
        ) <= counter.byte_budget()),
        counter.enabled() ==> counter.entries() == tally(counter.observed_values()),
        counter.enabled() ==> counter.entries().len() == stream_keys(counter.observed_values()).len(),
        tally(counter.observed_values()).len() == stream_keys(counter.observed_values()).len(),
        forall|i: int| 0 <= i < tally(counter.observed_values()).len() ==> #[trigger] entry_from_stream(
            tally(counter.observed_values()),
            i,
            counter.observed_values(),
        ),
        distinct_value_keys(tally(counter.observed_values())),
{
    lemma_enabled_iff_fits(counter.distinct_threshold(), counter.byte_budget(), counter.observed_values());
    lemma_tally_keys(counter.observed_values());
}

} // verus!
