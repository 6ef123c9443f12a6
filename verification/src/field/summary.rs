//! Per-field-profile counts of the values observed.

use vstd::prelude::*;

use crate::util::json_value::JsonValue;
use vstd::string::StrSliceExecFns;

verus! {

/// How a distinct count was obtained.
#[derive(Debug, Clone, Copy, PartialEq, Eq, Structural)]
pub enum DistinctCountMethod {
    Exact,
    Approximate,
    Unavailable,
}

impl DistinctCountMethod {
    pub fn as_sql_str(self) -> (name: &'static str)
        ensures
            name@ == match self {
                DistinctCountMethod::Exact => "exact"@,
                DistinctCountMethod::Approximate => "approximate"@,
                DistinctCountMethod::Unavailable => "unavailable"@,
            },
    {
        match self {
            DistinctCountMethod::Exact => "exact",
            DistinctCountMethod::Approximate => "approximate",
            DistinctCountMethod::Unavailable => "unavailable",
        }
    }
}

impl Default for DistinctCountMethod {
    fn default() -> (method: Self)
        ensures
            method == DistinctCountMethod::Unavailable,
    {
        DistinctCountMethod::Unavailable
    }
}

/// The sketch behind an approximate distinct count.
#[derive(Debug, Clone, Copy, PartialEq, Eq, Structural)]
pub enum DistinctAlgorithm {
    HyperLogLog,
}

impl DistinctAlgorithm {
    pub fn as_sql_str(self) -> (name: &'static str)
        ensures
            name@ == "hyperloglog"@,
    {
        match self {
            DistinctAlgorithm::HyperLogLog => "hyperloglog",
        }
    }
}

/// The counts of one field profile. An approximate distinct count records
/// the sketch precision it was made with; its relative error follows from
/// the precision.
#[derive(Debug, Clone, PartialEq, Eq)]
pub struct FieldSummary {
    pub field_profile_id: String,
    pub profiled_count: u64,
    pub null_count: u64,
    pub non_null_count: u64,
    pub empty_object_count: u64,
    pub empty_array_count: u64,
    pub empty_string_count: u64,
    pub distinct_count: Option<u64>,
    pub distinct_count_method: DistinctCountMethod,
    pub distinct_algorithm: Option<DistinctAlgorithm>,
    pub distinct_precision: Option<u8>,
    pub stored_value_count: u64,
}

/// A field summary with its id as characters.
pub struct FieldSummaryView {
    pub field_profile_id: Seq<char>,
    pub profiled_count: u64,
    pub null_count: u64,
    pub non_null_count: u64,
    pub empty_object_count: u64,
    pub empty_array_count: u64,
    pub empty_string_count: u64,
    pub distinct_count: Option<u64>,
    pub distinct_count_method: DistinctCountMethod,
    pub distinct_algorithm: Option<DistinctAlgorithm>,
    pub distinct_precision: Option<u8>,
    pub stored_value_count: u64,
}

impl View for FieldSummary {
    type V = FieldSummaryView;

    open spec fn view(&self) -> FieldSummaryView {
        FieldSummaryView {
            field_profile_id: self.field_profile_id@,
            profiled_count: self.profiled_count,
            null_count: self.null_count,
            non_null_count: self.non_null_count,
            empty_object_count: self.empty_object_count,
            empty_array_count: self.empty_array_count,
            empty_string_count: self.empty_string_count,
            distinct_count: self.distinct_count,
            distinct_count_method: self.distinct_count_method,
            distinct_algorithm: self.distinct_algorithm,
            distinct_precision: self.distinct_precision,
            stored_value_count: self.stored_value_count,
        }
    }
}

/// A summary of a field profile before any value is counted.
pub open spec fn empty_summary(field_profile_id: Seq<char>) -> FieldSummaryView {
    FieldSummaryView {
        field_profile_id,
        profiled_count: 0,
        null_count: 0,
        non_null_count: 0,
        empty_object_count: 0,
        empty_array_count: 0,
        empty_string_count: 0,
        distinct_count: None,
        distinct_count_method: DistinctCountMethod::Unavailable,
        distinct_algorithm: None,
        distinct_precision: None,
        stored_value_count: 0,
    }
}

impl FieldSummary {
    /// A summary with every count zero and no distinct count.
    pub fn new(field_profile_id: String) -> (summary: Self)
        ensures
            summary@ == empty_summary(field_profile_id@),
    {
        FieldSummary {
            field_profile_id,
            profiled_count: 0,
            null_count: 0,
            non_null_count: 0,
            empty_object_count: 0,
            empty_array_count: 0,
            empty_string_count: 0,
            distinct_count: None,
            distinct_count_method: DistinctCountMethod::Unavailable,
            distinct_algorithm: None,
            distinct_precision: None,
            stored_value_count: 0,
        }
    }
}

/// The summary after one more value: it is profiled, counted as null or
/// non-null, and counted as an empty object, array or string when it is one.
pub open spec fn summary_updated(s: FieldSummaryView, value: JsonValue) -> FieldSummaryView {
    let s1 = FieldSummaryView { profiled_count: (s.profiled_count + 1) as u64, ..s };
    match value {
        JsonValue::Null => FieldSummaryView { null_count: (s1.null_count + 1) as u64, ..s1 },
        JsonValue::Object(fields) => FieldSummaryView {
            non_null_count: (s1.non_null_count + 1) as u64,
            empty_object_count: if fields@.len() == 0 { (s1.empty_object_count + 1) as u64 } else { s1.empty_object_count },
            ..s1
        },
        JsonValue::Array(items) => FieldSummaryView {
            non_null_count: (s1.non_null_count + 1) as u64,
            empty_array_count: if items@.len() == 0 { (s1.empty_array_count + 1) as u64 } else { s1.empty_array_count },
            ..s1
        },
        JsonValue::String(text) => FieldSummaryView {
            non_null_count: (s1.non_null_count + 1) as u64,
            empty_string_count: if text@.len() == 0 { (s1.empty_string_count + 1) as u64 } else { s1.empty_string_count },
            ..s1
        },
        _ => FieldSummaryView { non_null_count: (s1.non_null_count + 1) as u64, ..s1 },
    }
}

/// The counts of a summary are consistent: every profiled value is null or
/// non-null, and the empty counts are part of the non-null count.
pub open spec fn summary_consistent(s: FieldSummaryView) -> bool {
    &&& s.null_count + s.non_null_count == s.profiled_count
    &&& s.empty_object_count + s.empty_array_count + s.empty_string_count <= s.non_null_count
}

/// Counting a value keeps a summary's counts consistent, and a consistent
/// summary that has counted fewer than `u64::MAX` values can count one more.
pub proof fn lemma_summary_updated_consistent(s: FieldSummaryView, value: JsonValue)
    requires
        summary_consistent(s),
        s.profiled_count < u64::MAX,
    ensures
        summary_consistent(summary_updated(s, value)),
        s.null_count < u64::MAX,
        s.non_null_count < u64::MAX,
        s.empty_object_count < u64::MAX,
        s.empty_array_count < u64::MAX,
        s.empty_string_count < u64::MAX,
{
}

/// Counting a value adds one to the profiled count and one to exactly one of
/// the null and non-null counts (null for `null` only); it adds one to the
/// empty object count exactly when the value is an object with no members,
/// to the empty array count exactly when it is an array with no items, and
/// to the empty string count exactly when it is the empty string; every
/// other count stays as it was.
pub proof fn lemma_summary_counts_value(s: FieldSummaryView, value: JsonValue)
    requires
        s.profiled_count < u64::MAX,
        s.null_count < u64::MAX,
        s.non_null_count < u64::MAX,
        s.empty_object_count < u64::MAX,
        s.empty_array_count < u64::MAX,
        s.empty_string_count < u64::MAX,
    ensures
        ({
            let t = summary_updated(s, value);
            &&& t.profiled_count == s.profiled_count + 1
            &&& t.null_count == s.null_count + (if value is Null { 1int } else { 0int })
            &&& t.non_null_count == s.non_null_count + (if value is Null { 0int } else { 1int })
            &&& t.empty_object_count == s.empty_object_count + (if value matches JsonValue::Object(fields) && fields@.len() == 0 {
                1int
            } else {
                0int
            })
            &&& t.empty_array_count == s.empty_array_count + (if value matches JsonValue::Array(items) && items@.len() == 0 {
                1int
            } else {
                0int
            })
            &&& t.empty_string_count == s.empty_string_count + (if value matches JsonValue::String(text) && text@.len() == 0 {
                1int
            } else {
                0int
            })
            &&& t.field_profile_id == s.field_profile_id
            &&& t.distinct_count == s.distinct_count
            &&& t.distinct_count_method == s.distinct_count_method
            &&& t.distinct_algorithm == s.distinct_algorithm
            &&& t.distinct_precision == s.distinct_precision
            &&& t.stored_value_count == s.stored_value_count
        }),
{
}

/// Counts one more value in `summary`. No count may be at its maximum.
pub fn update_summary(summary: &mut FieldSummary, value: &JsonValue)
    requires
        old(summary).profiled_count < u64::MAX,
        old(summary).null_count < u64::MAX,
        old(summary).non_null_count < u64::MAX,
        old(summary).empty_object_count < u64::MAX,
        old(summary).empty_array_count < u64::MAX,
        old(summary).empty_string_count < u64::MAX,
    ensures
        final(summary)@ == summary_updated(old(summary)@, *value),
{
    summary.profiled_count = summary.profiled_count + 1;
    match value {
        JsonValue::Null => {
            summary.null_count = summary.null_count + 1;
        },
        JsonValue::Object(fields) => {
            summary.non_null_count = summary.non_null_count + 1;
            if fields.len() == 0 {
                summary.empty_object_count = summary.empty_object_count + 1;
            }
        },
        JsonValue::Array(items) => {
            summary.non_null_count = summary.non_null_count + 1;
            if items.len() == 0 {
                summary.empty_array_count = summary.empty_array_count + 1;
            }
        },
        JsonValue::String(text) => {
            summary.non_null_count = summary.non_null_count + 1;
            if text.as_str().unicode_len() == 0 {
                summary.empty_string_count = summary.empty_string_count + 1;
            }
        },
        _ => {
            summary.non_null_count = summary.non_null_count + 1;
        },
    }
}

} // verus!
