//! Value-level profiling of JSON and JSONL snapshots: stable identities for
//! values, shapes and field profiles, bounded samplers and sketches, and the
//! configuration and refs-index logic that drive a profiling run.

pub mod cli;
pub mod config;
pub mod error;
pub mod field;
pub mod perf;
pub mod refs;
pub mod run;
pub mod scan;
pub mod shape;
pub mod sketch;
pub mod sqlite;
pub mod util;
pub mod value;

use vstd::prelude::*;

use crate::perf::timer::PerfBucket;
use crate::util::text::{dec_digit, dec_text, push_char, push_decimal, push_str};

verus! {

/// A condition worth reporting that does not stop the run.
#[derive(Debug, Clone, PartialEq, Eq)]
pub struct ProfileWarning {
    pub code: String,
    pub message: String,
}

/// Totals of a finished run.
#[derive(Debug, Clone, Copy, PartialEq, Eq, Structural)]
pub struct SourceSummary {
    pub total_document_count: u64,
    pub total_object_count: u64,
    pub total_array_count: u64,
    pub total_scalar_count: u64,
    pub total_canonical_path_count: u64,
    pub total_site_path_count: u64,
    pub total_shape_count: u64,
    pub total_field_profile_count: u64,
    pub total_stored_value_count: u64,
}

pub const W_CANONICAL_PATH_UNAVAILABLE: &'static str = "W_CANONICAL_PATH_UNAVAILABLE";

/// An elapsed time in nanoseconds rounded to the nearest millisecond (a
/// half millisecond rounds up), or `u64::MAX` milliseconds when it does not
/// fit.
pub fn rounded_millis(nanos: u128) -> (millis: u64)
    ensures
        millis == (if (nanos + 500_000) / 1_000_000 <= u64::MAX {
            (nanos + 500_000) / 1_000_000
        } else {
            u64::MAX as int
        }),
{
    let whole = nanos / 1_000_000;
    let rest = nanos % 1_000_000;
    let rounded = if rest >= 500_000 { whole + 1 } else { whole };
    assert(rounded == (nanos + 500_000) / 1_000_000);
    if rounded <= u64::MAX as u128 {
        rounded as u64
    } else {
        u64::MAX
    }
}

/// What a finished run reports. The elapsed time is kept in milliseconds,
/// rounded to the nearest.
#[derive(Debug)]
pub struct ProfileReport {
    pub out_path: String,
    pub summary: SourceSummary,
    pub elapsed_millis: u64,
    pub warnings: Vec<ProfileWarning>,
    pub perf_buckets: Vec<PerfBucket>,
    pub perf_enabled: bool,
    pub perf_log_file: Option<String>,
    pub quiet: bool,
}

/// A duration in milliseconds as seconds with three decimals.
pub open spec fn seconds_text(millis: u64) -> Seq<char> {
    let fraction = (millis % 1000) as nat;
    dec_text((millis / 1000) as nat) + seq!['.', dec_digit(fraction / 100), dec_digit((fraction / 10) % 10), dec_digit(fraction % 10)]
}

/// `label` followed by the decimal text of `value` and a newline.
pub open spec fn count_line(label: Seq<char>, value: u64) -> Seq<char> {
    label + dec_text(value as nat) + seq!['\n']
}

/// The summary a run prints: where it wrote, its totals, and its elapsed
/// time.
pub open spec fn stdout_summary_text(report: ProfileReport) -> Seq<char> {
    let s = report.summary;
    "profile-json-refs: wrote "@ + report.out_path@ + seq!['\n', '\n']
        + count_line("documents: "@, s.total_document_count)
        + count_line("objects: "@, s.total_object_count)
        + count_line("arrays: "@, s.total_array_count)
        + count_line("scalars: "@, s.total_scalar_count)
        + count_line("canonical_paths: "@, s.total_canonical_path_count)
        + count_line("site_paths: "@, s.total_site_path_count)
        + count_line("shapes: "@, s.total_shape_count)
        + count_line("field_profiles: "@, s.total_field_profile_count)
        + count_line("stored_values: "@, s.total_stored_value_count)
        + "elapsed: "@ + seconds_text(report.elapsed_millis) + seq!['s', '\n']
}

fn push_count_line(out: &mut String, label: &str, value: u64)
    ensures
        final(out)@ == old(out)@ + count_line(label@, value),
{
    push_str(out, label);
    push_decimal(out, value);
    push_char(out, '\n');
    assert(final(out)@ =~= old(out)@ + count_line(label@, value));
}

fn digit_char(digit: u64) -> (c: char)
    requires
        digit < 10,
    ensures
        c == dec_digit(digit as nat),
{
    match digit {
        0 => '0',
        1 => '1',
        2 => '2',
        3 => '3',
        4 => '4',
        5 => '5',
        6 => '6',
        7 => '7',
        8 => '8',
        _ => '9',
    }
}

impl ProfileReport {
    /// Whether the run was asked to print nothing on success.
    pub fn summary_quiet(&self) -> (quiet: bool)
        ensures
            quiet == self.quiet,
    {
        self.quiet
    }

    /// The summary the run prints on success.
    pub fn to_stdout_summary(&self) -> (text: String)
        ensures
            text@ == stdout_summary_text(*self),
    {
        let s = &self.summary;
        let mut out = String::new();
        push_str(&mut out, "profile-json-refs: wrote ");
        push_str(&mut out, self.out_path.as_str());
        push_char(&mut out, '\n');
        push_char(&mut out, '\n');
        push_count_line(&mut out, "documents: ", s.total_document_count);
        push_count_line(&mut out, "objects: ", s.total_object_count);
        push_count_line(&mut out, "arrays: ", s.total_array_count);
        push_count_line(&mut out, "scalars: ", s.total_scalar_count);
        push_count_line(&mut out, "canonical_paths: ", s.total_canonical_path_count);
        push_count_line(&mut out, "site_paths: ", s.total_site_path_count);
        push_count_line(&mut out, "shapes: ", s.total_shape_count);
        push_count_line(&mut out, "field_profiles: ", s.total_field_profile_count);
        push_count_line(&mut out, "stored_values: ", s.total_stored_value_count);
        push_str(&mut out, "elapsed: ");
        let millis = self.elapsed_millis;
        push_decimal(&mut out, millis / 1000);
        push_char(&mut out, '.');
        let fraction = millis % 1000;
        push_char(&mut out, digit_char(fraction / 100));
        push_char(&mut out, digit_char((fraction / 10) % 10));
        push_char(&mut out, digit_char(fraction % 10));
        push_char(&mut out, 's');
        push_char(&mut out, '\n');
        assert(out@ =~= stdout_summary_text(*self));
        out
    }
}

} // verus!
