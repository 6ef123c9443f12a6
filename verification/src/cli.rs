//! The command-line arguments of a profile run, as parsed values.

use vstd::prelude::*;

verus! {

/// The parsed command line. Paths are kept as the text the user gave.
#[derive(Debug, Clone)]
pub struct CliArgs {
    /// Input JSON/JSONL file. Stdin is not supported.
    pub input_file: String,
    /// Path to the refs SQLite database.
    pub refs: Option<String>,
    /// Output profile SQLite path.
    pub out: Option<String>,
    /// Force JSONL mode.
    pub jsonl: bool,
    /// YAML config file.
    pub config: Option<String>,
    /// Type-set object priority sample limit.
    pub shape_sample_limit: Option<usize>,
    /// Value priority sample limit per field profile.
    pub value_sample_limit: Option<usize>,
    /// Space-Saving candidate limit.
    pub heavy_hitter_limit: Option<usize>,
    /// HyperLogLog precision.
    pub hll_precision: Option<u8>,
    /// Display/storage limit for stored value texts.
    pub value_text_limit: Option<usize>,
    /// Emit timing buckets.
    pub perf_log: bool,
    /// Write perf-log events to a file instead of stderr.
    pub perf_log_file: Option<String>,
    /// Include SQLite dbstat diagnostics in the perf log.
    pub perf_log_dbstat: bool,
    /// Suppress normal stdout on success.
    pub quiet: bool,
}

} // verus!
