//! The configuration of a profile run: defaults, the YAML file's sections,
//! command-line overrides, and validation.

use vstd::prelude::*;

use crate::cli::CliArgs;
use crate::error::ProfileError;
use crate::util::text::{compare_text, push_char, push_str, str_to_string};
use vstd::string::StrSliceExecFns;

verus! {

#[derive(Debug, Clone, Copy, PartialEq, Eq, Structural)]
pub enum InputFormat {
    Auto,
    Json,
    Jsonl,
}

#[derive(Debug, Clone, Copy, PartialEq, Eq, Structural)]
pub struct SamplingConfig {
    pub object_json_limit_bytes: usize,
    pub canonical_priority_limit: usize,
    pub site_priority_limit: usize,
    pub field_set_priority_limit: usize,
    pub type_set_priority_limit: usize,
    pub value_json_limit_bytes: usize,
    pub parent_object_json_limit_bytes: usize,
    pub value_priority_limit_per_field_profile: usize,
    pub heavy_hitter_context_sample_limit: usize,
}

#[derive(Debug, Clone, Copy, PartialEq, Eq, Structural)]
pub struct ValueProfileConfig {
    pub value_text_limit_bytes: usize,
    pub exact_distinct_threshold: usize,
    pub exact_value_bytes_per_field_profile: usize,
    pub global_exact_value_bytes_budget: usize,
    pub hll_precision: u8,
    pub heavy_hitter_limit: usize,
}

#[derive(Debug, Clone, Copy, PartialEq, Eq, Structural)]
pub struct FlushConfig {
    pub chunk_object_sample_rows: usize,
    pub chunk_value_sample_rows: usize,
    pub chunk_shape_rows: usize,
    pub chunk_field_rows: usize,
}

/// A run's configuration. Paths are kept as text.
#[derive(Debug, Clone)]
pub struct ProfileConfig {
    pub input_file: String,
    pub refs_sqlite: String,
    pub out_sqlite: String,
    pub input_format: InputFormat,
    pub quiet: bool,
    pub perf_log: bool,
    pub perf_log_file: Option<String>,
    pub perf_log_dbstat: bool,
    pub sampling: SamplingConfig,
    pub value_profile: ValueProfileConfig,
    pub flush: FlushConfig,
}

/// A configuration with its texts as character sequences.
pub struct ProfileConfigView {
    pub input_file: Seq<char>,
    pub refs_sqlite: Seq<char>,
    pub out_sqlite: Seq<char>,
    pub input_format: InputFormat,
    pub quiet: bool,
    pub perf_log: bool,
    pub perf_log_file: Option<Seq<char>>,
    pub perf_log_dbstat: bool,
    pub sampling: SamplingConfig,
    pub value_profile: ValueProfileConfig,
    pub flush: FlushConfig,
}

pub open spec fn opt_text(text: Option<String>) -> Option<Seq<char>> {
    match text {
        Some(t) => Some(t@),
        None => None,
    }
}

/// The value of an option, or `default` when it is absent.
pub open spec fn or_keep<T>(option: Option<T>, default: T) -> T {
    match option {
        Some(value) => value,
        None => default,
    }
}

pub open spec fn text_or_keep(option: Option<String>, default: Seq<char>) -> Seq<char> {
    match option {
        Some(value) => value@,
        None => default,
    }
}

impl View for ProfileConfig {
    type V = ProfileConfigView;

    open spec fn view(&self) -> ProfileConfigView {
        ProfileConfigView {
            input_file: self.input_file@,
            refs_sqlite: self.refs_sqlite@,
            out_sqlite: self.out_sqlite@,
            input_format: self.input_format,
            quiet: self.quiet,
            perf_log: self.perf_log,
            perf_log_file: opt_text(self.perf_log_file),
            perf_log_dbstat: self.perf_log_dbstat,
            sampling: self.sampling,
            value_profile: self.value_profile,
            flush: self.flush,
        }
    }
}

// ----- the YAML file's sections, as parsed values -----

#[derive(Debug, Clone)]
pub struct FileConfig {
    pub input: Option<InputConfig>,
    pub refs: Option<RefsConfig>,
    pub output: Option<OutputConfig>,
    pub stdout: Option<StdoutConfig>,
    pub perf: Option<PerfConfig>,
    pub sampling: Option<SamplingFileConfig>,
    pub value_profile: Option<ValueProfileFileConfig>,
    pub flush: Option<FlushFileConfig>,
}

#[derive(Debug, Clone)]
pub struct InputConfig {
    pub file: Option<String>,
    pub format: Option<String>,
}

#[derive(Debug, Clone)]
pub struct RefsConfig {
    pub sqlite: Option<String>,
}

#[derive(Debug, Clone)]
pub struct OutputConfig {
    pub sqlite: Option<String>,
}

#[derive(Debug, Clone)]
pub struct StdoutConfig {
    pub quiet: Option<bool>,
}

#[derive(Debug, Clone)]
pub struct PerfConfig {
    pub log: Option<bool>,
    pub file: Option<String>,
    pub dbstat: Option<bool>,
}

#[derive(Debug, Clone)]
pub struct SamplingFileConfig {
    pub object: Option<ObjectSamplingFileConfig>,
    pub value: Option<ValueSamplingFileConfig>,
}

#[derive(Debug, Clone, Copy)]
pub struct PrioritySampleFileConfig {
    pub first_seen: Option<bool>,
    pub first_non_empty: Option<bool>,
    pub priority_sample_limit: Option<usize>,
}

#[derive(Debug, Clone, Copy)]
pub struct ObjectSamplingFileConfig {
    pub sample_json_limit_bytes: Option<usize>,
    pub chunk_flush_rows: Option<usize>,
    pub canonical_path: Option<PrioritySampleFileConfig>,
    pub site_path: Option<PrioritySampleFileConfig>,
    pub field_set: Option<PrioritySampleFileConfig>,
    pub type_set: Option<PrioritySampleFileConfig>,
}

#[derive(Debug, Clone, Copy)]
pub struct ValueSamplingFileConfig {
    pub value_json_limit_bytes: Option<usize>,
    pub parent_object_json_limit_bytes: Option<usize>,
    pub chunk_flush_rows: Option<usize>,
    pub first_seen: Option<bool>,
    pub first_non_empty: Option<bool>,
    pub priority_sample_limit_per_field_profile: Option<usize>,
    pub heavy_hitter_context_sample_limit: Option<usize>,
}

#[derive(Debug, Clone, Copy)]
pub struct ValueProfileFileConfig {
    pub value_text_limit_bytes: Option<usize>,
    pub exact_distinct_threshold: Option<usize>,
    pub exact_value_bytes_per_field_profile: Option<usize>,
    pub global_exact_value_bytes_budget: Option<usize>,
    pub hll_precision: Option<u8>,
    pub heavy_hitter_limit: Option<usize>,
}

#[derive(Debug, Clone, Copy)]
pub struct FlushFileConfig {
    pub chunk_object_sample_rows: Option<usize>,
    pub chunk_value_sample_rows: Option<usize>,
    pub chunk_shape_rows: Option<usize>,
    pub chunk_field_rows: Option<usize>,
}

// ----- defaults -----

pub open spec fn default_sampling() -> SamplingConfig {
    SamplingConfig {
        object_json_limit_bytes: 16384,
        canonical_priority_limit: 1,
        site_priority_limit: 1,
        field_set_priority_limit: 2,
        type_set_priority_limit: 4,
        value_json_limit_bytes: 1024,
        parent_object_json_limit_bytes: 1024,
        value_priority_limit_per_field_profile: 4,
        heavy_hitter_context_sample_limit: 0,
    }
}

pub open spec fn default_value_profile() -> ValueProfileConfig {
    ValueProfileConfig {
        value_text_limit_bytes: 512,
        exact_distinct_threshold: 4096,
        exact_value_bytes_per_field_profile: 1048576,
        global_exact_value_bytes_budget: 268435456,
        hll_precision: 14,
        heavy_hitter_limit: 128,
    }
}

pub open spec fn default_flush() -> FlushConfig {
    FlushConfig {
        chunk_object_sample_rows: 10000,
        chunk_value_sample_rows: 10000,
        chunk_shape_rows: 10000,
        chunk_field_rows: 25000,
    }
}

impl Default for SamplingConfig {
    fn default() -> (config: Self)
        ensures
            config == default_sampling(),
    {
        SamplingConfig {
            object_json_limit_bytes: 16384,
            canonical_priority_limit: 1,
            site_priority_limit: 1,
            field_set_priority_limit: 2,
            type_set_priority_limit: 4,
            value_json_limit_bytes: 1024,
            parent_object_json_limit_bytes: 1024,
            value_priority_limit_per_field_profile: 4,
            heavy_hitter_context_sample_limit: 0,
        }
    }
}

impl Default for ValueProfileConfig {
    fn default() -> (config: Self)
        ensures
            config == default_value_profile(),
    {
        ValueProfileConfig {
            value_text_limit_bytes: 512,
            exact_distinct_threshold: 4096,
            exact_value_bytes_per_field_profile: 1048576,
            global_exact_value_bytes_budget: 268435456,
            hll_precision: 14,
            heavy_hitter_limit: 128,
        }
    }
}

impl Default for FlushConfig {
    fn default() -> (config: Self)
        ensures
            config == default_flush(),
    {
        FlushConfig {
            chunk_object_sample_rows: 10000,
            chunk_value_sample_rows: 10000,
            chunk_shape_rows: 10000,
            chunk_field_rows: 25000,
        }
    }
}

pub open spec fn default_refs_sqlite_text() -> Seq<char> {
    "refs/schemas.sqlite"@
}

pub open spec fn default_out_sqlite_text() -> Seq<char> {
    "profile.sqlite"@
}

/// The configuration before the file and the command line apply.
pub open spec fn default_config(input_file: Seq<char>) -> ProfileConfigView {
    ProfileConfigView {
        input_file: input_file,
        refs_sqlite: default_refs_sqlite_text(),
        out_sqlite: default_out_sqlite_text(),
        input_format: InputFormat::Auto,
        quiet: false,
        perf_log: false,
        perf_log_file: None,
        perf_log_dbstat: false,
        sampling: default_sampling(),
        value_profile: default_value_profile(),
        flush: default_flush(),
    }
}

// ----- the input format -----

pub open spec fn ascii_lower_char(c: char) -> char {
    if 'A' <= c && c <= 'Z' {
        ((c as int) + 32) as char
    } else {
        c
    }
}

/// ASCII letters lowered, every other character kept.
pub open spec fn ascii_lower(text: Seq<char>) -> Seq<char> {
    text.map_values(|c: char| ascii_lower_char(c))
}

/// The input format a name selects, ignoring ASCII case.
pub open spec fn format_named(raw: Seq<char>) -> Option<InputFormat> {
    let lower = ascii_lower(raw);
    if lower == "auto"@ {
        Some(InputFormat::Auto)
    } else if lower == "json"@ {
        Some(InputFormat::Json)
    } else if lower == "jsonl"@ {
        Some(InputFormat::Jsonl)
    } else {
        None
    }
}

pub open spec fn unsupported_format_message(raw: Seq<char>) -> Seq<char> {
    "unsupported input.format: "@ + ascii_lower(raw)
}

/// `raw` with its ASCII letters lowered.
pub fn ascii_lowercase_text(raw: &str) -> (lower: String)
    ensures
        lower@ == ascii_lower(raw@),
{
    let mut lower = String::new();
    let count = raw.unicode_len();
    let mut index: usize = 0;
    while index < count
        invariant
            count == raw@.len(),
            index <= count,
            lower@ == ascii_lower(raw@.subrange(0, index as int)),
        decreases count - index,
    {
        let c = raw.get_char(index);
        let lowered = if 'A' <= c && c <= 'Z' {
            ((c as u8) + 32u8) as char
        } else {
            c
        };
        assert(lowered == ascii_lower_char(c));
        push_char(&mut lower, lowered);
        assert(ascii_lower(raw@.subrange(0, index + 1)) =~= ascii_lower(raw@.subrange(0, index as int)).push(
            ascii_lower_char(raw@[index as int]),
        ));
        index = index + 1;
    }
    assert(raw@.subrange(0, count as int) =~= raw@);
    lower
}

/// Parses an `input.format` value, ignoring ASCII case.
pub fn parse_input_format(raw: &str) -> (result: Result<InputFormat, ProfileError>)
    ensures
        match result {
            Ok(format) => format_named(raw@) == Some(format),
            Err(error) => format_named(raw@) is None && error is InvalidConfig
                && error->InvalidConfig_0@ == unsupported_format_message(raw@),
        },
{
    let lower = ascii_lowercase_text(raw);
    if compare_text(lower.as_str(), "auto") == 0 {
        Ok(InputFormat::Auto)
    } else if compare_text(lower.as_str(), "json") == 0 {
        Ok(InputFormat::Json)
    } else if compare_text(lower.as_str(), "jsonl") == 0 {
        Ok(InputFormat::Jsonl)
    } else {
        let mut message = str_to_string("unsupported input.format: ");
        push_str(&mut message, lower.as_str());
        Err(ProfileError::InvalidConfig(message))
    }
}

// ----- applying the file -----

/// The priority sample limit of a scope's section, if it gives one.
pub open spec fn priority_limit_of(section: Option<PrioritySampleFileConfig>) -> Option<usize> {
    match section {
        Some(config) => config.priority_sample_limit,
        None => None,
    }
}

pub open spec fn object_sampling_applied(s: SamplingConfig, object: Option<ObjectSamplingFileConfig>) -> SamplingConfig {
    match object {
        Some(o) => SamplingConfig {
            object_json_limit_bytes: or_keep(o.sample_json_limit_bytes, s.object_json_limit_bytes),
            canonical_priority_limit: or_keep(priority_limit_of(o.canonical_path), s.canonical_priority_limit),
            site_priority_limit: or_keep(priority_limit_of(o.site_path), s.site_priority_limit),
            field_set_priority_limit: or_keep(priority_limit_of(o.field_set), s.field_set_priority_limit),
            type_set_priority_limit: or_keep(priority_limit_of(o.type_set), s.type_set_priority_limit),
            ..s
        },
        None => s,
    }
}

pub open spec fn value_sampling_applied(s: SamplingConfig, value: Option<ValueSamplingFileConfig>) -> SamplingConfig {
    match value {
        Some(v) => SamplingConfig {
            value_json_limit_bytes: or_keep(v.value_json_limit_bytes, s.value_json_limit_bytes),
            parent_object_json_limit_bytes: or_keep(v.parent_object_json_limit_bytes, s.parent_object_json_limit_bytes),
            value_priority_limit_per_field_profile: or_keep(
                v.priority_sample_limit_per_field_profile,
                s.value_priority_limit_per_field_profile,
            ),
            heavy_hitter_context_sample_limit: or_keep(
                v.heavy_hitter_context_sample_limit,
                s.heavy_hitter_context_sample_limit,
            ),
            ..s
        },
        None => s,
    }
}

/// The sampling section's effect on the sampling limits.
pub open spec fn sampling_applied(s: SamplingConfig, file: SamplingFileConfig) -> SamplingConfig {
    value_sampling_applied(object_sampling_applied(s, file.object), file.value)
}

/// The sampling section's effect on the flush thresholds: its object and
/// value chunk sizes.
pub open spec fn sampling_flush_applied(f: FlushConfig, file: SamplingFileConfig) -> FlushConfig {
    let object_rows = match file.object {
        Some(o) => or_keep(o.chunk_flush_rows, f.chunk_object_sample_rows),
        None => f.chunk_object_sample_rows,
    };
    let value_rows = match file.value {
        Some(v) => or_keep(v.chunk_flush_rows, f.chunk_value_sample_rows),
        None => f.chunk_value_sample_rows,
    };
    FlushConfig { chunk_object_sample_rows: object_rows, chunk_value_sample_rows: value_rows, ..f }
}

pub open spec fn value_profile_applied(v: ValueProfileConfig, file: ValueProfileFileConfig) -> ValueProfileConfig {
    ValueProfileConfig {
        value_text_limit_bytes: or_keep(file.value_text_limit_bytes, v.value_text_limit_bytes),
        exact_distinct_threshold: or_keep(file.exact_distinct_threshold, v.exact_distinct_threshold),
        exact_value_bytes_per_field_profile: or_keep(
            file.exact_value_bytes_per_field_profile,
            v.exact_value_bytes_per_field_profile,
        ),
        global_exact_value_bytes_budget: or_keep(file.global_exact_value_bytes_budget, v.global_exact_value_bytes_budget),
        hll_precision: or_keep(file.hll_precision, v.hll_precision),
        heavy_hitter_limit: or_keep(file.heavy_hitter_limit, v.heavy_hitter_limit),
    }
}

pub open spec fn flush_applied(f: FlushConfig, file: FlushFileConfig) -> FlushConfig {
    FlushConfig {
        chunk_object_sample_rows: or_keep(file.chunk_object_sample_rows, f.chunk_object_sample_rows),
        chunk_value_sample_rows: or_keep(file.chunk_value_sample_rows, f.chunk_value_sample_rows),
        chunk_shape_rows: or_keep(file.chunk_shape_rows, f.chunk_shape_rows),
        chunk_field_rows: or_keep(file.chunk_field_rows, f.chunk_field_rows),
    }
}

/// The `input.format` text of a file, if it gives one.
pub open spec fn file_format(file: FileConfig) -> Option<Seq<char>> {
    match file.input {
        Some(input) => opt_text(input.format),
        None => None,
    }
}

/// Whether the file names an input format that does not exist.
pub open spec fn file_format_invalid(file: FileConfig) -> bool {
    match file_format(file) {
        Some(raw) => format_named(raw) is None,
        None => false,
    }
}

pub open spec fn format_section(c: ProfileConfigView, input: Option<InputConfig>) -> ProfileConfigView {
    let input_format = match input {
        Some(i) => match i.format {
            Some(raw) => or_keep(format_named(raw@), c.input_format),
            None => c.input_format,
        },
        None => c.input_format,
    };
    ProfileConfigView { input_format, ..c }
}

pub open spec fn location_section(
    c: ProfileConfigView,
    refs: Option<RefsConfig>,
    output: Option<OutputConfig>,
    stdout: Option<StdoutConfig>,
) -> ProfileConfigView {
    let refs_sqlite = match refs {
        Some(r) => text_or_keep(r.sqlite, c.refs_sqlite),
        None => c.refs_sqlite,
    };
    let out_sqlite = match output {
        Some(o) => text_or_keep(o.sqlite, c.out_sqlite),
        None => c.out_sqlite,
    };
    let quiet = match stdout {
        Some(s) => or_keep(s.quiet, c.quiet),
        None => c.quiet,
    };
    ProfileConfigView { refs_sqlite, out_sqlite, quiet, ..c }
}

/// The perf section: `log` sets the perf log, `file` sets its file and
/// turns it on, `dbstat` sets the dbstat diagnostics.
pub open spec fn perf_section(c: ProfileConfigView, perf: Option<PerfConfig>) -> ProfileConfigView {
    match perf {
        Some(p) => ProfileConfigView {
            perf_log: p.file is Some || or_keep(p.log, c.perf_log),
            perf_log_file: match p.file {
                Some(path) => Some(path@),
                None => c.perf_log_file,
            },
            perf_log_dbstat: or_keep(p.dbstat, c.perf_log_dbstat),
            ..c
        },
        None => c,
    }
}

pub open spec fn sampling_section(c: ProfileConfigView, sampling: Option<SamplingFileConfig>) -> ProfileConfigView {
    match sampling {
        Some(s) => ProfileConfigView {
            sampling: sampling_applied(c.sampling, s),
            flush: sampling_flush_applied(c.flush, s),
            ..c
        },
        None => c,
    }
}

pub open spec fn value_profile_section(c: ProfileConfigView, value_profile: Option<ValueProfileFileConfig>) -> ProfileConfigView {
    match value_profile {
        Some(v) => ProfileConfigView { value_profile: value_profile_applied(c.value_profile, v), ..c },
        None => c,
    }
}

pub open spec fn flush_section(c: ProfileConfigView, flush: Option<FlushFileConfig>) -> ProfileConfigView {
    match flush {
        Some(f) => ProfileConfigView { flush: flush_applied(c.flush, f), ..c },
        None => c,
    }
}

/// A configuration after a file whose format is valid applies: each value
/// the file gives replaces the current one, section by section in the
/// file's order (so the flush section overrides the sampling section's
/// chunk sizes), and `perf.file` also turns the perf log on.
pub open spec fn file_applied(c: ProfileConfigView, file: FileConfig) -> ProfileConfigView {
    flush_section(
        value_profile_section(
            sampling_section(
                perf_section(
                    location_section(format_section(c, file.input), file.refs, file.output, file.stdout),
                    file.perf,
                ),
                file.sampling,
            ),
            file.value_profile,
        ),
        file.flush,
    )
}

/// A configuration after the command line's options apply over it.
pub open spec fn cli_applied(c: ProfileConfigView, args: CliArgs) -> ProfileConfigView {
    ProfileConfigView {
        input_file: c.input_file,
        refs_sqlite: text_or_keep(args.refs, c.refs_sqlite),
        out_sqlite: text_or_keep(args.out, c.out_sqlite),
        input_format: if args.jsonl { InputFormat::Jsonl } else { c.input_format },
        quiet: args.quiet || c.quiet,
        perf_log: args.perf_log || args.perf_log_file is Some || c.perf_log,
        perf_log_file: match args.perf_log_file {
            Some(path) => Some(path@),
            None => c.perf_log_file,
        },
        perf_log_dbstat: args.perf_log_dbstat || c.perf_log_dbstat,
        sampling: SamplingConfig {
            type_set_priority_limit: or_keep(args.shape_sample_limit, c.sampling.type_set_priority_limit),
            value_priority_limit_per_field_profile: or_keep(
                args.value_sample_limit,
                c.sampling.value_priority_limit_per_field_profile,
            ),
            ..c.sampling
        },
        value_profile: ValueProfileConfig {
            heavy_hitter_limit: or_keep(args.heavy_hitter_limit, c.value_profile.heavy_hitter_limit),
            hll_precision: or_keep(args.hll_precision, c.value_profile.hll_precision),
            value_text_limit_bytes: or_keep(args.value_text_limit, c.value_profile.value_text_limit_bytes),
            ..c.value_profile
        },
        flush: c.flush,
    }
}

/// The configuration that the command line and an optional file give.
pub open spec fn configured(args: CliArgs, file: Option<FileConfig>) -> ProfileConfigView {
    let base = default_config(args.input_file@);
    match file {
        Some(f) => cli_applied(file_applied(base, f), args),
        None => cli_applied(base, args),
    }
}

/// An option given on the command line wins over the configuration file;
/// an option left out keeps what the file set.
pub proof fn lemma_command_line_wins(args: CliArgs, file: FileConfig)
    ensures
        ({
            let c = configured(args, Some(file));
            let f = file_applied(default_config(args.input_file@), file);
            &&& c.refs_sqlite == (match args.refs {
                Some(path) => path@,
                None => f.refs_sqlite,
            })
            &&& c.out_sqlite == (match args.out {
                Some(path) => path@,
                None => f.out_sqlite,
            })
            &&& c.input_format == (if args.jsonl { InputFormat::Jsonl } else { f.input_format })
            &&& c.sampling.type_set_priority_limit == (match args.shape_sample_limit {
                Some(limit) => limit,
                None => f.sampling.type_set_priority_limit,
            })
            &&& c.sampling.value_priority_limit_per_field_profile == (match args.value_sample_limit {
                Some(limit) => limit,
                None => f.sampling.value_priority_limit_per_field_profile,
            })
            &&& c.value_profile.heavy_hitter_limit == (match args.heavy_hitter_limit {
                Some(limit) => limit,
                None => f.value_profile.heavy_hitter_limit,
            })
            &&& c.value_profile.hll_precision == (match args.hll_precision {
                Some(precision) => precision,
                None => f.value_profile.hll_precision,
            })
            &&& c.value_profile.value_text_limit_bytes == (match args.value_text_limit {
                Some(limit) => limit,
                None => f.value_profile.value_text_limit_bytes,
            })
            &&& c.flush == f.flush
        }),
{
}

/// The object sampling section of a file, if it has one.
pub open spec fn file_object_sampling(file: FileConfig) -> Option<ObjectSamplingFileConfig> {
    match file.sampling {
        Some(sampling) => sampling.object,
        None => None,
    }
}

/// The value sampling section of a file, if it has one.
pub open spec fn file_value_sampling(file: FileConfig) -> Option<ValueSamplingFileConfig> {
    match file.sampling {
        Some(sampling) => sampling.value,
        None => None,
    }
}

/// The sample size limits from a configuration file: each limit the
/// file's object or value sampling section gives replaces the current one;
/// a limit the file leaves out keeps its value.
pub proof fn lemma_file_sets_sample_sizes(c: ProfileConfigView, file: FileConfig)
    ensures
        ({
            let f = file_applied(c, file);
            &&& f.sampling.object_json_limit_bytes == (match file_object_sampling(file) {
                Some(o) => match o.sample_json_limit_bytes {
                    Some(limit) => limit,
                    None => c.sampling.object_json_limit_bytes,
                },
                None => c.sampling.object_json_limit_bytes,
            })
            &&& f.sampling.value_json_limit_bytes == (match file_value_sampling(file) {
                Some(v) => match v.value_json_limit_bytes {
                    Some(limit) => limit,
                    None => c.sampling.value_json_limit_bytes,
                },
                None => c.sampling.value_json_limit_bytes,
            })
            &&& f.sampling.parent_object_json_limit_bytes == (match file_value_sampling(file) {
                Some(v) => match v.parent_object_json_limit_bytes {
                    Some(limit) => limit,
                    None => c.sampling.parent_object_json_limit_bytes,
                },
                None => c.sampling.parent_object_json_limit_bytes,
            })
            &&& f.sampling.value_priority_limit_per_field_profile == (match file_value_sampling(file) {
                Some(v) => match v.priority_sample_limit_per_field_profile {
                    Some(limit) => limit,
                    None => c.sampling.value_priority_limit_per_field_profile,
                },
                None => c.sampling.value_priority_limit_per_field_profile,
            })
            &&& f.sampling.heavy_hitter_context_sample_limit == (match file_value_sampling(file) {
                Some(v) => match v.heavy_hitter_context_sample_limit {
                    Some(limit) => limit,
                    None => c.sampling.heavy_hitter_context_sample_limit,
                },
                None => c.sampling.heavy_hitter_context_sample_limit,
            })
        }),
{
}

/// A scope's priority sample limit from a configuration file: a
/// `priority_sample_limit` given in the file's section for that scope
/// becomes that scope's limit, and each scope reads its own section; a scope
/// whose section gives none keeps the limit it had. No other part of the
/// file, and no command-line option but `--shape-sample-limit` (for the
/// type set scope), changes these limits.
pub proof fn lemma_file_sets_object_sample_limits(c: ProfileConfigView, file: FileConfig, args: CliArgs)
    ensures
        ({
            let f = file_applied(c, file);
            &&& f.sampling.canonical_priority_limit == (match file_object_sampling(file) {
                Some(o) => match o.canonical_path {
                    Some(section) => match section.priority_sample_limit {
                        Some(limit) => limit,
                        None => c.sampling.canonical_priority_limit,
                    },
                    None => c.sampling.canonical_priority_limit,
                },
                None => c.sampling.canonical_priority_limit,
            })
            &&& f.sampling.site_priority_limit == (match file_object_sampling(file) {
                Some(o) => match o.site_path {
                    Some(section) => match section.priority_sample_limit {
                        Some(limit) => limit,
                        None => c.sampling.site_priority_limit,
                    },
                    None => c.sampling.site_priority_limit,
                },
                None => c.sampling.site_priority_limit,
            })
            &&& f.sampling.field_set_priority_limit == (match file_object_sampling(file) {
                Some(o) => match o.field_set {
                    Some(section) => match section.priority_sample_limit {
                        Some(limit) => limit,
                        None => c.sampling.field_set_priority_limit,
                    },
                    None => c.sampling.field_set_priority_limit,
                },
                None => c.sampling.field_set_priority_limit,
            })
            &&& f.sampling.type_set_priority_limit == (match file_object_sampling(file) {
                Some(o) => match o.type_set {
                    Some(section) => match section.priority_sample_limit {
                        Some(limit) => limit,
                        None => c.sampling.type_set_priority_limit,
                    },
                    None => c.sampling.type_set_priority_limit,
                },
                None => c.sampling.type_set_priority_limit,
            })
        }),
        ({
            let configured_limits = configured(args, Some(file)).sampling;
            let file_limits = file_applied(default_config(args.input_file@), file).sampling;
            &&& configured_limits.canonical_priority_limit == file_limits.canonical_priority_limit
            &&& configured_limits.site_priority_limit == file_limits.site_priority_limit
            &&& configured_limits.field_set_priority_limit == file_limits.field_set_priority_limit
        }),
{
}

// ----- validation -----

/// Why a configuration cannot run.
pub enum ConfigProblem {
    StdinUnsupported,
    InputNotFile,
    RefsNotFile,
    Invalid(Seq<char>),
}

/// The limits that must be positive, each with the name it is reported by,
/// in the order they are checked.
pub open spec fn positive_checks(c: ProfileConfigView) -> Seq<(usize, Seq<char>)> {
    seq![
        (c.sampling.type_set_priority_limit, "sampling.object.type_set.priority_sample_limit"@),
        (c.sampling.value_priority_limit_per_field_profile, "sampling.value.priority_sample_limit_per_field_profile"@),
        (c.sampling.object_json_limit_bytes, "object sample JSON limit"@),
        (c.sampling.value_json_limit_bytes, "value sample JSON limit"@),
        (c.sampling.parent_object_json_limit_bytes, "parent object sample JSON limit"@),
        (c.value_profile.value_text_limit_bytes, "value_profile.value_text_limit_bytes"@),
        (c.value_profile.exact_value_bytes_per_field_profile, "value_profile.exact_value_bytes_per_field_profile"@),
        (c.value_profile.global_exact_value_bytes_budget, "value_profile.global_exact_value_bytes_budget"@),
        (c.flush.chunk_object_sample_rows, "flush.chunk_object_sample_rows"@),
        (c.flush.chunk_value_sample_rows, "flush.chunk_value_sample_rows"@),
        (c.flush.chunk_shape_rows, "flush.chunk_shape_rows"@),
        (c.flush.chunk_field_rows, "flush.chunk_field_rows"@),
    ]
}

/// The name of the first check whose value is zero.
pub open spec fn first_zero_label(checks: Seq<(usize, Seq<char>)>) -> Option<Seq<char>>
    decreases checks.len(),
{
    if checks.len() == 0 {
        None
    } else if checks[0].0 == 0 {
        Some(checks[0].1)
    } else {
        first_zero_label(checks.drop_first())
    }
}

pub open spec fn must_be_positive_message(label: Seq<char>) -> Seq<char> {
    label + " must be > 0"@
}

/// The first problem of a configuration, in the order the checks run: the
/// stdin marker, the input and refs files, the sketch parameters, then the
/// limits that must be positive.
pub open spec fn config_problem(c: ProfileConfigView, input_is_file: bool, refs_is_file: bool) -> Option<ConfigProblem> {
    if c.input_file == "-"@ {
        Some(ConfigProblem::StdinUnsupported)
    } else if !input_is_file {
        Some(ConfigProblem::InputNotFile)
    } else if !refs_is_file {
        Some(ConfigProblem::RefsNotFile)
    } else if !(4 <= c.value_profile.hll_precision && c.value_profile.hll_precision <= 18) {
        Some(ConfigProblem::Invalid("hll_precision must be between 4 and 18"@))
    } else if c.value_profile.heavy_hitter_limit == 0 {
        Some(ConfigProblem::Invalid("heavy_hitter_limit must be > 0"@))
    } else if c.value_profile.exact_distinct_threshold <= c.value_profile.heavy_hitter_limit {
        Some(ConfigProblem::Invalid("exact_distinct_threshold should be greater than heavy_hitter_limit"@))
    } else {
        match first_zero_label(positive_checks(c)) {
            Some(label) => Some(ConfigProblem::Invalid(must_be_positive_message(label))),
            None => None,
        }
    }
}

/// Whether `error` reports `problem` of the configuration `c`.
pub open spec fn reports_problem(error: ProfileError, problem: ConfigProblem, c: ProfileConfigView) -> bool {
    match problem {
        ConfigProblem::StdinUnsupported => error is StdinUnsupported,
        ConfigProblem::InputNotFile => error is InputNotFile && error->InputNotFile_0@ == c.input_file,
        ConfigProblem::RefsNotFile => error is RefsNotFile && error->RefsNotFile_0@ == c.refs_sqlite,
        ConfigProblem::Invalid(message) => error is InvalidConfig && error->InvalidConfig_0@ == message,
    }
}

fn invalid(message: &str) -> (error: ProfileError)
    ensures
        error is InvalidConfig && error->InvalidConfig_0@ == message@,
{
    ProfileError::InvalidConfig(str_to_string(message))
}

fn take_or_keep(option: Option<usize>, current: usize) -> (value: usize)
    ensures
        value == or_keep(option, current),
{
    match option {
        Some(value) => value,
        None => current,
    }
}

fn priority_limit(section: Option<PrioritySampleFileConfig>) -> (limit: Option<usize>)
    ensures
        limit == priority_limit_of(section),
{
    match section {
        Some(config) => config.priority_sample_limit,
        None => None,
    }
}

impl ProfileConfig {
    /// Builds the configuration from the command line and, when the command
    /// line names a config file, that file's parsed contents.
    pub fn from_cli(args: CliArgs, file: Option<FileConfig>) -> (result: Result<ProfileConfig, ProfileError>)
        ensures
            match result {
                Ok(config) => config@ == configured(args, file),
                Err(error) => error is InvalidConfig,
            },
            result is Err <==> (file is Some && file_format_invalid(file.unwrap())),
            result is Err ==> result->Err_0->InvalidConfig_0@ == unsupported_format_message(file_format(file.unwrap()).unwrap()),
    {
        let mut config = ProfileConfig {
            input_file: args.input_file.clone(),
            refs_sqlite: str_to_string("refs/schemas.sqlite"),
            out_sqlite: str_to_string("profile.sqlite"),
            input_format: InputFormat::Auto,
            quiet: false,
            perf_log: false,
            perf_log_file: None,
            perf_log_dbstat: false,
            sampling: SamplingConfig::default(),
            value_profile: ValueProfileConfig::default(),
            flush: FlushConfig::default(),
        };
        assert(config@ == default_config(args.input_file@));
        match file {
            Some(file) => {
                match config.apply_file_config(file) {
                    Ok(()) => {},
                    Err(error) => {
                        return Err(error);
                    },
                }
            },
            None => {},
        }
        config.apply_cli_overrides(args);
        Ok(config)
    }

    /// Checks that the run can start. Whether the input and refs paths name
    /// files is asked of the file system by the caller.
    pub fn validate(&self, input_is_file: bool, refs_is_file: bool) -> (result: Result<(), ProfileError>)
        ensures
            match config_problem(self@, input_is_file, refs_is_file) {
                None => result is Ok,
                Some(problem) => result is Err && reports_problem(result->Err_0, problem, self@),
            },
    {
        if compare_text(self.input_file.as_str(), "-") == 0 {
            return Err(ProfileError::StdinUnsupported);
        }
        if !input_is_file {
            return Err(ProfileError::InputNotFile(self.input_file.clone()));
        }
        if !refs_is_file {
            return Err(ProfileError::RefsNotFile(self.refs_sqlite.clone()));
        }
        if !(4 <= self.value_profile.hll_precision && self.value_profile.hll_precision <= 18) {
            return Err(invalid("hll_precision must be between 4 and 18"));
        }
        if self.value_profile.heavy_hitter_limit == 0 {
            return Err(invalid("heavy_hitter_limit must be > 0"));
        }
        if self.value_profile.exact_distinct_threshold <= self.value_profile.heavy_hitter_limit {
            return Err(invalid("exact_distinct_threshold should be greater than heavy_hitter_limit"));
        }
        let checks: Vec<(usize, &str)> = vec![
            (self.sampling.type_set_priority_limit, "sampling.object.type_set.priority_sample_limit"),
            (self.sampling.value_priority_limit_per_field_profile, "sampling.value.priority_sample_limit_per_field_profile"),
            (self.sampling.object_json_limit_bytes, "object sample JSON limit"),
            (self.sampling.value_json_limit_bytes, "value sample JSON limit"),
            (self.sampling.parent_object_json_limit_bytes, "parent object sample JSON limit"),
            (self.value_profile.value_text_limit_bytes, "value_profile.value_text_limit_bytes"),
            (self.value_profile.exact_value_bytes_per_field_profile, "value_profile.exact_value_bytes_per_field_profile"),
            (self.value_profile.global_exact_value_bytes_budget, "value_profile.global_exact_value_bytes_budget"),
            (self.flush.chunk_object_sample_rows, "flush.chunk_object_sample_rows"),
            (self.flush.chunk_value_sample_rows, "flush.chunk_value_sample_rows"),
            (self.flush.chunk_shape_rows, "flush.chunk_shape_rows"),
            (self.flush.chunk_field_rows, "flush.chunk_field_rows"),
        ];
        let ghost expected = positive_checks(self@);
        assert(checks@.map_values(|check: (usize, &str)| (check.0, check.1@)) =~= expected);
        let mut index: usize = 0;
        assert(expected.skip(0) =~= expected);
        while index < checks.len()
            invariant
                index <= checks@.len(),
                checks@.len() == expected.len(),
                forall|k: int| 0 <= k < checks@.len() ==> (#[trigger] checks@[k]).0 == expected[k].0
                    && checks@[k].1@ == expected[k].1,
                first_zero_label(expected) == first_zero_label(expected.skip(index as int)),
                expected == positive_checks(self@),
                config_problem(self@, input_is_file, refs_is_file) == match first_zero_label(expected) {
                    Some(label) => Some(ConfigProblem::Invalid(must_be_positive_message(label))),
                    None => None,
                },
            decreases checks@.len() - index,
        {
            let check = checks[index];
            assert(expected.skip(index as int).drop_first() =~= expected.skip(index + 1));
            assert(expected.skip(index as int)[0] == expected[index as int]);
            if check.0 == 0 {
                assert(first_zero_label(expected) == Some(expected[index as int].1));
                let mut message = str_to_string(check.1);
                push_str(&mut message, " must be > 0");
                assert(check.1@ == expected[index as int].1);
                assert(message@ == must_be_positive_message(expected[index as int].1));
                assert(config_problem(self@, input_is_file, refs_is_file) == Some(
                    ConfigProblem::Invalid(must_be_positive_message(expected[index as int].1)),
                ));
                return Err(ProfileError::InvalidConfig(message));
            }
            index = index + 1;
        }
        assert(expected.skip(index as int) =~= Seq::<(usize, Seq<char>)>::empty());
        Ok(())
    }

    fn apply_file_config(&mut self, file: FileConfig) -> (result: Result<(), ProfileError>)
        ensures
            result is Err <==> file_format_invalid(file),
            result is Err ==> result->Err_0 is InvalidConfig
                && result->Err_0->InvalidConfig_0@ == unsupported_format_message(file_format(file).unwrap()),
            result is Ok ==> final(self)@ == file_applied(old(self)@, file),
    {
        match self.apply_input_section(file.input) {
            Ok(()) => {},
            Err(error) => {
                return Err(error);
            },
        }
        self.apply_location_sections(file.refs, file.output, file.stdout);
        self.apply_perf_section(file.perf);
        match file.sampling {
            Some(sampling) => {
                self.apply_sampling_file_config(sampling);
            },
            None => {},
        }
        match file.value_profile {
            Some(value_profile) => {
                self.apply_value_profile_file_config(value_profile);
            },
            None => {},
        }
        match file.flush {
            Some(flush) => {
                self.apply_flush_file_config(flush);
            },
            None => {},
        }
        Ok(())
    }

    fn apply_input_section(&mut self, input: Option<InputConfig>) -> (result: Result<(), ProfileError>)
        ensures
            result is Err <==> (input is Some && input->Some_0.format is Some
                && format_named(input->Some_0.format->Some_0@) is None),
            result is Err ==> result->Err_0 is InvalidConfig
                && result->Err_0->InvalidConfig_0@ == unsupported_format_message(input->Some_0.format->Some_0@),
            result is Ok ==> final(self)@ == format_section(old(self)@, input),
    {
        match input {
            Some(input) => match input.format {
                Some(format) => match parse_input_format(format.as_str()) {
                    Ok(parsed) => {
                        self.input_format = parsed;
                        Ok(())
                    },
                    Err(error) => Err(error),
                },
                None => Ok(()),
            },
            None => Ok(()),
        }
    }

    fn apply_location_sections(
        &mut self,
        refs: Option<RefsConfig>,
        output: Option<OutputConfig>,
        stdout: Option<StdoutConfig>,
    )
        ensures
            final(self)@ == location_section(old(self)@, refs, output, stdout),
    {
        match refs {
            Some(refs) => match refs.sqlite {
                Some(sqlite) => {
                    self.refs_sqlite = sqlite;
                },
                None => {},
            },
            None => {},
        }
        match output {
            Some(output) => match output.sqlite {
                Some(sqlite) => {
                    self.out_sqlite = sqlite;
                },
                None => {},
            },
            None => {},
        }
        match stdout {
            Some(stdout) => match stdout.quiet {
                Some(quiet) => {
                    self.quiet = quiet;
                },
                None => {},
            },
            None => {},
        }
    }

    fn apply_perf_section(&mut self, perf: Option<PerfConfig>)
        ensures
            final(self)@ == perf_section(old(self)@, perf),
    {
        match perf {
            Some(perf) => {
                match perf.log {
                    Some(log) => {
                        self.perf_log = log;
                    },
                    None => {},
                }
                match perf.file {
                    Some(path) => {
                        self.perf_log_file = Some(path);
                        self.perf_log = true;
                    },
                    None => {},
                }
                match perf.dbstat {
                    Some(dbstat) => {
                        self.perf_log_dbstat = dbstat;
                    },
                    None => {},
                }
            },
            None => {},
        }
    }

    fn apply_sampling_file_config(&mut self, sampling: SamplingFileConfig)
        ensures
            final(self)@ == (ProfileConfigView {
                sampling: sampling_applied(old(self)@.sampling, sampling),
                flush: sampling_flush_applied(old(self)@.flush, sampling),
                ..old(self)@
            }),
    {
        match sampling.object {
            Some(object) => {
                self.sampling.object_json_limit_bytes =
                    take_or_keep(object.sample_json_limit_bytes, self.sampling.object_json_limit_bytes);
                self.flush.chunk_object_sample_rows =
                    take_or_keep(object.chunk_flush_rows, self.flush.chunk_object_sample_rows);
                self.sampling.canonical_priority_limit =
                    take_or_keep(priority_limit(object.canonical_path), self.sampling.canonical_priority_limit);
                self.sampling.site_priority_limit =
                    take_or_keep(priority_limit(object.site_path), self.sampling.site_priority_limit);
                self.sampling.field_set_priority_limit =
                    take_or_keep(priority_limit(object.field_set), self.sampling.field_set_priority_limit);
                self.sampling.type_set_priority_limit =
                    take_or_keep(priority_limit(object.type_set), self.sampling.type_set_priority_limit);
            },
            None => {},
        }
        match sampling.value {
            Some(value) => {
                self.sampling.value_json_limit_bytes =
                    take_or_keep(value.value_json_limit_bytes, self.sampling.value_json_limit_bytes);
                self.sampling.parent_object_json_limit_bytes = take_or_keep(
                    value.parent_object_json_limit_bytes,
                    self.sampling.parent_object_json_limit_bytes,
                );
                self.flush.chunk_value_sample_rows =
                    take_or_keep(value.chunk_flush_rows, self.flush.chunk_value_sample_rows);
                self.sampling.value_priority_limit_per_field_profile = take_or_keep(
                    value.priority_sample_limit_per_field_profile,
                    self.sampling.value_priority_limit_per_field_profile,
                );
                self.sampling.heavy_hitter_context_sample_limit = take_or_keep(
                    value.heavy_hitter_context_sample_limit,
                    self.sampling.heavy_hitter_context_sample_limit,
                );
            },
            None => {},
        }
    }

    fn apply_value_profile_file_config(&mut self, value_profile: ValueProfileFileConfig)
        ensures
            final(self)@ == (ProfileConfigView {
                value_profile: value_profile_applied(old(self)@.value_profile, value_profile),
                ..old(self)@
            }),
    {
        self.value_profile.value_text_limit_bytes =
            take_or_keep(value_profile.value_text_limit_bytes, self.value_profile.value_text_limit_bytes);
        self.value_profile.exact_distinct_threshold =
            take_or_keep(value_profile.exact_distinct_threshold, self.value_profile.exact_distinct_threshold);
        self.value_profile.exact_value_bytes_per_field_profile = take_or_keep(
            value_profile.exact_value_bytes_per_field_profile,
            self.value_profile.exact_value_bytes_per_field_profile,
        );
        self.value_profile.global_exact_value_bytes_budget = take_or_keep(
            value_profile.global_exact_value_bytes_budget,
            self.value_profile.global_exact_value_bytes_budget,
        );
        match value_profile.hll_precision {
            Some(precision) => {
                self.value_profile.hll_precision = precision;
            },
            None => {},
        }
        self.value_profile.heavy_hitter_limit =
            take_or_keep(value_profile.heavy_hitter_limit, self.value_profile.heavy_hitter_limit);
    }

    fn apply_flush_file_config(&mut self, flush: FlushFileConfig)
        ensures
            final(self)@ == (ProfileConfigView { flush: flush_applied(old(self)@.flush, flush), ..old(self)@ }),
    {
        self.flush.chunk_object_sample_rows =
            take_or_keep(flush.chunk_object_sample_rows, self.flush.chunk_object_sample_rows);
        self.flush.chunk_value_sample_rows =
            take_or_keep(flush.chunk_value_sample_rows, self.flush.chunk_value_sample_rows);
        self.flush.chunk_shape_rows = take_or_keep(flush.chunk_shape_rows, self.flush.chunk_shape_rows);
        self.flush.chunk_field_rows = take_or_keep(flush.chunk_field_rows, self.flush.chunk_field_rows);
    }

    fn apply_cli_overrides(&mut self, args: CliArgs)
        ensures
            final(self)@ == cli_applied(old(self)@, args),
    {
        let ghost before = self@;
        let ghost whole = args;
        match args.refs {
            Some(refs) => {
                self.refs_sqlite = refs;
            },
            None => {},
        }
        match args.out {
            Some(out) => {
                self.out_sqlite = out;
            },
            None => {},
        }
        if args.jsonl {
            self.input_format = InputFormat::Jsonl;
        }
        self.sampling.type_set_priority_limit =
            take_or_keep(args.shape_sample_limit, self.sampling.type_set_priority_limit);
        self.sampling.value_priority_limit_per_field_profile =
            take_or_keep(args.value_sample_limit, self.sampling.value_priority_limit_per_field_profile);
        self.value_profile.heavy_hitter_limit =
            take_or_keep(args.heavy_hitter_limit, self.value_profile.heavy_hitter_limit);
        match args.hll_precision {
            Some(precision) => {
                self.value_profile.hll_precision = precision;
            },
            None => {},
        }
        self.value_profile.value_text_limit_bytes =
            take_or_keep(args.value_text_limit, self.value_profile.value_text_limit_bytes);
        if args.quiet {
            self.quiet = true;
        }
        if args.perf_log {
            self.perf_log = true;
        }
        match args.perf_log_file {
            Some(path) => {
                self.perf_log_file = Some(path);
                self.perf_log = true;
            },
            None => {},
        }
        if args.perf_log_dbstat {
            self.perf_log_dbstat = true;
        }
        assert(self@ == cli_applied(before, whole));
    }
}

} // verus!
