use profile_json_refs::W_CANONICAL_PATH_UNAVAILABLE;
use profile_json_refs::config::{InputFormat, ProfileConfig};
use profile_json_refs::cli::CliArgs;
use profile_json_refs::error::ProfileError;
use profile_json_refs::refs::resolver::RefsResolver;
use profile_json_refs::refs::site::{RefsIndex, SiteContext};
use profile_json_refs::run::{
    FlushReason, ProfileRunVisitor, ResolvedInputFormat, ScanChunkReason, field_source_path,
    resolve_input_format, scan_chunk_reason_for_flush,
};
use profile_json_refs::scan::path::SourcePath;
use profile_json_refs::scan::json::{scan_json_text, scan_jsonl_line};
use profile_json_refs::scan::visitor::ScanVisitor;
use profile_json_refs::shape::sample::{ObjectSampleKind, SampleScope};
use profile_json_refs::sqlite::writer::{
    ObjectSamplePriorityLimits, ProfileChunk, TouchedSampleKeys, as_i64, bool_i64,
};
use profile_json_refs::util::json_value::JsonValue;
use profile_json_refs::value::sample::ValueSampleKind;

fn config() -> ProfileConfig {
    let args = CliArgs {
        input_file: "data.json".to_string(),
        refs: None,
        out: None,
        jsonl: false,
        config: None,
        shape_sample_limit: None,
        value_sample_limit: None,
        heavy_hitter_limit: None,
        hll_precision: None,
        value_text_limit: None,
        perf_log: false,
        perf_log_file: None,
        perf_log_dbstat: false,
        quiet: false,
    };
    ProfileConfig::from_cli(args, None).unwrap()
}

struct Driver {
    run: ProfileRunVisitor,
    flushes: Vec<FlushReason>,
}

impl Driver {
    fn take_flush(&mut self) {
        if let Some(reason) = self.run.take_flush_request() {
            self.flushes.push(reason);
        }
    }
}

impl ScanVisitor for Driver {
    fn begin_document(&mut self, document_index: u64) -> Result<(), ProfileError> {
        ScanVisitor::begin_document(&mut self.run, document_index)
    }

    fn end_document(&mut self, document_index: u64) -> Result<(), ProfileError> {
        ScanVisitor::end_document(&mut self.run, document_index)?;
        self.take_flush();
        Ok(())
    }

    fn visit_object(
        &mut self,
        document_index: u64,
        path: &SourcePath,
        object: &Vec<(String, JsonValue)>,
    ) -> Result<(), ProfileError> {
        ScanVisitor::visit_object(&mut self.run, document_index, path, object)?;
        self.take_flush();
        Ok(())
    }

    fn visit_array(
        &mut self,
        document_index: u64,
        path: &SourcePath,
        array: &Vec<JsonValue>,
    ) -> Result<(), ProfileError> {
        ScanVisitor::visit_array(&mut self.run, document_index, path, array)
    }

    fn visit_scalar(
        &mut self,
        document_index: u64,
        path: &SourcePath,
        value: &JsonValue,
    ) -> Result<(), ProfileError> {
        ScanVisitor::visit_scalar(&mut self.run, document_index, path, value)
    }
}

fn root_index() -> RefsIndex {
    let mut index = RefsIndex::new();
    index.insert_schema("$".to_string(), "refs/root.json".to_string());
    index.insert_site(
        "$".to_string(),
        SiteContext {
            canonical_path: "$".to_string(),
            site_path: Some("$".to_string()),
            schema_path: "refs/root.json".to_string(),
        },
    );
    index
}

fn run_documents(index: RefsIndex, documents: &[&str]) -> Driver {
    let mut driver = Driver {
        run: ProfileRunVisitor::new(config(), RefsResolver::new(index), Vec::new()),
        flushes: Vec::new(),
    };
    for (document_index, raw) in documents.iter().enumerate() {
        scan_jsonl_line(document_index as u64, raw, &mut driver).unwrap();
    }
    driver
}

#[test]
fn basic_document_counts_values_shapes_and_fields() {
    let mut driver = run_documents(root_index(), &[r#"{"id":1,"name":"Ada"}"#]);
    let counters = driver.run.counters();
    assert_eq!(counters.total_document_count, 1);
    assert_eq!(counters.total_object_count, 1);
    assert_eq!(counters.total_array_count, 0);
    assert_eq!(counters.total_scalar_count, 2);
    assert!(driver.flushes.is_empty());
    assert!(driver.run.warnings().is_empty());
    assert!(driver.run.has_pending_sample_chunk());

    let chunk = driver.run.drain_pending_chunk();
    assert_eq!(chunk.shapes.len(), 1);
    assert_eq!(chunk.shapes[0].canonical_path, "$");
    assert_eq!(chunk.shapes[0].schema_path, "refs/root.json");
    assert_eq!(chunk.shapes[0].object_count, 1);
    assert_eq!(chunk.shape_fields.len(), 2);
    let first_seen = chunk
        .object_samples
        .iter()
        .filter(|row| row.sample_kind == ObjectSampleKind::FirstSeen)
        .count();
    assert_eq!(first_seen, 4);
    // Each field gives a first-seen, a first-non-empty and a priority sample.
    assert_eq!(chunk.value_samples.len(), 6);
    assert_eq!(driver.run.pending_value_sample_count(), 0);
    assert!(!driver.run.has_pending_sample_chunk());
    assert!(driver.run.has_pending_field_value_accumulators());
    assert!(!chunk.is_empty());

    let outputs = driver.run.finish_field_values();
    assert_eq!(outputs.len(), 2);
    assert!(outputs[0].summary.field_profile_id < outputs[1].summary.field_profile_id);
    for output in &outputs {
        assert_eq!(output.summary.profiled_count, 1);
        assert_eq!(output.summary.distinct_count, Some(1));
        assert_eq!(output.field_values.len(), 1);
        assert_eq!(output.summary.stored_value_count, 1);
        assert!(output.value_samples.is_empty());
    }
    assert!(!driver.run.has_pending_field_value_accumulators());
}

#[test]
fn repeated_values_profile_under_one_field_profile() {
    let mut driver = run_documents(
        root_index(),
        &[r#"{"status":"A"}"#, r#"{"status":"A"}"#, r#"{"status":"B"}"#],
    );
    assert_eq!(driver.run.field_value_accumulator_count(), 1);
    // First-seen and first-non-empty once, then up to the priority limit.
    assert_eq!(driver.run.pending_value_sample_count(), 5);
    let chunk = driver.run.drain_pending_chunk();
    assert_eq!(chunk.value_samples.len(), 5);
    let outputs = driver.run.finish_field_values();
    assert_eq!(outputs.len(), 1);
    let output = &outputs[0];
    assert_eq!(output.summary.profiled_count, 3);
    assert_eq!(output.summary.distinct_count, Some(2));
    assert_eq!(output.field_values[0].value_text.as_deref(), Some("A"));
    assert_eq!(output.field_values[0].count, Some(2));
    assert_eq!(output.field_values[1].value_text.as_deref(), Some("B"));
    assert_eq!(output.field_values[1].count, Some(1));
}

#[test]
fn heterogeneous_objects_split_into_shapes() {
    let mut driver = run_documents(
        RefsIndex::new(),
        &[r#"{"items":[{"id":1,"amount":10},{"id":2,"error":"invalid"},{"id":3,"amount":"x"}]}"#],
    );
    let counters = driver.run.counters();
    assert_eq!(counters.total_object_count, 4);
    assert_eq!(counters.total_array_count, 1);
    assert_eq!(counters.total_scalar_count, 6);
    let chunk = driver.run.drain_pending_chunk();
    let item_shapes: Vec<_> =
        chunk.shapes.iter().filter(|shape| shape.canonical_path == "$.items[]").collect();
    assert_eq!(item_shapes.len(), 3);
    assert!(item_shapes.iter().all(|shape| shape.schema_path == "unknown"));
}

#[test]
fn unresolved_objects_warn_once() {
    let driver = run_documents(RefsIndex::new(), &[r#"{"a":{"b":{}}}"#, r#"{"c":1}"#]);
    let warnings = driver.run.into_warnings();
    assert_eq!(warnings.len(), 1);
    assert_eq!(warnings[0].code, W_CANONICAL_PATH_UNAVAILABLE);
    assert_eq!(
        warnings[0].message,
        "refs database did not contain an exact context for source path $"
    );
}

#[test]
fn input_format_follows_the_extension_unless_forced() {
    assert_eq!(resolve_input_format(InputFormat::Auto, Some("JSONL")), ResolvedInputFormat::Jsonl);
    assert_eq!(resolve_input_format(InputFormat::Auto, Some("json")), ResolvedInputFormat::Json);
    assert_eq!(resolve_input_format(InputFormat::Auto, None), ResolvedInputFormat::Json);
    assert_eq!(resolve_input_format(InputFormat::Jsonl, Some("json")), ResolvedInputFormat::Jsonl);
    assert_eq!(resolve_input_format(InputFormat::Json, Some("jsonl")), ResolvedInputFormat::Json);
    assert_eq!(ResolvedInputFormat::Jsonl.as_source_summary_str(), "jsonl");
}

#[test]
fn flush_reasons_name_themselves_and_their_scan_chunk() {
    assert_eq!(FlushReason::ValueSampleLimit.as_str(), "value_sample_limit");
    assert_eq!(FlushReason::DocumentChunkLimit.as_str(), "document_chunk_limit");
    assert_eq!(
        scan_chunk_reason_for_flush(FlushReason::DocumentChunkLimit),
        ScanChunkReason::PreFlush
    );
    assert_eq!(field_source_path("$.items[0]", "id"), "$.items[0].id");
}

#[test]
fn touched_sample_keys_are_distinct_and_ascending() {
    let mut driver = run_documents(
        root_index(),
        &[r#"{"id":1}"#, r#"{"id":2}"#, r#"{"name":"x"}"#],
    );
    let chunk = driver.run.drain_pending_chunk();
    let keys = TouchedSampleKeys::from_chunk(&chunk);
    assert!(!keys.object_priority.is_empty());
    assert!(keys
        .object_priority
        .windows(2)
        .all(|pair| (pair[0].scope, &pair[0].key) < (pair[1].scope, &pair[1].key)));
    let mut expected: Vec<(SampleScope, String)> = chunk
        .object_samples
        .iter()
        .filter(|row| row.sample_kind == ObjectSampleKind::PrioritySample)
        .map(|row| (row.sample_scope, row.sample_key.clone()))
        .collect();
    expected.sort();
    expected.dedup();
    let found: Vec<(SampleScope, String)> =
        keys.object_priority.iter().map(|key| (key.scope, key.key.clone())).collect();
    assert_eq!(found, expected);
    let mut fields: Vec<String> = chunk
        .value_samples
        .iter()
        .filter(|row| row.sample_kind == ValueSampleKind::PrioritySample)
        .map(|row| row.field_profile_id.clone())
        .collect();
    fields.sort();
    fields.dedup();
    assert_eq!(fields.len(), 2);
    let found_fields: Vec<String> = keys.value_priority_fields.iter().map(|row| row.text.clone()).collect();
    assert_eq!(found_fields, fields);
    assert!(keys.heavy_hitter_context.is_empty());
}

#[test]
fn stored_integers_and_limits() {
    assert_eq!(as_i64(42), 42);
    assert_eq!(bool_i64(true), 1);
    assert_eq!(bool_i64(false), 0);
    let limits = ObjectSamplePriorityLimits::from_sampling(&config().sampling);
    assert_eq!(limits.limit_for(SampleScope::TypeSet), config().sampling.type_set_priority_limit);
    assert_eq!(limits.limit_for(SampleScope::CanonicalPath), config().sampling.canonical_priority_limit);
    assert!(ProfileChunk::new().is_empty());
}

#[test]
fn small_chunks_ask_for_flushes() {
    let mut small = config();
    small.flush.chunk_shape_rows = 1;
    let mut driver = Driver {
        run: ProfileRunVisitor::new(small, RefsResolver::new(root_index()), Vec::new()),
        flushes: Vec::new(),
    };
    scan_json_text(r#"{"id":1}"#, &mut driver).unwrap();
    assert_eq!(driver.flushes, vec![FlushReason::DocumentChunkLimit, FlushReason::DocumentChunkLimit]);

    let mut values = config();
    values.flush.chunk_value_sample_rows = 2;
    let mut run = ProfileRunVisitor::new(values, RefsResolver::new(root_index()), Vec::new());
    run.count_document();
    assert_eq!(run.document_flush(), None);
    run.apply_pending_value_sample_delta(profile_json_refs::value::sample::PendingRowDelta { added: 3, removed: 1 });
    assert_eq!(run.document_flush(), Some(FlushReason::ValueSampleLimit));
    assert!(run.has_pending_sample_chunk());
}

#[test]
fn each_field_is_profiled_with_its_own_value() {
    let mut driver = run_documents(root_index(), &[r#"{"id":7,"name":"Ada","tag":null}"#]);
    let outputs = driver.run.finish_field_values();
    assert_eq!(outputs.len(), 3);
    let mut texts: Vec<Option<String>> = outputs
        .iter()
        .map(|output| output.field_values[0].value_text.clone())
        .collect();
    texts.sort();
    assert_eq!(texts, vec![Some("7".to_string()), Some("Ada".to_string()), Some("null".to_string())]);
    let nulls: u64 = outputs.iter().map(|output| output.summary.null_count).sum();
    assert_eq!(nulls, 1);
}

#[test]
fn the_run_state_scanned_directly_counts_and_keeps_its_flush_request() {
    let mut small = config();
    small.flush.chunk_shape_rows = 1;
    let mut run = ProfileRunVisitor::new(small, RefsResolver::new(root_index()), Vec::new());
    assert_eq!(run.take_flush_request(), None);

    scan_json_text(r#"{"id":1,"tags":["a",2]}"#, &mut run).unwrap();

    let counters = run.counters();
    assert_eq!(counters.total_document_count, 1);
    assert_eq!(counters.total_object_count, 1);
    assert_eq!(counters.total_array_count, 1);
    assert_eq!(counters.total_scalar_count, 3);
    assert_eq!(run.take_flush_request(), Some(FlushReason::DocumentChunkLimit));
    assert_eq!(run.take_flush_request(), None);
}

#[test]
fn a_line_that_does_not_parse_leaves_the_run_state_untouched() {
    let mut run = ProfileRunVisitor::new(config(), RefsResolver::new(root_index()), Vec::new());

    let result = scan_jsonl_line(3, "{\"id\":", &mut run);

    assert!(matches!(result, Err(ProfileError::Json(_))));
    assert_eq!(run.counters().total_document_count, 0);
    assert_eq!(run.counters().total_object_count, 0);
}
