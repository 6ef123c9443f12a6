use profile_json_refs::cli::CliArgs;
use profile_json_refs::config::ProfileConfig;
use profile_json_refs::field::accumulator::FieldValueAccumulator;
use profile_json_refs::field::summary::{DistinctAlgorithm, DistinctCountMethod};
use profile_json_refs::util::json_type::JsonType;
use profile_json_refs::util::json_value::{JsonNumber, JsonValue};
use profile_json_refs::value::exact_counter::{CountMethod, ValueSource};
use profile_json_refs::value::sample::ValueSampleKind;

fn config() -> ProfileConfig {
    let args = CliArgs {
        input_file: "data.json".to_string(),
        refs: None,
        out: None,
        jsonl: false,
        config: None,
        shape_sample_limit: None,
        value_sample_limit: None,
        heavy_hitter_limit: None,
        hll_precision: None,
        value_text_limit: None,
        perf_log: false,
        perf_log_file: None,
        perf_log_dbstat: false,
        quiet: false,
    };
    ProfileConfig::from_cli(args, None).unwrap()
}

fn text(value: &str) -> JsonValue {
    JsonValue::String(value.to_string())
}

fn integer(value: &str) -> JsonValue {
    JsonValue::Number(JsonNumber { text: value.to_string(), is_integer: true })
}

fn parent_with(value: JsonValue) -> Vec<(String, JsonValue)> {
    vec![("field".to_string(), value)]
}

#[test]
fn small_distribution_is_counted_exactly() {
    let config = config();
    let mut accumulator = FieldValueAccumulator::new("field-status".to_string(), &config);
    for (index, value) in ["A", "B", "A", "C"].iter().enumerate() {
        accumulator.observe(index as u64, "$.status", &text(value), &parent_with(text(value)), &config);
    }
    let output = accumulator.finish(&config);
    assert_eq!(output.summary.field_profile_id, "field-status");
    assert_eq!(output.summary.profiled_count, 4);
    assert_eq!(output.summary.non_null_count, 4);
    assert_eq!(output.summary.distinct_count, Some(3));
    assert_eq!(output.summary.distinct_count_method, DistinctCountMethod::Exact);
    assert_eq!(output.summary.distinct_algorithm, None);
    assert_eq!(output.summary.stored_value_count, 3);
    assert!(output.distinct_sketch.is_none());
    assert_eq!(output.field_values.len(), 3);
    for row in &output.field_values {
        assert_eq!(row.value_source, ValueSource::ExactFull);
        assert_eq!(row.count_method, CountMethod::Exact);
        assert!(row.is_complete_distribution);
        assert_eq!(row.value_type, JsonType::String);
    }
    let a = output.field_values.iter().find(|row| row.value_text.as_deref() == Some("A")).unwrap();
    assert_eq!(a.count, Some(2));
    assert_eq!(a.rank, Some(1));
}

#[test]
fn wide_distribution_falls_back_to_sketch_and_heavy_hitters() {
    let mut config = config();
    config.value_profile.exact_distinct_threshold = 3;
    config.value_profile.heavy_hitter_limit = 2;
    let mut accumulator = FieldValueAccumulator::new("field-id".to_string(), &config);
    let values = ["2", "2", "2", "2", "1", "3", "4", "5"];
    for (index, raw) in values.iter().enumerate() {
        accumulator.observe(index as u64, "$.id", &integer(raw), &parent_with(integer(raw)), &config);
    }
    let output = accumulator.finish(&config);
    assert_eq!(output.summary.profiled_count, 8);
    assert_eq!(output.summary.distinct_count, None);
    assert_eq!(output.summary.distinct_count_method, DistinctCountMethod::Approximate);
    assert_eq!(output.summary.distinct_algorithm, Some(DistinctAlgorithm::HyperLogLog));
    assert_eq!(output.summary.distinct_precision, Some(14));
    let sketch = output.distinct_sketch.as_ref().unwrap();
    assert_eq!(sketch.precision(), 14);
    assert!(sketch.registers().iter().filter(|register| **register > 0).count() >= 1);
    assert!(output.field_values.len() <= 2);
    assert_eq!(output.summary.stored_value_count, output.field_values.len() as u64);
    for row in &output.field_values {
        assert_eq!(row.value_source, ValueSource::HeavyHitter);
        assert_eq!(row.count_method, CountMethod::Approximate);
        assert!(!row.is_complete_distribution);
        assert_eq!(row.value_type, JsonType::Integer);
    }
    // "2" leads with four counts; ties go to the smaller key.
    assert_eq!(output.field_values[0].value_text.as_deref(), Some("2"));
    assert_eq!(output.field_values[0].count, Some(4));
    assert_eq!(output.field_values[0].rank, Some(1));
}

#[test]
fn value_samples_are_taken_and_drained() {
    let config = config();
    let mut accumulator = FieldValueAccumulator::new("field-code".to_string(), &config);
    let delta = accumulator.observe(0, "$.code", &text(""), &parent_with(text("")), &config).pending_value_sample_delta;
    assert_eq!(delta.added, 3);
    assert_eq!(delta.removed, 0);
    assert_eq!(accumulator.pending_value_sample_count(), 3);
    let rows = accumulator.drain_value_sample_rows();
    assert_eq!(rows.len(), 3);
    assert!(rows.iter().any(|row| row.sample_kind == ValueSampleKind::FirstNonEmpty && row.value_json.as_deref() == Some("\"\"")));
    assert_eq!(accumulator.pending_value_sample_count(), 0);
    let output = accumulator.finish(&config);
    assert_eq!(output.summary.empty_string_count, 1);
    assert!(output.value_samples.is_empty());
}
