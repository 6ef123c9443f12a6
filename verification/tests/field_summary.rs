use profile_json_refs::config::{
    FlushConfig, InputFormat, ProfileConfig, SamplingConfig, ValueProfileConfig,
};
use profile_json_refs::field::accumulator::FieldAccumulator;
use profile_json_refs::field::id::field_profile_id;
use profile_json_refs::field::summary::{DistinctCountMethod, FieldSummary, update_summary};
use profile_json_refs::util::json_type::JsonType;
use profile_json_refs::util::json_value::{JsonNumber, JsonValue};

fn profile_config() -> ProfileConfig {
    ProfileConfig {
        input_file: "input.json".to_string(),
        refs_sqlite: "refs/schemas.sqlite".to_string(),
        out_sqlite: "profile.sqlite".to_string(),
        input_format: InputFormat::Json,
        quiet: false,
        perf_log: false,
        perf_log_file: None,
        perf_log_dbstat: false,
        sampling: SamplingConfig::default(),
        value_profile: ValueProfileConfig::default(),
        flush: FlushConfig::default(),
    }
}

fn members() -> Vec<(String, JsonValue)> {
    vec![
        ("empty_array".to_string(), JsonValue::Array(Vec::new())),
        ("empty_object".to_string(), JsonValue::Object(Vec::new())),
        ("empty_string".to_string(), JsonValue::String(String::new())),
        ("nullable".to_string(), JsonValue::Null),
    ]
}

#[test]
fn field_summary_counts_null_empty_object_empty_array_and_empty_string() {
    let mut summary = FieldSummary::new("field-a".to_string());

    update_summary(&mut summary, &JsonValue::Null);
    update_summary(&mut summary, &JsonValue::Object(Vec::new()));
    update_summary(&mut summary, &JsonValue::Array(Vec::new()));
    update_summary(&mut summary, &JsonValue::String(String::new()));

    assert_eq!(summary.profiled_count, 4);
    assert_eq!(summary.null_count, 1);
    assert_eq!(summary.non_null_count, 3);
    assert_eq!(summary.empty_object_count, 1);
    assert_eq!(summary.empty_array_count, 1);
    assert_eq!(summary.empty_string_count, 1);
    assert_eq!(
        summary.distinct_count_method,
        DistinctCountMethod::Unavailable
    );
}

#[test]
fn field_accumulator_tracks_shape_specific_rows_and_summaries() {
    let mut accumulator = FieldAccumulator::default();
    let config = profile_config();
    let object = members();
    let parent = JsonValue::Object(members());

    accumulator.observe_object_fields(7, "$", "shape-a", &object, &parent, &config);

    let rows = accumulator.shape_field_rows();
    assert_eq!(rows.len(), 4);

    let nullable_id = field_profile_id("shape-a", "nullable", JsonType::Null);
    let nullable = rows
        .iter()
        .find(|row| row.field_profile_id == nullable_id)
        .unwrap();
    assert_eq!(nullable.observed_count, 1);
    assert_eq!(nullable.null_count, 1);

    let summaries = accumulator.field_summaries();
    let empty_string = summaries
        .iter()
        .find(|summary| {
            summary.field_profile_id
                == field_profile_id("shape-a", "empty_string", JsonType::String)
        })
        .unwrap();
    assert_eq!(empty_string.profiled_count, 1);
    assert_eq!(empty_string.non_null_count, 1);
    assert_eq!(empty_string.empty_string_count, 1);
}

#[test]
fn field_profile_id_separates_shape_and_observed_type_contexts() {
    let shape_a_string = field_profile_id("shape-a", "status", JsonType::String);
    let shape_b_string = field_profile_id("shape-b", "status", JsonType::String);
    let shape_a_null = field_profile_id("shape-a", "status", JsonType::Null);

    assert_ne!(shape_a_string, shape_b_string);
    assert_ne!(shape_a_string, shape_a_null);
}

#[test]
fn field_accumulator_counts_repeated_objects_per_field_profile() {
    let mut accumulator = FieldAccumulator::new();
    let config = profile_config();
    let number = JsonValue::Number(JsonNumber { text: "1".to_string(), is_integer: true });
    let first = vec![("id".to_string(), number), ("note".to_string(), JsonValue::Null)];
    let second = vec![
        ("id".to_string(), JsonValue::String("x".to_string())),
        ("note".to_string(), JsonValue::Null),
    ];
    let parent = JsonValue::Null;
    accumulator.observe_object_fields(0, "$", "shape-a", &first, &parent, &config);
    accumulator.observe_object_fields(1, "$", "shape-a", &second, &parent, &config);

    let rows = accumulator.shape_field_rows();
    assert_eq!(rows.len(), 3);
    assert!(rows.windows(2).all(|pair| pair[0].field_profile_id < pair[1].field_profile_id));
    let note = rows
        .iter()
        .find(|row| row.field_profile_id == field_profile_id("shape-a", "note", JsonType::Null))
        .unwrap();
    assert_eq!((note.observed_count, note.null_count), (2, 2));
    let integer_id = field_profile_id("shape-a", "id", JsonType::Integer);
    let integer = rows.iter().find(|row| row.field_profile_id == integer_id).unwrap();
    assert_eq!((integer.observed_count, integer.null_count), (1, 0));
    assert_eq!(integer.field_name, "id");
    assert_eq!(integer.shape_id, "shape-a");

    let summaries = accumulator.field_summaries();
    assert_eq!(summaries.len(), 3);
    let note_summary = summaries
        .iter()
        .find(|summary| summary.field_profile_id == note.field_profile_id)
        .unwrap();
    assert_eq!((note_summary.profiled_count, note_summary.null_count, note_summary.non_null_count), (2, 2, 0));
}
