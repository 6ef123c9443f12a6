use profile_json_refs::config::{
    FlushConfig, InputFormat, ProfileConfig, SamplingConfig, ValueProfileConfig,
};
use profile_json_refs::field::accumulator::FieldValueAccumulator;
use profile_json_refs::util::json_value::JsonValue;
use profile_json_refs::value::sample::{ValueSampleAccumulator, ValueSampleKind, sample_priority};

fn profile_config() -> ProfileConfig {
    ProfileConfig {
        input_file: "input.json".to_string(),
        refs_sqlite: "refs/schemas.sqlite".to_string(),
        out_sqlite: "profile.sqlite".to_string(),
        input_format: InputFormat::Json,
        quiet: false,
        perf_log: false,
        perf_log_file: None,
        perf_log_dbstat: false,
        sampling: SamplingConfig {
            value_priority_limit_per_field_profile: 2,
            heavy_hitter_context_sample_limit: 0,
            ..SamplingConfig::default()
        },
        value_profile: ValueProfileConfig {
            exact_distinct_threshold: 2,
            heavy_hitter_limit: 2,
            ..ValueProfileConfig::default()
        },
        flush: FlushConfig::default(),
    }
}

fn text(value: &str) -> JsonValue {
    JsonValue::String(value.to_string())
}

fn parent_of(value: JsonValue) -> Vec<(String, JsonValue)> {
    vec![("field".to_string(), value)]
}

#[test]
fn value_samples_capture_first_seen_and_first_non_empty() {
    let config = profile_config();
    let mut accumulator = ValueSampleAccumulator::new(
        config.sampling.value_priority_limit_per_field_profile,
        config.sampling.heavy_hitter_context_sample_limit,
    );

    let null_parent = parent_of(JsonValue::Null);
    accumulator.observe(0, "$.field", "field-a", &JsonValue::Null, &null_parent, &config);
    let empty_parent = parent_of(text(""));
    accumulator.observe(1, "$.field", "field-a", &text(""), &empty_parent, &config);

    let rows = accumulator.rows();
    let first_seen = rows
        .iter()
        .find(|row| row.sample_kind == ValueSampleKind::FirstSeen)
        .unwrap();
    let first_non_empty = rows
        .iter()
        .find(|row| row.sample_kind == ValueSampleKind::FirstNonEmpty)
        .unwrap();

    assert_eq!(first_seen.document_index, 0);
    assert_eq!(first_seen.value_json.as_deref(), Some("null"));
    assert_eq!(first_non_empty.document_index, 1);
    assert_eq!(first_non_empty.value_json.as_deref(), Some(r#""""#));
}

#[test]
fn value_priority_samples_are_bounded() {
    let config = profile_config();
    let mut accumulator = ValueSampleAccumulator::new(
        config.sampling.value_priority_limit_per_field_profile,
        config.sampling.heavy_hitter_context_sample_limit,
    );

    for index in 0..20 {
        let value = text(&format!("value-{index}"));
        let parent = parent_of(text(&format!("value-{index}")));
        accumulator.observe(index, "$.field", "field-a", &value, &parent, &config);
    }

    let rows = accumulator.rows();
    let priority_count = rows
        .iter()
        .filter(|row| row.sample_kind == ValueSampleKind::PrioritySample)
        .count();
    assert_eq!(
        priority_count,
        config.sampling.value_priority_limit_per_field_profile
    );
}

#[test]
fn value_sample_observation_reports_pending_row_delta() {
    let config = profile_config();
    let mut accumulator = ValueSampleAccumulator::new(1, 0);
    let parent = parent_of(text("alpha"));
    let value = text("alpha");

    let delta = accumulator.observe(0, "$.field", "field-a", &value, &parent, &config);

    assert_eq!(delta.added, accumulator.pending_row_count());
    assert_eq!(delta.removed, 0);
    assert!(delta.net() > 0);
}

#[test]
fn value_sample_priority_replacement_does_not_grow_pending_count() {
    let config = profile_config();
    let mut accumulator = ValueSampleAccumulator::new(1, 0);
    let mut previous_priority_sample_id = None;

    for index in 0..10_000 {
        let value = text(&format!("value-{index}"));
        let parent = parent_of(text(&format!("value-{index}")));
        let before_count = accumulator.pending_row_count();
        let delta = accumulator.observe(
            index,
            &format!("$.field{index}"),
            "field-a",
            &value,
            &parent,
            &config,
        );
        let after_count = accumulator.pending_row_count();
        let priority_sample_id = accumulator
            .rows()
            .into_iter()
            .find(|row| row.sample_kind == ValueSampleKind::PrioritySample)
            .map(|row| row.value_sample_id);

        if index > 0 && priority_sample_id != previous_priority_sample_id {
            assert_eq!(after_count, before_count);
            assert_eq!(delta.net(), 0);
            return;
        }

        previous_priority_sample_id = priority_sample_id;
    }

    panic!("expected deterministic priority replacement within fixture search");
}

#[test]
fn value_sample_drain_empties_the_pending_rows() {
    let config = profile_config();
    let mut accumulator = ValueSampleAccumulator::new(2, 0);
    let parent = parent_of(text("alpha"));
    let delta = accumulator.observe(0, "$.field", "field-a", &text("alpha"), &parent, &config);
    assert_eq!(delta.added, 3);
    let drained = accumulator.drain_rows();
    assert_eq!(drained.len(), delta.added);
    assert_eq!(accumulator.pending_row_count(), 0);
    assert!(accumulator.rows().is_empty());
    let priority = drained
        .iter()
        .find(|row| row.sample_kind == ValueSampleKind::PrioritySample)
        .unwrap();
    assert_eq!(priority.sample_priority, Some(sample_priority("field-a", 0, "$.field")));
    assert_eq!(priority.sample_rank, Some(1));
    assert_eq!(priority.parent_object_json.as_deref(), Some(r#"{"field":"alpha"}"#));
}

#[test]
fn value_sample_priority_is_deterministic_and_input_sensitive() {
    assert_eq!(sample_priority("field-a", 3, "$.x"), sample_priority("field-a", 3, "$.x"));
    assert_ne!(sample_priority("field-a", 3, "$.x"), sample_priority("field-a", 4, "$.x"));
    assert!(sample_priority("field-b", 1, "$.y") <= i64::MAX as u64);
}

#[test]
fn field_value_observation_stats_match_pending_sample_rows_and_drain() {
    let config = profile_config();
    let mut accumulator = FieldValueAccumulator::new("field-a".to_string(), &config);
    let parent = parent_of(text("alpha"));
    let value = text("alpha");

    let stats = accumulator.observe(0, "$.field", &value, &parent, &config);

    assert_eq!(stats.pending_value_sample_delta.added, accumulator.pending_value_sample_count());
    assert_eq!(stats.pending_value_sample_delta.removed, 0);
    assert_eq!(accumulator.drain_value_sample_rows().len(), stats.pending_value_sample_delta.added);
    assert_eq!(accumulator.pending_value_sample_count(), 0);
}

#[test]
fn heavy_hitter_context_samples_are_not_emitted_in_rc2() {
    let mut config = profile_config();
    config.sampling.heavy_hitter_context_sample_limit = 4;
    let mut accumulator = FieldValueAccumulator::new("field-a".to_string(), &config);

    for index in 0..10 {
        let parent = parent_of(text("hot"));
        accumulator.observe(index, "$.field", &text("hot"), &parent, &config);
    }

    let rows = accumulator.finish(&config).value_samples;
    let context_count = rows
        .iter()
        .filter(|row| row.sample_kind == ValueSampleKind::HeavyHitterContext)
        .count();
    assert_eq!(context_count, 0);
}

#[test]
fn waiting_value_rows_hold_each_kind_as_often_as_the_observations_allow() {
    let config = profile_config();
    let mut accumulator = ValueSampleAccumulator::new(3, 4);
    for index in 0..5u64 {
        let make = || if index == 0 { JsonValue::Null } else { text(&format!("v{index}")) };
        let value = make();
        let parent = parent_of(make());
        accumulator.observe(index, "$.field", "field-a", &value, &parent, &config);
    }
    let rows = accumulator.rows();
    let count = |kind: ValueSampleKind| rows.iter().filter(|row| row.sample_kind == kind).count();
    assert_eq!(count(ValueSampleKind::FirstSeen), 1);
    assert_eq!(count(ValueSampleKind::FirstNonEmpty), 1);
    assert_eq!(count(ValueSampleKind::PrioritySample), 3);
    assert_eq!(count(ValueSampleKind::HeavyHitterContext), 0);
    let sampled: Vec<_> = rows.iter().filter(|row| row.sample_kind == ValueSampleKind::PrioritySample).collect();
    for (rank, row) in sampled.iter().enumerate() {
        assert_eq!(row.sample_rank, Some(rank as u32 + 1));
    }
    for pair in sampled.windows(2) {
        assert!(pair[0].sample_priority.unwrap() <= pair[1].sample_priority.unwrap());
    }
    assert_eq!(rows.len(), accumulator.pending_row_count());
}
