use std::collections::HashSet;

use profile_json_refs::config::SamplingConfig;
use profile_json_refs::refs::resolver::ResolvedObjectContext;
use profile_json_refs::scan::path::SourcePath;
use profile_json_refs::shape::accumulator::ShapeAccumulator;
use profile_json_refs::shape::sample::{ObjectSampleKind, SampleScope, object_sample_key, sample_priority};
use profile_json_refs::util::json_value::{JsonNumber, JsonValue};
use serde_json::Value;

fn to_json(value: &Value) -> JsonValue {
    match value {
        Value::Null => JsonValue::Null,
        Value::Bool(flag) => JsonValue::Bool(*flag),
        Value::Number(number) => JsonValue::Number(JsonNumber {
            text: number.to_string(),
            is_integer: number.is_i64() || number.is_u64(),
        }),
        Value::String(text) => JsonValue::String(text.clone()),
        Value::Array(items) => JsonValue::Array(items.iter().map(to_json).collect()),
        Value::Object(map) => {
            JsonValue::Object(map.iter().map(|(key, item)| (key.clone(), to_json(item))).collect())
        }
    }
}

fn object(raw: &str) -> Vec<(String, JsonValue)> {
    match to_json(&serde_json::from_str::<Value>(raw).unwrap()) {
        JsonValue::Object(object) => object,
        _ => panic!("test fixture must be a JSON object"),
    }
}

fn source_path(raw: &str) -> SourcePath {
    let mut path = SourcePath::root();
    for part in raw
        .strip_prefix("$.items")
        .expect("test path should be under $.items")
        .split('[')
        .skip(1)
    {
        let index = part.trim_end_matches(']').parse::<usize>().unwrap();
        path.push_field("items");
        path.push_index(index);
    }
    path
}

fn context() -> ResolvedObjectContext {
    ResolvedObjectContext {
        canonical_path: "$.items[]".to_string(),
        site_path: Some("$.items[]".to_string()),
        schema_path: "#/items".to_string(),
        resolved: true,
    }
}

#[test]
fn every_object_sample_scope_has_first_seen() {
    let mut accumulator = ShapeAccumulator::default();
    let path = source_path("$.items[0]");
    let object = object(r#"{"id":1,"type":"A"}"#);

    accumulator
        .observe_object(0, &path, &context(), &object, &SamplingConfig::default())
        .unwrap();

    let rows = accumulator.drain_object_sample_rows();
    let first_seen: HashSet<(SampleScope, String)> = rows
        .iter()
        .filter(|row| row.sample_kind == ObjectSampleKind::FirstSeen)
        .map(|row| (row.sample_scope, row.sample_key.clone()))
        .collect();

    let type_set_row = accumulator
        .shape_rows()
        .into_iter()
        .find(|row| row.canonical_path == "$.items[]")
        .unwrap();
    for scope in [
        SampleScope::CanonicalPath,
        SampleScope::SitePath,
        SampleScope::FieldSet,
        SampleScope::TypeSet,
    ] {
        let key = object_sample_key(
            scope,
            "$.items[]",
            Some("$.items[]"),
            Some(&type_set_row.field_set_hash),
            Some(&type_set_row.type_set_hash),
        );
        assert!(first_seen.contains(&(scope, key)));
    }
}

#[test]
fn empty_first_seen_does_not_block_later_first_non_empty() {
    let mut accumulator = ShapeAccumulator::default();
    let config = SamplingConfig::default();
    let empty_path = source_path("$.items[0]");
    let non_empty_path = source_path("$.items[1]");
    let empty = object("{}");
    let non_empty = object(r#"{"id":1}"#);

    accumulator
        .observe_object(0, &empty_path, &context(), &empty, &config)
        .unwrap();
    accumulator
        .observe_object(1, &non_empty_path, &context(), &non_empty, &config)
        .unwrap();

    let rows = accumulator.drain_object_sample_rows();
    let canonical_key = "$.items[]";
    let first_seen = rows
        .iter()
        .find(|row| {
            row.sample_scope == SampleScope::CanonicalPath
                && row.sample_key == canonical_key
                && row.sample_kind == ObjectSampleKind::FirstSeen
        })
        .unwrap();
    let first_non_empty = rows
        .iter()
        .find(|row| {
            row.sample_scope == SampleScope::CanonicalPath
                && row.sample_key == canonical_key
                && row.sample_kind == ObjectSampleKind::FirstNonEmpty
        })
        .unwrap();

    assert_eq!(first_seen.document_index, 0);
    assert_eq!(first_seen.sample_json, "{}");
    assert_eq!(first_non_empty.document_index, 1);
    assert_eq!(first_non_empty.sample_json, r#"{"id":1}"#);
}

#[test]
fn priority_object_samples_are_bounded_per_scope_and_key_on_flush() {
    let mut accumulator = ShapeAccumulator::default();
    let config = SamplingConfig {
        canonical_priority_limit: 1,
        site_priority_limit: 1,
        field_set_priority_limit: 1,
        type_set_priority_limit: 2,
        ..SamplingConfig::default()
    };

    for index in 0..20 {
        let mut path = SourcePath::root();
        path.push_field("items");
        path.push_index(index);
        let object = object(&format!(r#"{{"id":{index},"type":"A"}}"#));
        accumulator
            .observe_object(index as u64, &path, &context(), &object, &config)
            .unwrap();
    }

    let rows = accumulator.drain_object_sample_rows();
    let priority_rows: Vec<_> = rows
        .iter()
        .filter(|row| row.sample_kind == ObjectSampleKind::PrioritySample)
        .collect();

    let counts_for_scope = |scope| {
        priority_rows
            .iter()
            .filter(|row| row.sample_scope == scope)
            .count()
    };

    assert_eq!(counts_for_scope(SampleScope::CanonicalPath), 1);
    assert_eq!(counts_for_scope(SampleScope::SitePath), 1);
    assert_eq!(counts_for_scope(SampleScope::FieldSet), 1);
    assert_eq!(counts_for_scope(SampleScope::TypeSet), 2);
}

#[test]
fn first_seen_samples_are_taken_once_per_scope_key_between_drains() {
    let mut accumulator = ShapeAccumulator::new();
    let config = SamplingConfig::default();
    for index in 0..3usize {
        let path = source_path(&format!("$.items[{index}]"));
        let object = object(r#"{"id":1}"#);
        accumulator.observe_object(index as u64, &path, &context(), &object, &config).unwrap();
    }
    assert!(accumulator.pending_object_sample_count() > 0);
    let rows = accumulator.drain_object_sample_rows();
    let first_seen: Vec<_> = rows
        .iter()
        .filter(|row| row.sample_kind == ObjectSampleKind::FirstSeen)
        .collect();
    assert_eq!(first_seen.len(), 4);
    assert!(first_seen.iter().all(|row| row.document_index == 0 && row.source_path == "$.items[0]"));

    let shapes = accumulator.shape_rows();
    assert_eq!(shapes.len(), 1);
    assert_eq!(shapes[0].object_count, 3);
    assert_eq!(shapes[0].first_seen_document_index, Some(0));
    assert_eq!(shapes[0].first_seen_path.as_deref(), Some("$.items[0]"));

    accumulator.observe_object(3, &source_path("$.items[3]"), &context(), &object(r#"{"id":2}"#), &config).unwrap();
    let later = accumulator.drain_object_sample_rows();
    let later_first_seen: Vec<_> = later
        .iter()
        .filter(|row| row.sample_kind == ObjectSampleKind::FirstSeen)
        .collect();
    assert_eq!(later_first_seen.len(), 4);
    assert!(later_first_seen.iter().all(|row| row.document_index == 3));
}

#[test]
fn source_path_renders_indexes_and_canonical_guess() {
    let mut path = SourcePath::root();
    assert_eq!(path.as_str(), "$");
    path.push_field("items");
    path.push_index(12);
    path.push_field("id");
    assert_eq!(path.as_str(), "$.items[12].id");
    assert_eq!(path.to_canonical_guess(), "$.items[].id");
    path.pop();
    assert_eq!(path.as_str(), "$.items[12]");
    path.pop();
    path.pop();
    path.pop();
    assert_eq!(path.as_str(), "$");
}

#[test]
fn priority_object_samples_keep_the_smallest_priorities() {
    let mut accumulator = ShapeAccumulator::new();
    let config = SamplingConfig {
        canonical_priority_limit: 2,
        ..SamplingConfig::default()
    };
    let key = object_sample_key(SampleScope::CanonicalPath, "$.items[]", Some("$.items[]"), None, None);
    let mut priorities = Vec::new();
    for index in 0..12usize {
        let path = source_path(&format!("$.items[{index}]"));
        priorities.push(sample_priority(SampleScope::CanonicalPath, &key, index as u64, &path.as_str()));
        accumulator
            .observe_object(index as u64, &path, &context(), &object(r#"{"id":1}"#), &config)
            .unwrap();
    }
    priorities.sort();
    let rows = accumulator.drain_object_sample_rows();
    let kept: Vec<(Option<u64>, Option<u32>)> = rows
        .iter()
        .filter(|row| {
            row.sample_kind == ObjectSampleKind::PrioritySample && row.sample_scope == SampleScope::CanonicalPath
        })
        .map(|row| (row.sample_priority, row.sample_rank))
        .collect();
    assert_eq!(kept, vec![(Some(priorities[0]), Some(1)), (Some(priorities[1]), Some(2))]);
}

#[test]
fn shape_counts_add_up_to_the_objects_observed_since_the_drain() {
    let mut accumulator = ShapeAccumulator::new();
    let config = SamplingConfig::default();
    let raws = [r#"{"id":1}"#, r#"{"name":"x"}"#, r#"{"id":2}"#, r#"{"id":3,"name":"y"}"#, r#"{"name":"z"}"#];
    for (index, raw) in raws.iter().enumerate() {
        let path = source_path(&format!("$.items[{index}]"));
        accumulator.observe_object(index as u64, &path, &context(), &object(raw), &config).unwrap();
    }
    let rows = accumulator.drain_shape_rows();
    assert_eq!(rows.len(), 3);
    assert_eq!(rows.iter().map(|row| row.object_count).sum::<u64>(), 5);
    accumulator.observe_object(9, &source_path("$.items[9]"), &context(), &object(r#"{"id":4}"#), &config).unwrap();
    let again = accumulator.drain_shape_rows();
    assert_eq!(again.iter().map(|row| row.object_count).sum::<u64>(), 1);
}

#[test]
fn drained_shape_rows_hold_one_row_per_shape_id_in_ascending_order() {
    let mut accumulator = ShapeAccumulator::new();
    let config = SamplingConfig::default();
    let raws = [r#"{"id":1}"#, r#"{"name":"x"}"#, r#"{"id":2}"#, r#"{"name":"y"}"#, r#"{"id":"3"}"#];
    for (index, raw) in raws.iter().enumerate() {
        let path = source_path(&format!("$.items[{index}]"));
        accumulator.observe_object(index as u64, &path, &context(), &object(raw), &config).unwrap();
    }
    let rows = accumulator.drain_shape_rows();
    assert_eq!(rows.len(), 3);
    for pair in rows.windows(2) {
        assert!(pair[0].shape_id < pair[1].shape_id);
    }
    assert_eq!(accumulator.shape_row_count(), 0);
}
