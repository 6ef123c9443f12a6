use profile_json_refs::shape::id::compute_shape_facts;
use profile_json_refs::util::json_value::{JsonNumber, JsonValue};
use serde_json::Value;

fn to_json(value: &Value) -> JsonValue {
    match value {
        Value::Null => JsonValue::Null,
        Value::Bool(flag) => JsonValue::Bool(*flag),
        Value::Number(number) => JsonValue::Number(JsonNumber {
            text: number.to_string(),
            is_integer: number.is_i64() || number.is_u64(),
        }),
        Value::String(text) => JsonValue::String(text.clone()),
        Value::Array(items) => JsonValue::Array(items.iter().map(to_json).collect()),
        Value::Object(map) => {
            JsonValue::Object(map.iter().map(|(key, item)| (key.clone(), to_json(item))).collect())
        }
    }
}

fn object(raw: &str) -> Vec<(String, JsonValue)> {
    match to_json(&serde_json::from_str::<Value>(raw).unwrap()) {
        JsonValue::Object(object) => object,
        _ => panic!("test fixture must be a JSON object"),
    }
}

#[test]
fn same_shape_input_produces_stable_shape_id() {
    let object = object(r#"{"type":"A","amount":100,"id":1}"#);

    let first = compute_shape_facts("$.items[]", Some("$.items[]"), "#/items", &object);
    let second = compute_shape_facts("$.items[]", Some("$.items[]"), "#/items", &object);

    assert_eq!(first.shape_id, second.shape_id);
    assert_eq!(first.field_set_hash, second.field_set_hash);
    assert_eq!(first.type_set_hash, second.type_set_hash);
    assert_eq!(first.field_set_json, r#"["amount","id","type"]"#);

    let type_pairs: Vec<(String, String)> = serde_json::from_str(&first.type_set_json).unwrap();
    assert_eq!(
        type_pairs,
        vec![
            ("amount".to_string(), "integer".to_string()),
            ("id".to_string(), "integer".to_string()),
            ("type".to_string(), "string".to_string()),
        ]
    );
}

#[test]
fn same_field_set_with_different_type_set_produces_different_shape_id() {
    let integer_amount = object(r#"{"id":1,"type":"A","amount":100}"#);
    let string_amount = object(r#"{"id":2,"type":"A","amount":"100"}"#);

    let integer_shape =
        compute_shape_facts("$.items[]", Some("$.items[]"), "#/items", &integer_amount);
    let string_shape =
        compute_shape_facts("$.items[]", Some("$.items[]"), "#/items", &string_amount);

    assert_eq!(integer_shape.field_set_hash, string_shape.field_set_hash);
    assert_ne!(integer_shape.type_set_hash, string_shape.type_set_hash);
    assert_ne!(integer_shape.shape_id, string_shape.shape_id);
}

#[test]
fn different_field_set_produces_different_shape_id() {
    let amount_object = object(r#"{"id":1,"type":"A","amount":100}"#);
    let error_object = object(r#"{"id":2,"type":"B","error":"invalid"}"#);

    let amount_shape =
        compute_shape_facts("$.items[]", Some("$.items[]"), "#/items", &amount_object);
    let error_shape = compute_shape_facts("$.items[]", Some("$.items[]"), "#/items", &error_object);

    assert_ne!(amount_shape.field_set_hash, error_shape.field_set_hash);
    assert_ne!(amount_shape.shape_id, error_shape.shape_id);
}

#[test]
fn shape_id_ignores_member_order_but_not_context() {
    let stored_forwards = vec![
        ("a".to_string(), JsonValue::Null),
        ("b".to_string(), JsonValue::Bool(true)),
    ];
    let stored_backwards = vec![
        ("b".to_string(), JsonValue::Bool(true)),
        ("a".to_string(), JsonValue::Null),
    ];
    let forwards = compute_shape_facts("$", None, "#", &stored_forwards);
    let backwards = compute_shape_facts("$", None, "#", &stored_backwards);
    assert_eq!(forwards.shape_id, backwards.shape_id);
    assert_eq!(forwards.field_set_json, r#"["a","b"]"#);
    assert_eq!(forwards.type_set_json, r#"[["a","null"],["b","boolean"]]"#);

    let elsewhere = compute_shape_facts("$.other", None, "#", &stored_forwards);
    assert_ne!(forwards.shape_id, elsewhere.shape_id);
    assert_eq!(forwards.field_set_hash, elsewhere.field_set_hash);
}

#[test]
fn shape_id_ignores_member_values_of_the_same_type() {
    let first = vec![("id".to_string(), JsonValue::String("x".to_string())), ("n".to_string(), JsonValue::Bool(true))];
    let second = vec![("n".to_string(), JsonValue::Bool(false)), ("id".to_string(), JsonValue::String("y".to_string()))];
    let a = compute_shape_facts("$", Some("$"), "#", &first);
    let b = compute_shape_facts("$", Some("$"), "#", &second);
    assert_eq!(a.field_set_json, b.field_set_json);
    assert_eq!(a.type_set_hash, b.type_set_hash);
    assert_eq!(a.shape_id, b.shape_id);
}
