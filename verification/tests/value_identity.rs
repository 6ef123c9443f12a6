use profile_json_refs::util::hash::stable_u64;
use profile_json_refs::util::json_value::{JsonNumber, JsonValue};
use profile_json_refs::value::display::value_text;
use profile_json_refs::value::identity::{ValueKey, canonical_json, value_hash, value_key};
use serde_json::Value;

fn to_json(value: &Value) -> JsonValue {
    match value {
        Value::Null => JsonValue::Null,
        Value::Bool(flag) => JsonValue::Bool(*flag),
        Value::Number(number) => JsonValue::Number(JsonNumber {
            text: number.to_string(),
            is_integer: number.is_i64() || number.is_u64(),
        }),
        Value::String(text) => JsonValue::String(text.clone()),
        Value::Array(items) => JsonValue::Array(items.iter().map(to_json).collect()),
        Value::Object(map) => {
            JsonValue::Object(map.iter().map(|(key, item)| (key.clone(), to_json(item))).collect())
        }
    }
}

fn parse(raw: &str) -> JsonValue {
    to_json(&serde_json::from_str::<Value>(raw).unwrap())
}

#[test]
fn value_key_preserves_scalar_type_boundaries() {
    assert_eq!(value_key(&JsonValue::Null), ValueKey::Null);
    assert_eq!(value_key(&parse("true")), ValueKey::Bool(true));
    assert_eq!(value_key(&parse("1")), ValueKey::Integer("1".to_string()));
    assert_eq!(value_key(&parse(r#""1""#)), ValueKey::String("1".to_string()));
    assert_ne!(value_hash(&parse("1")), value_hash(&parse(r#""1""#)));
}

#[test]
fn value_hash_for_objects_is_canonical_by_object_key_order() {
    let first = parse(r#"{"b":2,"a":1}"#);
    let second = parse(r#"{"a":1,"b":2}"#);

    assert_eq!(value_hash(&first), value_hash(&second));
}

#[test]
fn value_text_uses_plain_string_text_and_utf8_truncation() {
    let display = value_text(&parse(r#""abcdef""#), 4);
    assert_eq!(display.text.as_deref(), Some("abcd"));
    assert!(display.truncated);

    let display = value_text(&parse(r#""가나다""#), 4);
    assert_eq!(display.text.as_deref(), Some("가"));
    assert!(display.truncated);
}

#[test]
fn canonical_json_sorts_members_whatever_their_stored_order() {
    let stored_backwards = JsonValue::Object(vec![
        ("b".to_string(), parse("2")),
        ("a".to_string(), parse(r#"[1,{"d":null,"c":true}]"#)),
    ]);
    let stored_forwards = JsonValue::Object(vec![
        ("a".to_string(), parse(r#"[1,{"d":null,"c":true}]"#)),
        ("b".to_string(), parse("2")),
    ]);
    assert_eq!(canonical_json(&stored_backwards), r#"{"a":[1,{"c":true,"d":null}],"b":2}"#);
    assert_eq!(canonical_json(&stored_backwards), canonical_json(&stored_forwards));
    assert_eq!(value_hash(&stored_backwards), value_hash(&stored_forwards));
}

#[test]
fn value_key_separates_integers_from_other_numbers() {
    assert_eq!(value_key(&parse("1.5")), ValueKey::Number("1.5".to_string()));
    assert_ne!(value_hash(&parse("1")), value_hash(&parse("1.0")));
    assert_eq!(value_hash(&parse("7")), value_hash(&parse("7")));
}

#[test]
fn value_text_keeps_short_text_and_renders_non_strings_as_json() {
    let display = value_text(&parse(r#""abc""#), 4);
    assert_eq!(display.text.as_deref(), Some("abc"));
    assert!(!display.truncated);

    let display = value_text(&parse(r#"{"a":[1,2]}"#), 100);
    assert_eq!(display.text.as_deref(), Some(r#"{"a":[1,2]}"#));
    assert!(!display.truncated);

    let display = value_text(&parse(r#""abc""#), 0);
    assert_eq!(display.text.as_deref(), Some(""));
    assert!(display.truncated);
}

#[test]
fn value_key_debug_text_matches_debug_formatting() {
    let keys = vec![
        ValueKey::Null,
        ValueKey::Bool(false),
        ValueKey::Integer("12".to_string()),
        ValueKey::Number("1.5".to_string()),
        ValueKey::String("say \"hi\"\n".to_string()),
        ValueKey::ObjectHash("00ff".to_string()),
        ValueKey::ArrayHash("a1".to_string()),
    ];
    for key in keys {
        assert_eq!(key.debug_text(), format!("{key:?}"));
    }
    assert_eq!(ValueKey::String("a".to_string()).debug_text(), "String(\"a\")");
}

#[test]
fn value_key_hash_is_the_stable_hash_of_its_debug_text() {

    let key = ValueKey::String("x".to_string());
    assert_eq!(key.stable_hash64(), stable_u64(b"String(\"x\")"));
}

#[test]
fn canonical_json_escapes_strings_as_serde_json_does() {
    let value = JsonValue::Object(vec![(
        "k\"ey".to_string(),
        JsonValue::String("a\\b\n\t\u{1}é".to_string()),
    )]);
    assert_eq!(canonical_json(&value), "{\"k\\\"ey\":\"a\\\\b\\n\\t\\u0001é\"}");
    let mut map = serde_json::Map::new();
    map.insert("k\"ey".to_string(), Value::String("a\\b\n\t\u{1}é".to_string()));
    assert_eq!(canonical_json(&value), serde_json::to_string(&Value::Object(map)).unwrap());
}
