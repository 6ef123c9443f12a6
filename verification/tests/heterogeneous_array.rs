use profile_json_refs::error::ProfileError;
use profile_json_refs::scan::path::SourcePath;
use profile_json_refs::scan::visitor::{ScanVisitor, scan_document};
use profile_json_refs::util::json_value::{JsonNumber, JsonValue};
use serde_json::Value;

fn to_json(value: &Value) -> JsonValue {
    match value {
        Value::Null => JsonValue::Null,
        Value::Bool(flag) => JsonValue::Bool(*flag),
        Value::Number(number) => JsonValue::Number(JsonNumber {
            text: number.to_string(),
            is_integer: number.is_i64() || number.is_u64(),
        }),
        Value::String(text) => JsonValue::String(text.clone()),
        Value::Array(items) => JsonValue::Array(items.iter().map(to_json).collect()),
        Value::Object(map) => {
            JsonValue::Object(map.iter().map(|(key, item)| (key.clone(), to_json(item))).collect())
        }
    }
}

#[derive(Default)]
struct ObjectPathVisitor {
    object_paths: Vec<String>,
}

impl ScanVisitor for ObjectPathVisitor {
    fn begin_document(&mut self, _document_index: u64) -> Result<(), ProfileError> {
        Ok(())
    }

    fn end_document(&mut self, _document_index: u64) -> Result<(), ProfileError> {
        Ok(())
    }

    fn visit_object(
        &mut self,
        _document_index: u64,
        path: &SourcePath,
        _object: &Vec<(String, JsonValue)>,
    ) -> Result<(), ProfileError> {
        self.object_paths.push(path.as_str());
        Ok(())
    }

    fn visit_array(
        &mut self,
        _document_index: u64,
        _path: &SourcePath,
        _array: &Vec<JsonValue>,
    ) -> Result<(), ProfileError> {
        Ok(())
    }

    fn visit_scalar(
        &mut self,
        _document_index: u64,
        _path: &SourcePath,
        _value: &JsonValue,
    ) -> Result<(), ProfileError> {
        Ok(())
    }
}

#[test]
fn object_elements_inside_arrays_emit_object_events() {
    let input = br#"{"items":[{"id":1},{"error":"invalid"}]}"#;
    let mut visitor = ObjectPathVisitor::default();

    let value: Value = serde_json::from_slice(&input[..]).unwrap();
    scan_document(0, &to_json(&value), &mut visitor).unwrap();

    assert!(visitor.object_paths.contains(&"$".to_string()));
    assert!(visitor.object_paths.contains(&"$.items[0]".to_string()));
    assert!(visitor.object_paths.contains(&"$.items[1]".to_string()));
}
