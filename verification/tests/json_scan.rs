use profile_json_refs::error::ProfileError;
use profile_json_refs::scan::path::SourcePath;
use profile_json_refs::scan::visitor::ScanVisitor;
use profile_json_refs::util::json_value::JsonValue;

fn scan_json_text(input: &[u8], visitor: &mut impl ScanVisitor) -> Result<(), ProfileError> {
    profile_json_refs::scan::json::scan_json_text(std::str::from_utf8(input).unwrap(), visitor)
}

#[derive(Default)]
struct RecordingVisitor {
    begin_documents: Vec<u64>,
    end_documents: Vec<u64>,
    object_paths: Vec<String>,
    array_paths: Vec<String>,
    scalar_paths: Vec<String>,
}

impl ScanVisitor for RecordingVisitor {
    fn begin_document(&mut self, document_index: u64) -> Result<(), ProfileError> {
        self.begin_documents.push(document_index);
        Ok(())
    }

    fn end_document(&mut self, document_index: u64) -> Result<(), ProfileError> {
        self.end_documents.push(document_index);
        Ok(())
    }

    fn visit_object(
        &mut self,
        _document_index: u64,
        path: &SourcePath,
        _object: &Vec<(String, JsonValue)>,
    ) -> Result<(), ProfileError> {
        self.object_paths.push(path.as_str());
        Ok(())
    }

    fn visit_array(
        &mut self,
        _document_index: u64,
        path: &SourcePath,
        _array: &Vec<JsonValue>,
    ) -> Result<(), ProfileError> {
        self.array_paths.push(path.as_str());
        Ok(())
    }

    fn visit_scalar(
        &mut self,
        _document_index: u64,
        path: &SourcePath,
        _value: &JsonValue,
    ) -> Result<(), ProfileError> {
        self.scalar_paths.push(path.as_str());
        Ok(())
    }
}

#[test]
fn json_scanner_counts_documents_and_value_kinds() {
    let input = br#"{
        "items": [
            {"id": 1, "tags": ["new", null]},
            {"id": 2}
        ],
        "active": true,
        "empty": {}
    }"#;
    let mut visitor = RecordingVisitor::default();

    scan_json_text(&input[..], &mut visitor).unwrap();

    assert_eq!(visitor.begin_documents, vec![0]);
    assert_eq!(visitor.end_documents, vec![0]);
    assert_eq!(visitor.object_paths.len(), 4);
    assert_eq!(visitor.array_paths.len(), 2);
    assert_eq!(visitor.scalar_paths.len(), 5);
}

#[test]
fn json_scanner_tracks_object_array_and_scalar_paths() {
    let input = br#"{
        "items": [
            {"id": 1, "tags": ["new", null]},
            {"id": 2}
        ],
        "active": true,
        "empty": {}
    }"#;
    let mut visitor = RecordingVisitor::default();

    scan_json_text(&input[..], &mut visitor).unwrap();

    assert!(visitor.object_paths.contains(&"$".to_string()));
    assert!(visitor.object_paths.contains(&"$.items[0]".to_string()));
    assert!(visitor.object_paths.contains(&"$.items[1]".to_string()));
    assert!(visitor.object_paths.contains(&"$.empty".to_string()));
    assert!(visitor.array_paths.contains(&"$.items".to_string()));
    assert!(visitor.array_paths.contains(&"$.items[0].tags".to_string()));
    assert!(visitor.scalar_paths.contains(&"$.active".to_string()));
    assert!(
        visitor
            .scalar_paths
            .contains(&"$.items[0].tags[1]".to_string())
    );
}

struct FailingVisitor {
    visited: usize,
}

impl ScanVisitor for FailingVisitor {
    fn begin_document(&mut self, _document_index: u64) -> Result<(), ProfileError> {
        Ok(())
    }

    fn end_document(&mut self, _document_index: u64) -> Result<(), ProfileError> {
        panic!("a failed walk does not end its document");
    }

    fn visit_object(
        &mut self,
        _document_index: u64,
        _path: &SourcePath,
        _object: &Vec<(String, JsonValue)>,
    ) -> Result<(), ProfileError> {
        self.visited += 1;
        Ok(())
    }

    fn visit_array(
        &mut self,
        _document_index: u64,
        _path: &SourcePath,
        _array: &Vec<JsonValue>,
    ) -> Result<(), ProfileError> {
        self.visited += 1;
        Err(ProfileError::Io("stop".to_string()))
    }

    fn visit_scalar(
        &mut self,
        _document_index: u64,
        _path: &SourcePath,
        _value: &JsonValue,
    ) -> Result<(), ProfileError> {
        self.visited += 1;
        Ok(())
    }
}

#[test]
fn the_first_visitor_error_stops_the_scan() {
    let mut visitor = FailingVisitor { visited: 0 };
    let err = scan_json_text(br#"{"a":1,"b":[1,2],"c":3}"#, &mut visitor).unwrap_err();
    assert!(matches!(err, ProfileError::Io(message) if message == "stop"));
    assert_eq!(visitor.visited, 3);
}

#[test]
fn text_that_does_not_parse_gives_a_json_error_and_no_calls() {
    let mut visitor = RecordingVisitor::default();

    let result = scan_json_text(b"{\"id\": 1,", &mut visitor);

    assert!(matches!(result, Err(ProfileError::Json(_))));
    assert!(visitor.begin_documents.is_empty());
    assert!(visitor.object_paths.is_empty());
}
