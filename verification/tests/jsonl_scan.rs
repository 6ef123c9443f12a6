use profile_json_refs::error::ProfileError;
use profile_json_refs::scan::jsonl::line_is_blank;
use profile_json_refs::scan::path::SourcePath;
use profile_json_refs::scan::json::scan_jsonl_lines;
use profile_json_refs::scan::visitor::ScanVisitor;
use profile_json_refs::util::json_value::JsonValue;

fn scan_jsonl_text(input: &[u8], visitor: &mut impl ScanVisitor) -> Result<(), ProfileError> {
    let text = std::str::from_utf8(input).unwrap();
    let lines: Vec<String> = text.lines().map(|line| line.to_string()).collect();
    scan_jsonl_lines(&lines, visitor)
}

#[derive(Default)]
struct CountingVisitor {
    begin_documents: Vec<u64>,
    end_documents: Vec<u64>,
    object_paths: Vec<String>,
    array_paths: Vec<String>,
    scalar_paths: Vec<String>,
}

impl ScanVisitor for CountingVisitor {
    fn begin_document(&mut self, document_index: u64) -> Result<(), ProfileError> {
        self.begin_documents.push(document_index);
        Ok(())
    }

    fn end_document(&mut self, document_index: u64) -> Result<(), ProfileError> {
        self.end_documents.push(document_index);
        Ok(())
    }

    fn visit_object(
        &mut self,
        _document_index: u64,
        path: &SourcePath,
        _object: &Vec<(String, JsonValue)>,
    ) -> Result<(), ProfileError> {
        self.object_paths.push(path.as_str());
        Ok(())
    }

    fn visit_array(
        &mut self,
        _document_index: u64,
        path: &SourcePath,
        _array: &Vec<JsonValue>,
    ) -> Result<(), ProfileError> {
        self.array_paths.push(path.as_str());
        Ok(())
    }

    fn visit_scalar(
        &mut self,
        _document_index: u64,
        path: &SourcePath,
        _value: &JsonValue,
    ) -> Result<(), ProfileError> {
        self.scalar_paths.push(path.as_str());
        Ok(())
    }
}

#[test]
fn jsonl_scanner_treats_each_non_empty_line_as_a_document() {
    let input = b"{\"id\":1}\n\n[1,{\"nested\":true}]\n";
    let mut visitor = CountingVisitor::default();

    scan_jsonl_text(&input[..], &mut visitor).unwrap();

    assert_eq!(visitor.begin_documents, vec![0, 2]);
    assert_eq!(visitor.end_documents, vec![0, 2]);
    assert_eq!(visitor.object_paths.len(), 2);
    assert_eq!(visitor.array_paths.len(), 1);
    assert_eq!(visitor.scalar_paths.len(), 3);
}

#[test]
fn jsonl_scanner_ignores_blank_lines() {
    let input = b"\n  \n{\"id\":1}\n";
    let mut visitor = CountingVisitor::default();

    scan_jsonl_text(&input[..], &mut visitor).unwrap();

    assert_eq!(visitor.begin_documents, vec![2]);
    assert_eq!(visitor.object_paths, vec!["$".to_string()]);
}

#[test]
fn blank_lines_are_whitespace_only() {
    assert!(line_is_blank(""));
    assert!(line_is_blank(" \t\r"));
    assert!(line_is_blank("\u{3000}\u{A0}"));
    assert!(!line_is_blank(" {} "));
    assert!(!line_is_blank("x"));
}

#[test]
fn a_line_that_does_not_parse_stops_the_scan_with_a_json_error() {
    let lines: Vec<String> = vec!["{\"id\":1}".to_string(), "".to_string(), "{not json".to_string(), "[2]".to_string()];
    let mut visitor = CountingVisitor::default();

    let result = scan_jsonl_lines(&lines, &mut visitor);

    assert!(matches!(result, Err(ProfileError::Json(_))));
    assert_eq!(visitor.begin_documents, vec![0]);
    assert_eq!(visitor.end_documents, vec![0]);
    assert!(visitor.array_paths.is_empty());
}

#[test]
fn a_single_line_is_numbered_by_the_index_it_is_given() {
    let mut visitor = CountingVisitor::default();

    profile_json_refs::scan::json::scan_jsonl_line(41, "{\"a\":[true]}", &mut visitor).unwrap();
    profile_json_refs::scan::json::scan_jsonl_line(42, " \t ", &mut visitor).unwrap();

    assert_eq!(visitor.begin_documents, vec![41]);
    assert_eq!(visitor.object_paths, vec!["$".to_string()]);
    assert_eq!(visitor.array_paths, vec!["$.a".to_string()]);
    assert_eq!(visitor.scalar_paths, vec!["$.a[0]".to_string()]);
}
