//! Scanning input text: a JSON input is one document, numbered 0; a JSONL
//! input has one document per line that holds more than whitespace,
//! numbered by its line's index counted from zero over all lines. serde_json
//! parses each document's text.

use vstd::prelude::*;

use crate::error::ProfileError;
use crate::scan::jsonl::{blank_line, line_is_blank};
use crate::scan::visitor::{
    ScanEvent, ScanVisitor, calls_since, document_events, extends, lemma_calls_since_split, lemma_ran_concat,
    ran_until_error, scan_document,
};
use crate::util::json_value::{JsonNumber, JsonValue};

verus! {

#[verifier::external_type_specification]
#[verifier::external_body]
pub struct ExSerdeValue(serde_json::Value);

/// What serde_json makes of a text: the value it parses (object members in
/// the order of serde_json's map), or its error message.
pub uninterp spec fn parsed_json(text: Seq<char>) -> Result<JsonValue, Seq<char>>;

/// serde_json's value as the library's value, variant for variant: a
/// number keeps serde_json's text of it and whether it is an integer (not
/// held as a float); members keep the order of serde_json's map.
#[verifier::external_body]
fn from_serde(value: serde_json::Value) -> JsonValue {
    match value {
        serde_json::Value::Null => JsonValue::Null,
        serde_json::Value::Bool(flag) => JsonValue::Bool(flag),
        serde_json::Value::Number(number) => JsonValue::Number(
            JsonNumber { text: number.to_string(), is_integer: !number.is_f64() },
        ),
        serde_json::Value::String(text) => JsonValue::String(text),
        serde_json::Value::Array(items) => JsonValue::Array(items.into_iter().map(from_serde).collect()),
        serde_json::Value::Object(map) => JsonValue::Object(map.into_iter().map(|(k, v)| (k, from_serde(v))).collect()),
    }
}

/// Parses a text with `serde_json::from_str` into serde_json's value and
/// converts it; a failed parse gives serde_json's error message. The
/// contract names the result: it depends on the text alone.
#[verifier::external_body]
pub(crate) fn parse_json(text: &str) -> (parsed: Result<JsonValue, String>)
    ensures
        match parsed {
            Ok(value) => parsed_json(text@) == Ok::<JsonValue, Seq<char>>(value),
            Err(message) => parsed_json(text@) == Err::<JsonValue, Seq<char>>(message@),
        },
{
    match serde_json::from_str::<serde_json::Value>(text) {
        Ok(value) => Ok(from_serde(value)),
        Err(error) => Err(error.to_string()),
    }
}

/// Whether a JSONL line stops the scan: it is not blank and does not parse.
pub open spec fn line_fails(line: Seq<char>) -> bool {
    !blank_line(line) && parsed_json(line) is Err
}

/// The calls for the JSONL line `line` with index `line_index`: none for a
/// blank line (or one that does not parse), else the document it parses to,
/// numbered by the line's index.
pub open spec fn line_events(line_index: u64, line: Seq<char>) -> Seq<ScanEvent> {
    if blank_line(line) {
        Seq::empty()
    } else {
        match parsed_json(line) {
            Ok(value) => document_events(line_index, value),
            Err(_) => Seq::empty(),
        }
    }
}

/// The calls for the first `n` lines of a JSONL input, in order.
pub open spec fn lines_events(lines: Seq<String>, n: int) -> Seq<ScanEvent>
    decreases n,
{
    if n <= 0 {
        Seq::empty()
    } else {
        lines_events(lines, n - 1) + line_events((n - 1) as u64, lines[n - 1]@)
    }
}

/// `result` is the JSON error for the message `message`.
pub open spec fn json_error_for(result: Result<(), ProfileError>, message: Seq<char>) -> bool {
    result matches Err(ProfileError::Json(text)) && text@ == message
}

/// Scans a JSON input: parses the text as one document and scans it as
/// document 0. When the text does not parse, no call is made and the error
/// carries serde_json's message.
pub fn scan_json_text<V: ScanVisitor>(text: &str, visitor: &mut V) -> (result: Result<(), ProfileError>)
    requires
        old(visitor).ready(),
    ensures
        final(visitor).ready(),
        extends(final(visitor).calls(), old(visitor).calls()),
        match parsed_json(text@) {
            Ok(value) => ran_until_error(
                calls_since(final(visitor).calls(), old(visitor).calls()),
                document_events(0, value),
                result,
            ),
            Err(message) => final(visitor).calls() == old(visitor).calls() && json_error_for(result, message),
        },
{
    let ghost before = visitor.calls();
    visitor.parse_started();
    let parsed = parse_json(text);
    match parsed {
        Ok(value) => {
            visitor.parse_finished(0);
            visitor.walk_started();
            let result = scan_document(0, &value, visitor);
            visitor.walk_finished();
            result
        },
        Err(message) => {
            assert(visitor.calls().subrange(0, before.len() as int) =~= before);
            Err(ProfileError::Json(message))
        },
    }
}

/// Scans one line of a JSONL input: a blank line makes no call; another is
/// parsed and scanned as the document numbered `line_index`. When it does
/// not parse, no call is made and the error carries serde_json's message.
pub fn scan_jsonl_line<V: ScanVisitor>(line_index: u64, line: &str, visitor: &mut V) -> (result: Result<(), ProfileError>)
    requires
        old(visitor).ready(),
    ensures
        final(visitor).ready(),
        extends(final(visitor).calls(), old(visitor).calls()),
        line_fails(line@) ==> final(visitor).calls() == old(visitor).calls() && parsed_json(line@) is Err && json_error_for(
            result,
            parsed_json(line@)->Err_0,
        ),
        !line_fails(line@) ==> ran_until_error(
            calls_since(final(visitor).calls(), old(visitor).calls()),
            line_events(line_index, line@),
            result,
        ),
{
    let ghost before = visitor.calls();
    if line_is_blank(line) {
        assert(calls_since(visitor.calls(), before) =~= Seq::<(ScanEvent, Result<(), ProfileError>)>::empty());
        assert(visitor.calls().subrange(0, before.len() as int) =~= before);
        return Ok(());
    }
    visitor.parse_started();
    let parsed = parse_json(line);
    match parsed {
        Ok(value) => {
            let length = line.as_bytes().len() as u64;
            let bytes = if length < u64::MAX { length + 1 } else { length };
            visitor.parse_finished(bytes);
            visitor.walk_started();
            let result = scan_document(line_index, &value, visitor);
            visitor.walk_finished();
            result
        },
        Err(message) => {
            assert(visitor.calls().subrange(0, before.len() as int) =~= before);
            Err(ProfileError::Json(message))
        },
    }
}

/// Scans the lines of a JSONL input in order, each non-blank line as the
/// document numbered by its index. The calls are those of the documents of
/// the lines before the first line that does not parse, up to the first
/// call that fails; the scan then returns that call's error, or, when the
/// calls all succeed, the parse error of that line, or `Ok` when every line
/// was scanned.
pub fn scan_jsonl_lines<V: ScanVisitor>(lines: &Vec<String>, visitor: &mut V) -> (result: Result<(), ProfileError>)
    requires
        old(visitor).ready(),
    ensures
        final(visitor).ready(),
        extends(final(visitor).calls(), old(visitor).calls()),
        exists|n: int| {
            &&& 0 <= n <= lines@.len()
            &&& forall|i: int| 0 <= i < n ==> !line_fails(#[trigger] lines@[i]@)
            &&& {
                ||| (ran_until_error(
                    calls_since(final(visitor).calls(), old(visitor).calls()),
                    #[trigger] lines_events(lines@, n),
                    result,
                ) && (result is Ok ==> n == lines@.len()))
                ||| (n < lines@.len() && line_fails(lines@[n]@) && ran_until_error(
                    calls_since(final(visitor).calls(), old(visitor).calls()),
                    lines_events(lines@, n),
                    Ok(()),
                ) && json_error_for(result, parsed_json(lines@[n]@)->Err_0))
            }
        },
{
    let ghost before = visitor.calls();
    let mut index: usize = 0;
    proof {
        assert(calls_since(visitor.calls(), before) =~= Seq::<(ScanEvent, Result<(), ProfileError>)>::empty());
        assert(visitor.calls().subrange(0, before.len() as int) =~= before);
    }
    while index < lines.len()
        invariant
            index <= lines@.len(),
            before == old(visitor).calls(),
            visitor.ready(),
            extends(visitor.calls(), before),
            forall|i: int| 0 <= i < index ==> !line_fails(#[trigger] lines@[i]@),
            ran_until_error(calls_since(visitor.calls(), before), lines_events(lines@, index as int), Ok(())),
        decreases lines@.len() - index,
    {
        let ghost middle = visitor.calls();
        let r = scan_jsonl_line(index as u64, lines[index].as_str(), visitor);
        let ghost line = lines@[index as int]@;
        proof {
            lemma_calls_since_split(before, middle, visitor.calls());
            if !line_fails(line) {
                lemma_ran_concat(
                    calls_since(middle, before),
                    lines_events(lines@, index as int),
                    calls_since(visitor.calls(), middle),
                    line_events(index as u64, line),
                    r,
                );
            }
            assert(lines_events(lines@, index + 1) == lines_events(lines@, index as int) + line_events(index as u64, line));
        }
        match r {
            Ok(()) => {},
            Err(error) => {
                proof {
                    if line_fails(line) {
                        assert(calls_since(visitor.calls(), middle) =~= Seq::<(ScanEvent, Result<(), ProfileError>)>::empty());
                        assert(calls_since(visitor.calls(), before) =~= calls_since(middle, before));
                        assert(lines_events(lines@, index as int) == lines_events(lines@, index as int));
                    } else {
                        assert(forall|i: int| 0 <= i < index + 1 ==> !line_fails(#[trigger] lines@[i]@));
                    }
                }
                return Err(error);
            },
        }
        index = index + 1;
    }
    proof {
        assert(lines_events(lines@, lines@.len() as int) == lines_events(lines@, lines@.len() as int));
    }
    Ok(())
}

} // verus!
