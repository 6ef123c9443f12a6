//! The JSON values that the profiler reads: a parsed document in plain
//! values, and its compact JSON text.

use vstd::prelude::*;

use crate::util::text::{hex_digit, push_char, push_str};

verus! {

/// A JSON number: its text as the parser prints it, and whether it is an
/// integer (fits `i64` or `u64`).
#[derive(Debug, Clone, PartialEq)]
pub struct JsonNumber {
    pub text: String,
    pub is_integer: bool,
}

/// A parsed JSON value. Object members keep the order of the parsed map.
#[derive(Debug)]
pub enum JsonValue {
    Null,
    Bool(bool),
    Number(JsonNumber),
    String(String),
    Array(Vec<JsonValue>),
    Object(Vec<(String, JsonValue)>),
}

/// How `serde_json` writes one character of a string: `"` and `\` behind
/// a backslash; backspace, tab, newline, form feed and carriage return as
/// their short escapes; the other characters below U+0020 as `\u00` and two
/// lowercase hex digits; every other character as it is.
pub open spec fn json_escaped_char(c: char) -> Seq<char> {
    if c == '"' {
        seq!['\\', '"']
    } else if c == '\\' {
        seq!['\\', '\\']
    } else if c == '\u{8}' {
        seq!['\\', 'b']
    } else if c == '\t' {
        seq!['\\', 't']
    } else if c == '\n' {
        seq!['\\', 'n']
    } else if c == '\u{c}' {
        seq!['\\', 'f']
    } else if c == '\r' {
        seq!['\\', 'r']
    } else if (c as u32) < 0x20 {
        seq!['\\', 'u', '0', '0', hex_digit(((c as u32) / 16) as u64), hex_digit(((c as u32) % 16) as u64)]
    } else {
        seq![c]
    }
}

/// The characters of a string, each as `serde_json` writes it.
pub open spec fn json_escaped(text: Seq<char>) -> Seq<char>
    decreases text.len(),
{
    if text.len() == 0 {
        Seq::empty()
    } else {
        json_escaped(text.drop_last()) + json_escaped_char(text.last())
    }
}

/// The JSON text of a string: quoted and escaped as `serde_json` writes it.
pub open spec fn json_quoted(text: Seq<char>) -> Seq<char> {
    seq!['"'] + json_escaped(text) + seq!['"']
}

/// Calls `serde_json::to_string` on a string slice. The contract claims the
/// quoted text that serde_json's string serializer writes, escape by escape
/// as its escape table gives them; serializing a string slice does not fail.
#[verifier::external_body]
pub(crate) fn quote_json(text: &str) -> (quoted: String)
    ensures
        quoted@ == json_quoted(text@),
{
    serde_json::to_string(text).unwrap_or_default()
}

pub open spec fn null_text() -> Seq<char> {
    seq!['n', 'u', 'l', 'l']
}

pub open spec fn bool_text(value: bool) -> Seq<char> {
    if value {
        seq!['t', 'r', 'u', 'e']
    } else {
        seq!['f', 'a', 'l', 's', 'e']
    }
}

/// Compact JSON text of a value, members in stored order, no whitespace.
pub open spec fn json_text(value: JsonValue) -> Seq<char>
    decreases value,
{
    match value {
        JsonValue::Null => null_text(),
        JsonValue::Bool(b) => bool_text(b),
        JsonValue::Number(number) => number.text@,
        JsonValue::String(text) => json_quoted(text@),
        JsonValue::Array(items) => seq!['['] + json_items_text(items@) + seq![']'],
        JsonValue::Object(fields) => seq!['{'] + json_fields_text(fields@) + seq!['}'],
    }
}

/// The JSON texts of `items`, separated by commas.
pub open spec fn json_items_text(items: Seq<JsonValue>) -> Seq<char>
    decreases items,
{
    if items.len() == 0 {
        Seq::empty()
    } else if items.len() == 1 {
        json_text(items[0])
    } else {
        json_items_text(items.drop_last()) + seq![','] + json_text(items.last())
    }
}

/// The members `"key":value`, separated by commas.
pub open spec fn json_fields_text(fields: Seq<(String, JsonValue)>) -> Seq<char>
    decreases fields,
{
    if fields.len() == 0 {
        Seq::empty()
    } else if fields.len() == 1 {
        json_quoted(fields[0].0@) + seq![':'] + json_text(fields[0].1)
    } else {
        json_fields_text(fields.drop_last()) + seq![','] + json_quoted(fields.last().0@) + seq![':']
            + json_text(fields.last().1)
    }
}

pub fn push_null(out: &mut String)
    ensures
        final(out)@ == old(out)@ + null_text(),
{
    push_char(out, 'n');
    push_char(out, 'u');
    push_char(out, 'l');
    push_char(out, 'l');
    assert(final(out)@ =~= old(out)@ + null_text());
}

pub fn push_bool(out: &mut String, value: bool)
    ensures
        final(out)@ == old(out)@ + bool_text(value),
{
    if value {
        push_char(out, 't');
        push_char(out, 'r');
        push_char(out, 'u');
        push_char(out, 'e');
    } else {
        push_char(out, 'f');
        push_char(out, 'a');
        push_char(out, 'l');
        push_char(out, 's');
        push_char(out, 'e');
    }
    assert(final(out)@ =~= old(out)@ + bool_text(value));
}

/// Appends the compact JSON text of `value`.
pub fn push_json_text(out: &mut String, value: &JsonValue)
    ensures
        final(out)@ == old(out)@ + json_text(*value),
    decreases value,
{
    match value {
        JsonValue::Null => push_null(out),
        JsonValue::Bool(b) => push_bool(out, *b),
        JsonValue::Number(number) => push_str(out, number.text.as_str()),
        JsonValue::String(text) => {
            let quoted = quote_json(text.as_str());
            push_str(out, quoted.as_str());
        },
        JsonValue::Array(items) => {
            let ghost start = out@;
            push_char(out, '[');
            let mut index: usize = 0;
            while index < items.len()
                invariant
                    index <= items@.len(),
                    *value == JsonValue::Array(*items),
                    out@ == start + seq!['['] + json_items_text(items@.subrange(0, index as int)),
                decreases items@.len() - index,
            {
                let ghost before = out@;
                let ghost prefix = items@.subrange(0, index + 1);
                assert(prefix.drop_last() =~= items@.subrange(0, index as int));
                if index > 0 {
                    push_char(out, ',');
                }
                proof {
                    assert(*items == (*value)->Array_0);
                    assert(decreases_to!(*value => (*value)->Array_0));
                    assert(decreases_to!(*items => items@));
                    assert(decreases_to!(items@ => items@[index as int]));
                    assert(decreases_to!(*value => items@[index as int]));
                }
                push_json_text(out, &items[index]);
                proof {
                    if index == 0 {
                        assert(items@.subrange(0, 0) =~= Seq::<JsonValue>::empty());
                        assert(out@ =~= start + seq!['['] + json_items_text(prefix));
                    } else {
                        assert(out@ =~= start + seq!['['] + json_items_text(prefix));
                    }
                }
                index = index + 1;
            }
            push_char(out, ']');
            assert(items@.subrange(0, items@.len() as int) =~= items@);
            assert(out@ =~= start + json_text(*value));
        },
        JsonValue::Object(fields) => {
            let ghost start = out@;
            push_char(out, '{');
            let mut index: usize = 0;
            while index < fields.len()
                invariant
                    index <= fields@.len(),
                    *value == JsonValue::Object(*fields),
                    out@ == start + seq!['{'] + json_fields_text(fields@.subrange(0, index as int)),
                decreases fields@.len() - index,
            {
                let ghost prefix = fields@.subrange(0, index + 1);
                assert(prefix.drop_last() =~= fields@.subrange(0, index as int));
                if index > 0 {
                    push_char(out, ',');
                }
                let field = &fields[index];
                let quoted = quote_json(field.0.as_str());
                push_str(out, quoted.as_str());
                push_char(out, ':');
                proof {
                    assert(*fields == (*value)->Object_0);
                    assert(decreases_to!(*value => (*value)->Object_0));
                    assert(decreases_to!(*fields => fields@));
                    assert(decreases_to!(fields@ => fields@[index as int]));
                    assert(decreases_to!(fields@[index as int] => fields@[index as int].1));
                    assert(decreases_to!(*value => fields@[index as int].1));
                }
                push_json_text(out, &field.1);
                proof {
                    if index == 0 {
                        assert(fields@.subrange(0, 0) =~= Seq::<(String, JsonValue)>::empty());
                        assert(out@ =~= start + seq!['{'] + json_fields_text(prefix));
                    } else {
                        assert(out@ =~= start + seq!['{'] + json_fields_text(prefix));
                    }
                }
                index = index + 1;
            }
            push_char(out, '}');
            assert(fields@.subrange(0, fields@.len() as int) =~= fields@);
            assert(out@ =~= start + json_text(*value));
        },
    }
}

/// The compact JSON text of `value`, as `serde_json::to_string` writes it.
pub fn to_json_string(value: &JsonValue) -> (text: String)
    ensures
        text@ == json_text(*value),
{
    let mut text = String::new();
    push_json_text(&mut text, value);
    assert(Seq::<char>::empty() + json_text(*value) =~= json_text(*value));
    text
}

/// The compact JSON text of an object with `fields`.
pub fn object_json_string(fields: &Vec<(String, JsonValue)>) -> (text: String)
    ensures
        text@ == seq!['{'] + json_fields_text(fields@) + seq!['}'],
{
    let mut out = String::new();
    push_char(&mut out, '{');
    let mut index: usize = 0;
    while index < fields.len()
        invariant
            index <= fields@.len(),
            out@ == seq!['{'] + json_fields_text(fields@.subrange(0, index as int)),
        decreases fields@.len() - index,
    {
        let ghost prefix = fields@.subrange(0, index + 1);
        assert(prefix.drop_last() =~= fields@.subrange(0, index as int));
        if index > 0 {
            push_char(&mut out, ',');
        }
        let field = &fields[index];
        let quoted = quote_json(field.0.as_str());
        push_str(&mut out, quoted.as_str());
        push_char(&mut out, ':');
        push_json_text(&mut out, &field.1);
        proof {
            if index == 0 {
                assert(fields@.subrange(0, 0) =~= Seq::<(String, JsonValue)>::empty());
            }
            assert(out@ =~= seq!['{'] + json_fields_text(prefix));
        }
        index = index + 1;
    }
    push_char(&mut out, '}');
    assert(fields@.subrange(0, fields@.len() as int) =~= fields@);
    out
}

} // verus!
