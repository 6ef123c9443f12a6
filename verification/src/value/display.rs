//! The display text of a value: strings as their plain text, other values
//! as compact JSON, cut to a byte limit.

use vstd::prelude::*;

use crate::util::json_value::{JsonValue, json_text, to_json_string};
use crate::util::truncate::{truncate_utf8, truncated_text};

verus! {

#[derive(Debug, Clone, PartialEq, Eq)]
pub struct DisplayValue {
    pub text: Option<String>,
    pub truncated: bool,
}

/// The untruncated display text: a string's own text, else its JSON text.
pub open spec fn display_raw(value: JsonValue) -> Seq<char> {
    match value {
        JsonValue::String(text) => text@,
        _ => json_text(value),
    }
}

/// The display text before truncation.
pub fn display_raw_text(value: &JsonValue) -> (raw: String)
    ensures
        raw@ == display_raw(*value),
{
    match value {
        JsonValue::String(text) => text.clone(),
        _ => to_json_string(value),
    }
}

pub fn value_text(value: &JsonValue, limit: usize) -> (display: DisplayValue)
    ensures
        display.text matches Some(text) && text@ == truncated_text(display_raw(*value), limit as nat),
        display.truncated == (vstd::utf8::encode_utf8(display_raw(*value)).len() > limit),
{
    let raw = display_raw_text(value);
    let (text, truncated) = truncate_utf8(raw.as_str(), limit);
    DisplayValue { text: Some(text), truncated }
}

} // verus!
