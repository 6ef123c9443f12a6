//! The observed JSON type of a value, with its name in the profile tables.

use vstd::prelude::*;

use crate::util::json_value::JsonValue;

verus! {

#[derive(Debug, Clone, Copy, PartialEq, Eq, Structural, Hash, PartialOrd, Ord)]
pub enum JsonType {
    Null,
    Boolean,
    Integer,
    Number,
    String,
    Object,
    Array,
    Unknown,
}

/// The type of a value; numbers that fit `i64` or `u64` are integers.
pub open spec fn json_type_of(value: JsonValue) -> JsonType {
    match value {
        JsonValue::Null => JsonType::Null,
        JsonValue::Bool(_) => JsonType::Boolean,
        JsonValue::Number(number) => if number.is_integer { JsonType::Integer } else { JsonType::Number },
        JsonValue::String(_) => JsonType::String,
        JsonValue::Array(_) => JsonType::Array,
        JsonValue::Object(_) => JsonType::Object,
    }
}

/// The name of a type in the profile tables.
pub open spec fn json_type_name(t: JsonType) -> Seq<char> {
    match t {
        JsonType::Null => seq!['n', 'u', 'l', 'l'],
        JsonType::Boolean => seq!['b', 'o', 'o', 'l', 'e', 'a', 'n'],
        JsonType::Integer => seq!['i', 'n', 't', 'e', 'g', 'e', 'r'],
        JsonType::Number => seq!['n', 'u', 'm', 'b', 'e', 'r'],
        JsonType::String => seq!['s', 't', 'r', 'i', 'n', 'g'],
        JsonType::Object => seq!['o', 'b', 'j', 'e', 'c', 't'],
        JsonType::Array => seq!['a', 'r', 'r', 'a', 'y'],
        JsonType::Unknown => seq!['u', 'n', 'k', 'n', 'o', 'w', 'n'],
    }
}

impl JsonType {
    pub fn from_value(value: &JsonValue) -> (t: JsonType)
        ensures
            t == json_type_of(*value),
    {
        match value {
            JsonValue::Null => JsonType::Null,
            JsonValue::Bool(_) => JsonType::Boolean,
            JsonValue::Number(number) => if number.is_integer { JsonType::Integer } else { JsonType::Number },
            JsonValue::String(_) => JsonType::String,
            JsonValue::Array(_) => JsonType::Array,
            JsonValue::Object(_) => JsonType::Object,
        }
    }

    pub fn as_sql_str(self) -> (name: &'static str)
        ensures
            name@ == json_type_name(self),
    {
        match self {
            JsonType::Null => {
                proof { reveal_strlit("null"); }
                "null"
            },
            JsonType::Boolean => {
                proof { reveal_strlit("boolean"); }
                "boolean"
            },
            JsonType::Integer => {
                proof { reveal_strlit("integer"); }
                "integer"
            },
            JsonType::Number => {
                proof { reveal_strlit("number"); }
                "number"
            },
            JsonType::String => {
                proof { reveal_strlit("string"); }
                "string"
            },
            JsonType::Object => {
                proof { reveal_strlit("object"); }
                "object"
            },
            JsonType::Array => {
                proof { reveal_strlit("array"); }
                "array"
            },
            JsonType::Unknown => {
                proof { reveal_strlit("unknown"); }
                "unknown"
            },
        }
    }
}

} // verus!
