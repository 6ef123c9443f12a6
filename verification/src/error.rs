//! The errors of a profile run, with their messages.

use vstd::prelude::*;

use crate::util::text::{push_str, str_to_string};

verus! {

/// What can go wrong in a profile run. Errors that come from the outside
/// (SQLite, JSON parsing, reading files) carry the outside error's message.
#[derive(Debug)]
pub enum ProfileError {
    StdinUnsupported,
    InputNotFile(String),
    RefsNotFile(String),
    InvalidConfig(String),
    ConfigRead { path: String, source: String },
    ConfigParse { path: String, source: String },
    Sqlite(String),
    Json(String),
    Io(String),
}

pub open spec fn stdin_unsupported_text() -> Seq<char> {
    "stdin is not supported in v0.1.0; pass a JSON or JSONL file path"@
}

/// The message of an error, as the program prints it.
pub open spec fn error_message(error: ProfileError) -> Seq<char> {
    match error {
        ProfileError::StdinUnsupported => stdin_unsupported_text(),
        ProfileError::InputNotFile(path) => "input path is not a file: "@ + path@,
        ProfileError::RefsNotFile(path) => "refs sqlite path is not a file: "@ + path@,
        ProfileError::InvalidConfig(message) => "invalid config: "@ + message@,
        ProfileError::ConfigRead { path, source } => "failed to read config "@ + path@ + ": "@ + source@,
        ProfileError::ConfigParse { path, source } => "failed to parse config "@ + path@ + ": "@ + source@,
        ProfileError::Sqlite(message) => "sqlite error: "@ + message@,
        ProfileError::Json(message) => "json parse error: "@ + message@,
        ProfileError::Io(message) => "io error: "@ + message@,
    }
}

fn prefixed(prefix: &str, text: &str) -> (message: String)
    ensures
        message@ == prefix@ + text@,
{
    let mut message = str_to_string(prefix);
    push_str(&mut message, text);
    message
}

impl ProfileError {
    /// The error's message.
    pub fn message(&self) -> (text: String)
        ensures
            text@ == error_message(*self),
    {
        match self {
            ProfileError::StdinUnsupported => {
                let text = "stdin is not supported in v0.1.0; pass a JSON or JSONL file path";
                str_to_string(text)
            },
            ProfileError::InputNotFile(path) => prefixed("input path is not a file: ", path.as_str()),
            ProfileError::RefsNotFile(path) => prefixed("refs sqlite path is not a file: ", path.as_str()),
            ProfileError::InvalidConfig(message) => prefixed("invalid config: ", message.as_str()),
            ProfileError::ConfigRead { path, source } => {
                let mut text = prefixed("failed to read config ", path.as_str());
                push_str(&mut text, ": ");
                push_str(&mut text, source.as_str());
                text
            },
            ProfileError::ConfigParse { path, source } => {
                let mut text = prefixed("failed to parse config ", path.as_str());
                push_str(&mut text, ": ");
                push_str(&mut text, source.as_str());
                text
            },
            ProfileError::Sqlite(message) => prefixed("sqlite error: ", message.as_str()),
            ProfileError::Json(message) => prefixed("json parse error: ", message.as_str()),
            ProfileError::Io(message) => prefixed("io error: ", message.as_str()),
        }
    }
}

} // verus!
