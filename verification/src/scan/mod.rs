pub mod json;
pub mod jsonl;
pub mod path;
pub mod visitor;
