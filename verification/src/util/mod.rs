pub mod hash;
pub mod text;
pub mod sort;
pub mod dup;
pub mod json_value;
pub mod json_type;
pub mod truncate;
pub mod table;
