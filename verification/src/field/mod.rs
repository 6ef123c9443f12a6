pub mod id;
pub mod summary;
pub mod accumulator;
