pub mod id;
pub mod sample;
pub mod accumulator;
