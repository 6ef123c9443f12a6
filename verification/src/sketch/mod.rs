pub mod hll;
pub mod priority;
pub mod space_saving;
