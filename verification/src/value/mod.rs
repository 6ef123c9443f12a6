pub mod identity;
pub mod display;
pub mod exact_counter;
pub mod sample;
