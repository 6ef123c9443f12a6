pub mod timer;
