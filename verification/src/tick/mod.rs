pub mod fault;
pub mod timer;
pub mod types;
pub mod engine;
