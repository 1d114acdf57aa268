pub mod handle;
pub mod registry;
pub mod state_machine;
