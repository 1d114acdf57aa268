//! Interfaces an island runtime, a client session and the bridge implement.
use vstd::prelude::*;
use crate::types::{Effect, IslandId, IslandManifest, IslandSnapshot, PlayerInput};

verus! {

/// What one tick of an island produced.
#[derive(Debug)]
pub struct TickResult {
    pub tick: u64,
    pub delta: Vec<u8>,
    pub effects: Vec<Effect>,
}

/// A simulation runtime for one island. Errors are described by a message.
pub trait IslandRuntime {
    fn init(&mut self, manifest: &IslandManifest) -> Result<(), String>;

    fn tick(&mut self, inputs: &[PlayerInput]) -> Result<TickResult, String>;

    fn snapshot(&self) -> Result<IslandSnapshot, String>;

    fn restore(&mut self, snapshot: &IslandSnapshot) -> Result<(), String>;
}

/// A player's connection, as the island sees it.
pub trait Session {
    fn send_delta(&self, island_id: &IslandId, player_id: &str, delta: &[u8]);

    fn disconnect(&self, player_id: &str);
}

/// The orchestration bridge, as the island manager sees it.
pub trait Bridge {
    fn report_island_stopped(&self, island_id: &IslandId);

    fn request_passivation(&self, island_id: &IslandId);
}

} // verus!
