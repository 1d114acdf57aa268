//! Implementations that do nothing, for exercising the manager lifecycle.
use vstd::prelude::*;
use crate::traits::{Bridge, IslandRuntime, Session, TickResult};
use crate::types::{IslandId, IslandManifest, IslandSnapshot, PlayerInput};

verus! {

/// A runtime that only counts its ticks.
pub struct StubIslandRuntime {
    tick_count: u64,
}

impl StubIslandRuntime {
    pub closed spec fn ticks(&self) -> u64 {
        self.tick_count
    }

    pub fn new() -> (rt: StubIslandRuntime)
        ensures
            rt.ticks() == 0,
    {
        StubIslandRuntime { tick_count: 0 }
    }
}

impl Default for StubIslandRuntime {
    fn default() -> (rt: StubIslandRuntime)
        ensures
            rt.ticks() == 0,
    {
        StubIslandRuntime::new()
    }
}

impl IslandRuntime for StubIslandRuntime {
    fn init(&mut self, manifest: &IslandManifest) -> (r: Result<(), String>)
        ensures
            r is Ok,
            final(self).ticks() == old(self).ticks(),
    {
        Ok(())
    }

    /// Counts the tick (saturating) and reports it, with an empty delta and no effect.
    fn tick(&mut self, inputs: &[PlayerInput]) -> (r: Result<TickResult, String>)
        ensures
            final(self).ticks() == (if old(self).ticks() == u64::MAX { u64::MAX } else { (old(self).ticks() + 1) as u64 }),
            r matches Ok(t) && t.tick == final(self).ticks() && t.delta@.len() == 0 && t.effects@.len() == 0,
    {
        self.tick_count = self.tick_count.saturating_add(1);
        Ok(TickResult { tick: self.tick_count, delta: Vec::new(), effects: Vec::new() })
    }

    /// A snapshot of island `stub` at the current tick count, with no state.
    fn snapshot(&self) -> (r: Result<IslandSnapshot, String>)
        ensures
            r matches Ok(s) && s.tick == self.ticks() && s.island_id@ == "stub"@ && s.state@.len() == 0,
    {
        Ok(IslandSnapshot { island_id: IslandId::new("stub"), tick: self.tick_count, state: Vec::new() })
    }

    /// Resumes counting from the snapshot's tick.
    fn restore(&mut self, snapshot: &IslandSnapshot) -> (r: Result<(), String>)
        ensures
            r is Ok,
            final(self).ticks() == snapshot.tick,
    {
        self.tick_count = snapshot.tick;
        Ok(())
    }
}

/// A session that discards all sends.
pub struct StubSession;

impl Session for StubSession {
    fn send_delta(&self, island_id: &IslandId, player_id: &str, delta: &[u8]) {
    }

    fn disconnect(&self, player_id: &str) {
    }
}

/// A bridge that does nothing.
pub struct StubBridge;

impl Bridge for StubBridge {
    fn report_island_stopped(&self, island_id: &IslandId) {
    }

    fn request_passivation(&self, island_id: &IslandId) {
    }
}

/// A spatial index that knows of no island (its queries answer nothing).
pub struct StubSpatialIndex;

} // verus!
