//! What the island manager knows of each live island.
use vstd::prelude::*;
use crate::island::state_machine::IslandState;
use crate::types::{IslandId, IslandManifest};

verus! {

/// Whether an island runs on a thread of its own or shares a pool.
#[derive(Debug, Clone, Copy, PartialEq, Eq, Structural)]
pub enum ThreadModel {
    Dedicated,
    Pooled,
}

/// The manager's record of a live island. The island's channels and thread stay with
/// the caller that runs it.
#[derive(Debug, Clone)]
pub struct IslandHandle {
    pub island_id: IslandId,
    pub state: IslandState,
    pub thread_model: ThreadModel,
    pub entity_count: u32,
    pub manifest: IslandManifest,
    pub player_count: u32,
    /// Deadline (milliseconds on the manager's clock) after which the island should be
    /// passivated; `None` when none is scheduled.
    pub passivation_deadline_ms: Option<u64>,
    pub passivate_when_empty: bool,
}

} // verus!
