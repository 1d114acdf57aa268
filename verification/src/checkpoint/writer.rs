//! The checkpoint writer's decisions: which of the queued requests is written,
//! and what the latest completed checkpoint is after a write.
//!
//! The writer's queue, the store it writes to and the waiting it does are the
//! caller's; these functions only decide.
use vstd::prelude::*;

verus! {

/// Latest completed checkpoint.
#[derive(Debug, Clone)]
pub struct CheckpointSnapshot {
    pub tick: u64,
    pub data: Vec<u8>,
}

/// A checkpoint waiting to be written: `(tick, bytes)`.
pub type QueuedCheckpoint = (u64, Vec<u8>);

/// Coalesce the requests that queued up while one write was in flight: only the most
/// recent is written; the others are dropped. `None` when nothing is queued.
pub fn coalesce_requests(queued: Vec<QueuedCheckpoint>) -> (latest: Option<QueuedCheckpoint>)
    ensures
        queued@.len() == 0 ==> latest is None,
        queued@.len() > 0 ==> latest == Some(queued@.last()),
{
    let mut queued = queued;
    queued.pop()
}

/// The latest completed checkpoint after an attempt to write `(tick, data)`: the new
/// one when the store accepted it, the previous one otherwise.
pub fn after_write(
    previous: Option<CheckpointSnapshot>,
    tick: u64,
    data: Vec<u8>,
    stored: bool,
) -> (latest: Option<CheckpointSnapshot>)
    ensures
        stored ==> latest == Some(CheckpointSnapshot { tick, data }),
        !stored ==> latest == previous,
{
    if stored {
        Some(CheckpointSnapshot { tick, data })
    } else {
        previous
    }
}

} // verus!
