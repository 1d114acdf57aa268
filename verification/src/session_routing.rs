//! Where the server sends a client session once the manager has accepted it, and what it
//! reports when the session's connection closes.
use vstd::prelude::*;
use crate::types::IslandId;

verus! {

/// One message to the island manager after a session's connection closed.
#[derive(Debug)]
pub enum CloseStep {
    /// Free the session's player entity on the island it was registered on.
    Deregister { island_id: IslandId, session_id: u64 },
    /// Forget the session.
    Disconnected { session_id: u64 },
}

/// The island that accepted sessions are registered on automatically: the default island,
/// and only when a fanout factory is configured too (either missing means the operator
/// routes clients by hand).
pub fn auto_register_island(has_fanout: bool, default_island: &Option<IslandId>) -> (r: Option<IslandId>)
    ensures
        r is Some <==> (has_fanout && default_island is Some),
        r matches Some(i) ==> i@ == default_island->Some_0@,
{
    if !has_fanout {
        return None;
    }
    match default_island {
        Some(i) => Some(IslandId::new(i.as_str())),
        None => None,
    }
}

/// The messages for a closed session, in the order they are sent: it is deregistered from
/// the island it was registered on (if any) before it is reported disconnected.
pub fn close_steps(registered_on: &Option<IslandId>, session_id: u64) -> (steps: Vec<CloseStep>)
    ensures
        match registered_on {
            Some(i) => steps@.len() == 2 && (steps@[0] matches CloseStep::Deregister { island_id, session_id: s }
                && island_id@ == i@ && s == session_id) && (steps@[1] matches CloseStep::Disconnected {
                session_id: s,
            } && s == session_id),
            None => steps@.len() == 1 && (steps@[0] matches CloseStep::Disconnected { session_id: s } && s
                == session_id),
        },
{
    let mut steps: Vec<CloseStep> = Vec::new();
    match registered_on {
        Some(i) => steps.push(CloseStep::Deregister { island_id: IslandId::new(i.as_str()), session_id }),
        None => {},
    }
    steps.push(CloseStep::Disconnected { session_id });
    steps
}

} // verus!
