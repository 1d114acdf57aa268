//! Commands to an island's fanout, which sends each client its datagrams.
use vstd::prelude::*;
use crate::types::{ClientIndex, EntitySlot};

verus! {

/// A change in the set of clients a fanout serves; `S` is the client's session
/// handle (a shared `Session` object in a running server).
pub enum FanoutCommand<S> {
    ClientJoined { client_index: ClientIndex, entity_slot: EntitySlot, session: S },
    ClientLeft { client_index: ClientIndex },
}

} // verus!
