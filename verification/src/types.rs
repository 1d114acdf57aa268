//! Identifiers and plain data shared across the server.
use vstd::prelude::*;

verus! {

/// Unique identifier for a simulation island.
#[derive(Debug, Clone, Hash)]
pub struct IslandId(pub String);

impl View for IslandId {
    type V = Seq<char>;

    open spec fn view(&self) -> Seq<char> {
        self.0@
    }
}

impl IslandId {
    /// An island id with the given name.
    pub fn new(s: &str) -> (id: IslandId)
        ensures
            id@ == s@,
    {
        IslandId(String::from_str(s))
    }

    /// The island's name.
    pub fn as_str(&self) -> (s: &str)
        ensures
            s@ == self@,
    {
        self.0.as_str()
    }

    /// Whether two ids name the same island.
    pub fn same(&self, other: &IslandId) -> (b: bool)
        ensures
            b == (self@ == other@),
    {
        self.0 == other.0
    }
}

impl PartialEq for IslandId {
    fn eq(&self, other: &IslandId) -> (b: bool) {
        self.0 == other.0
    }
}

impl vstd::std_specs::cmp::PartialEqSpecImpl for IslandId {
    open spec fn obeys_eq_spec() -> bool {
        true
    }

    open spec fn eq_spec(&self, other: &IslandId) -> bool {
        self@ == other@
    }
}

impl Eq for IslandId {
}

impl From<&str> for IslandId {
    fn from(s: &str) -> (id: IslandId) {
        IslandId::new(s)
    }
}

impl vstd::std_specs::convert::FromSpecImpl<&str> for IslandId {
    open spec fn obeys_from_spec() -> bool {
        false
    }

    open spec fn from_spec(v: &str) -> IslandId {
        choose|id: IslandId| id@ == v@
    }
}

/// Slot index for an entity within an island's storage.
#[derive(Debug, Clone, Copy, PartialEq, Eq, Hash, PartialOrd, Ord, Structural)]
pub struct EntitySlot(pub u32);

/// Index of a connected client within an island's fanout.
#[derive(Debug, Clone, Copy, PartialEq, Eq, Hash, PartialOrd, Ord, Structural)]
pub struct ClientIndex(pub u16);

/// Input received from a player for a given tick.
#[derive(Debug, Clone)]
pub struct PlayerInput {
    pub player_id: String,
    pub payload: Vec<u8>,
}

/// Manifest describing an island to be activated.
#[derive(Debug, Clone)]
pub struct IslandManifest {
    pub island_id: IslandId,
    pub entity_count: u32,
    pub wasm_module: String,
    pub initial_state: Vec<u8>,
}

impl IslandManifest {
    /// A copy with the same contents.
    pub fn duplicate(&self) -> (c: IslandManifest)
        ensures
            c.island_id@ == self.island_id@,
            c.entity_count == self.entity_count,
            c.wasm_module@ == self.wasm_module@,
            c.initial_state@ == self.initial_state@,
    {
        let mut initial_state: Vec<u8> = Vec::new();
        crate::wire::push_bytes(&mut initial_state, self.initial_state.as_slice());
        IslandManifest {
            island_id: IslandId::new(self.island_id.as_str()),
            entity_count: self.entity_count,
            wasm_module: self.wasm_module.clone(),
            initial_state,
        }
    }
}

/// Serialized snapshot of an island's full state.
#[derive(Debug, Clone)]
pub struct IslandSnapshot {
    pub island_id: IslandId,
    pub tick: u64,
    pub state: Vec<u8>,
}

/// An effect produced by a tick (e.g., spawning an entity, sending a message).
#[derive(Debug, Clone)]
pub struct Effect {
    pub kind: EffectKind,
    pub payload: Vec<u8>,
}

/// Discriminant for effect types.
#[derive(Debug, Clone, Copy, PartialEq, Eq, Structural)]
pub enum EffectKind {
    SpawnEntity,
    DespawnEntity,
    SendMessage,
    EmitEvent,
}

} // verus!
