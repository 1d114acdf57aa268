//! Messages, effects and state exchanged between the tick engine and entity handlers.
use vstd::prelude::*;
use crate::types::{EntitySlot, IslandId};

verus! {

pub type CorrelationId = [u8; 16];

/// Stable client identifier.
#[derive(Debug, Clone, Hash)]
pub struct SessionId(String);

impl View for SessionId {
    type V = Seq<char>;

    closed spec fn view(&self) -> Seq<char> {
        self.0@
    }
}

impl SessionId {
    pub fn new(s: &str) -> (id: SessionId)
        ensures
            id@ == s@,
    {
        SessionId(String::from_str(s))
    }

    pub fn from_string(s: String) -> (id: SessionId)
        ensures
            id@ == s@,
    {
        SessionId(s)
    }

    pub fn as_str(&self) -> (s: &str)
        ensures
            s@ == self@,
    {
        self.0.as_str()
    }

    /// Whether two ids name the same session.
    pub fn same(&self, other: &SessionId) -> (b: bool)
        ensures
            b == (self@ == other@),
    {
        self.0 == other.0
    }

    /// A copy of the id.
    pub fn duplicate(&self) -> (c: SessionId)
        ensures
            c@ == self@,
    {
        SessionId(self.0.clone())
    }
}

impl PartialEq for SessionId {
    fn eq(&self, other: &SessionId) -> (b: bool) {
        self.0 == other.0
    }
}

impl vstd::std_specs::cmp::PartialEqSpecImpl for SessionId {
    open spec fn obeys_eq_spec() -> bool {
        true
    }

    open spec fn eq_spec(&self, other: &SessionId) -> bool {
        self@ == other@
    }
}

impl Eq for SessionId {
}

impl From<&str> for SessionId {
    fn from(s: &str) -> (id: SessionId) {
        SessionId::new(s)
    }
}

impl vstd::std_specs::convert::FromSpecImpl<&str> for SessionId {
    open spec fn obeys_from_spec() -> bool {
        false
    }

    open spec fn from_spec(v: &str) -> SessionId {
        choose|id: SessionId| id@ == v@
    }
}

impl From<String> for SessionId {
    fn from(s: String) -> (id: SessionId) {
        SessionId::from_string(s)
    }
}

impl vstd::std_specs::convert::FromSpecImpl<String> for SessionId {
    open spec fn obeys_from_spec() -> bool {
        false
    }

    open spec fn from_spec(v: String) -> SessionId {
        choose|id: SessionId| id@ == v@
    }
}

pub struct EntityState {
    pub slot: EntitySlot,
    pub state: Vec<u8>,
    pub owner_session: Option<SessionId>,
    /// Set when state changes; cleared after checkpoint snapshot is taken.
    pub dirty: bool,
    pub init_state: Vec<u8>,
    pub checkpoint_state: Option<Vec<u8>>,
}

#[verifier::ext_equal]
pub struct EntityView {
    pub slot: u32,
    pub state: Seq<u8>,
    pub owner_session: Option<Seq<char>>,
    pub dirty: bool,
    pub init_state: Seq<u8>,
    pub checkpoint_state: Option<Seq<u8>>,
}

pub open spec fn opt_session(o: Option<SessionId>) -> Option<Seq<char>> {
    match o {
        Some(s) => Some(s@),
        None => None,
    }
}

pub open spec fn opt_bytes(o: Option<Vec<u8>>) -> Option<Seq<u8>> {
    match o {
        Some(b) => Some(b@),
        None => None,
    }
}

impl View for EntityState {
    type V = EntityView;

    open spec fn view(&self) -> EntityView {
        EntityView {
            slot: self.slot.0,
            state: self.state@,
            owner_session: opt_session(self.owner_session),
            dirty: self.dirty,
            init_state: self.init_state@,
            checkpoint_state: opt_bytes(self.checkpoint_state),
        }
    }
}

#[derive(Debug, Clone)]
pub struct ClientInput {
    pub session_id: SessionId,
    pub entity_slot: EntitySlot,
    pub input_seq: u32,
    pub payload: Vec<u8>,
}

#[derive(Debug, Clone)]
pub struct BridgeMessage {
    pub target_entity: EntitySlot,
    pub kind: BridgeMessageKind,
    pub payload: Vec<u8>,
}

#[derive(Debug, Clone, Copy)]
pub enum BridgeMessageKind {
    OneWay,
    Request { correlation_id: CorrelationId },
    SagaFailed { correlation_id: CorrelationId },
}

/// Messages delivered to entities during a tick.
/// Added to per-entity queues in priority order: Timer > Bridge > Input > Deferred.
#[derive(Debug, Clone)]
pub enum TickMessage {
    Timer { name: String },
    Bridge { payload: Vec<u8> },
    Input { session_id: SessionId, input_seq: u32, payload: Vec<u8> },
    Deferred { source: EntitySlot, payload: Vec<u8> },
    BridgeRequest { correlation_id: CorrelationId, payload: Vec<u8> },
    SagaFailed { correlation_id: CorrelationId },
}

/// Effects returned from WASM handle_message execution.
///
/// Positions and velocities are carried as the IEEE-754 bit patterns of their `f32`
/// components (`f32::to_bits`); the engine never computes with them.
#[derive(Debug, Clone)]
pub enum TickEffect {
    Send { target: EntitySlot, payload: Vec<u8> },
    SendRemote { target: String, payload: Vec<u8> },
    Persist,
    SetTimer { name: String, delay_ms: u32 },
    CancelTimer(String),
    EmitTelemetry { event: String },
    Reply(Vec<u8>),
    StopSelf,
    RequestRemote { target: String, payload: Vec<u8> },
    FireAndForget { target: String, payload: Vec<u8> },
    /// WASM emits this to initiate a zone transfer for a player.
    ZoneTransfer {
        player_id: String,
        target_zone: IslandId,
        position_bits: [u32; 3],
        velocity_bits: [u32; 3],
        /// Encoded `Vec<BuffState>` — opaque to the tick engine.
        buffs: Vec<u8>,
    },
}

#[derive(Debug, Clone)]
pub struct DeferredSend {
    pub source: EntitySlot,
    pub target: EntitySlot,
    pub payload: Vec<u8>,
}

/// Result of a WASM handle_message call.
pub struct HandleResult {
    pub state: Vec<u8>,
    pub effects: Vec<TickEffect>,
}

#[derive(Debug, Clone, Copy, PartialEq, Eq, Structural)]
pub enum WasmTrap {
    EpochDeadline,
    OutOfBounds,
    StackOverflow,
    StoreCorruption,
}

impl WasmTrap {
    /// Human-readable description of the trap.
    pub fn to_string(&self) -> (s: String)
        ensures
            s@ == (match self {
                WasmTrap::EpochDeadline => "epoch deadline exceeded"@,
                WasmTrap::OutOfBounds => "out-of-bounds memory access"@,
                WasmTrap::StackOverflow => "stack overflow"@,
                WasmTrap::StoreCorruption => "store corruption"@,
            }),
    {
        match self {
            WasmTrap::EpochDeadline => String::from_str("epoch deadline exceeded"),
            WasmTrap::OutOfBounds => String::from_str("out-of-bounds memory access"),
            WasmTrap::StackOverflow => String::from_str("stack overflow"),
            WasmTrap::StoreCorruption => String::from_str("store corruption"),
        }
    }
}

/// Execution of entity handlers, supplied by the game.
pub trait WasmExecutor {
    /// Whether `r` is an answer this executor gives to `message` for `entity` in
    /// `state`. An executor that says nothing of its answers admits every one.
    open spec fn answers(&self, entity: EntitySlot, state: Seq<u8>, message: TickMessage, r: Result<HandleResult, WasmTrap>) -> bool {
        true
    }

    fn call_handle_message(&mut self, entity: EntitySlot, state: &[u8], message: &TickMessage) -> (r: Result<
        HandleResult,
        WasmTrap,
    >)
        ensures
            old(self).answers(entity, state@, *message, r),
    ;

    /// The client-supplied input sequence number carried by an input payload, when the
    /// game encodes one there.
    fn extract_client_input_seq(&self, payload: &[u8]) -> (seq: Option<u32>)
        default_ensures
            seq is None,
    {
        None
    }
}

/// No-op executor that returns state unchanged with no effects.
pub struct NoopWasmExecutor;

impl WasmExecutor for NoopWasmExecutor {
    /// The state comes back unchanged, with no effects.
    open spec fn answers(&self, entity: EntitySlot, state: Seq<u8>, message: TickMessage, r: Result<HandleResult, WasmTrap>) -> bool {
        r matches Ok(h) && h.state@ == state && h.effects@.len() == 0
    }

    fn call_handle_message(&mut self, entity: EntitySlot, state: &[u8], message: &TickMessage) -> (r: Result<
        HandleResult,
        WasmTrap,
    >)
        ensures
            r matches Ok(h) && h.state@ == state@ && h.effects@.len() == 0,
    {
        let mut copy: Vec<u8> = Vec::new();
        crate::wire::push_bytes(&mut copy, state);
        Ok(HandleResult { state: copy, effects: Vec::new() })
    }
}

/// Effects routed outward from the tick engine (to bridge, checkpoint writer, etc.).
#[derive(Debug, Clone)]
pub enum BridgeEffect {
    SendRemote { target: String, payload: Vec<u8> },
    Persist { entity_states: Vec<(EntitySlot, Vec<u8>)> },
    EmitTelemetry { event: String },
    RequestRemote { source_entity: EntitySlot, target: String, payload: Vec<u8> },
    FireAndForget { target: String, payload: Vec<u8> },
    BridgeReply { correlation_id: CorrelationId, payload: Vec<u8> },
    EntityEvicted { entity: EntitySlot },
    /// A zone transfer was requested by an entity's WASM logic.
    ZoneTransferRequest {
        player_id: String,
        source_entity: EntitySlot,
        target_zone: IslandId,
        position_bits: [u32; 3],
        velocity_bits: [u32; 3],
        buffs: Vec<u8>,
    },
}

#[derive(Debug, Clone, Copy, PartialEq, Eq, Structural)]
pub struct TickEngineConfig {
    pub tick_rate_hz: u8,
    pub max_catchup_ticks: u32,
}

impl TickEngineConfig {
    pub fn default_config() -> (c: TickEngineConfig)
        ensures
            c == (TickEngineConfig { tick_rate_hz: 20, max_catchup_ticks: 3 }),
    {
        TickEngineConfig { tick_rate_hz: 20, max_catchup_ticks: 3 }
    }
}

impl Default for TickEngineConfig {
    fn default() -> (c: TickEngineConfig)
        ensures
            c == (TickEngineConfig { tick_rate_hz: 20, max_catchup_ticks: 3 }),
    {
        TickEngineConfig::default_config()
    }
}

} // verus!
