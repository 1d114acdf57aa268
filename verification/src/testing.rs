//! Helpers for exercising the server in tests.
use vstd::prelude::*;
use std::sync::atomic::AtomicU64;
use std::sync::Arc;
use crate::auth::{next_count, AuthRequest, AuthResponse, AuthValidator};
use crate::checkpoint::codec::copy_bytes;
use crate::error::EndpointError;
use crate::tick::engine::{tick_outcome, TickEngine, TICK_LIMIT};
use crate::tick::types::{
    opt_session, BridgeEffect, BridgeMessage, ClientInput, EntityView, HandleResult, NoopWasmExecutor, SessionId,
    TickEngineConfig, TickMessage, WasmExecutor, WasmTrap,
};
use crate::types::{EntitySlot, IslandId};

verus! {

/// Validator for tests: accepts all connections with auto-incrementing session IDs.
pub struct TestValidator {
    counter: AtomicU64,
}

impl TestValidator {
    pub fn new() -> Arc<TestValidator> {
        Arc::new(TestValidator { counter: AtomicU64::new(1) })
    }
}

impl AuthValidator for TestValidator {
    fn validate(&self, _req: &AuthRequest) -> (r: Result<AuthResponse, EndpointError>)
        ensures
            r matches Ok(resp) && resp.accepted && resp.reason@.len() == 0,
    {
        let session_id = next_count(&self.counter);
        Ok(AuthResponse { session_id, accepted: true, reason: String::new() })
    }
}

} // verus!

verus! {

/// Executor for tests: each message increments the first byte of the entity's state
/// (wrapping); an entity with empty state traps on the out-of-bounds access.
pub struct IncrementWasm;

impl WasmExecutor for IncrementWasm {
    /// The first byte goes up by one (wrapping); an empty state traps out of bounds.
    open spec fn answers(&self, entity: EntitySlot, state: Seq<u8>, message: TickMessage, r: Result<HandleResult, WasmTrap>) -> bool {
        &&& state.len() == 0 ==> r == Err::<HandleResult, WasmTrap>(WasmTrap::OutOfBounds)
        &&& state.len() > 0 ==> (r matches Ok(h) && h.state@ == state.update(0, (state[0] + 1) as u8)
            && h.effects@.len() == 0)
    }

    fn call_handle_message(&mut self, _entity: EntitySlot, state: &[u8], _message: &TickMessage) -> (r: Result<
        HandleResult,
        WasmTrap,
    >)
        ensures
            state@.len() == 0 ==> r == Err::<HandleResult, WasmTrap>(WasmTrap::OutOfBounds),
            state@.len() > 0 ==> (r matches Ok(h) && h.state@ == state@.update(0, (state@[0] + 1) as u8)
                && h.effects@.len() == 0),
    {
        if state.len() == 0 {
            return Err(WasmTrap::OutOfBounds);
        }
        let mut next = copy_bytes(state);
        let first = next[0];
        next.set(0, first.wrapping_add(1));
        proof {
            assert(first.wrapping_add(1) == (first + 1) as u8) by (bit_vector);
        }
        Ok(HandleResult { state: next, effects: Vec::new() })
    }
}

/// A tick engine driven by hand, for deterministic tests: inputs queue up until the next
/// tick, which runs them.
pub struct TestHarness<W: WasmExecutor> {
    engine: TickEngine<W>,
    pending: Vec<ClientInput>,
}

impl<W: WasmExecutor> TestHarness<W> {
    pub closed spec fn engine_spec(&self) -> TickEngine<W> {
        self.engine
    }

    /// The inputs waiting for the next tick.
    pub closed spec fn pending_spec(&self) -> Seq<ClientInput> {
        self.pending@
    }

    pub closed spec fn wf(&self) -> bool {
        self.engine.wf()
    }

    /// Executes one tick on the queued inputs and advances the counter.
    pub fn tick(&mut self)
        requires
            old(self).wf(),
            old(self).engine_spec().tick_spec() < TICK_LIMIT,
        ensures
            final(self).wf(),
            final(self).engine_spec().tick_spec() == old(self).engine_spec().tick_spec() + 1,
            final(self).pending_spec().len() == 0,
            exists|c: Option<Vec<u8>>| tick_outcome(
                old(self).engine_spec(),
                final(self).engine_spec(),
                old(self).pending_spec(),
                seq![],
                c,
            ),
    {
        let mut inputs: Vec<ClientInput> = Vec::new();
        std::mem::swap(&mut inputs, &mut self.pending);
        let none: Vec<BridgeMessage> = Vec::new();
        assert(none@ =~= seq![]);
        let ghost queued = inputs@;
        let checkpoint = self.engine.tick(inputs, none);
        proof {
            assert(queued == old(self).pending_spec());
            assert(tick_outcome(old(self).engine_spec(), self.engine_spec(), queued, seq![], checkpoint));
        }
    }

    /// Executes `n` ticks with no input.
    pub fn tick_n(&mut self, n: u32)
        requires
            old(self).wf(),
            old(self).engine_spec().tick_spec() + n <= TICK_LIMIT,
        ensures
            final(self).wf(),
            final(self).engine_spec().tick_spec() == old(self).engine_spec().tick_spec() + n,
            final(self).pending_spec() == old(self).pending_spec(),
    {
        let _checkpoints = self.engine.tick_n(n);
    }

    /// Queues a client input for the next tick.
    pub fn send_input(&mut self, input: ClientInput)
        requires
            old(self).wf(),
        ensures
            final(self).wf(),
            final(self).pending_spec() == old(self).pending_spec().push(input),
            final(self).engine_spec() == old(self).engine_spec(),
    {
        self.pending.push(input);
    }

    /// Adds an entity to the engine.
    pub fn add_entity(&mut self, slot: EntitySlot, state: Vec<u8>, owner: Option<SessionId>)
        requires
            old(self).wf(),
        ensures
            final(self).wf(),
            final(self).engine_spec().entities_spec() == old(self).engine_spec().entities_spec().insert(
                slot.0,
                EntityView {
                    slot: slot.0,
                    state: state@,
                    owner_session: opt_session(owner),
                    dirty: true,
                    init_state: state@,
                    checkpoint_state: None,
                },
            ),
            final(self).engine_spec().tick_spec() == old(self).engine_spec().tick_spec(),
            final(self).pending_spec() == old(self).pending_spec(),
    {
        self.engine.add_entity(slot, state, owner);
    }

    /// Takes the bridge effects of the last tick.
    pub fn take_effects(&mut self) -> (effects: Vec<BridgeEffect>)
        requires
            old(self).wf(),
        ensures
            final(self).wf(),
            effects@ == old(self).engine_spec().effects_spec(),
            final(self).engine_spec().tick_spec() == old(self).engine_spec().tick_spec(),
            final(self).engine_spec().entities_spec() == old(self).engine_spec().entities_spec(),
            final(self).pending_spec() == old(self).pending_spec(),
    {
        self.engine.take_effects()
    }

    /// The number of the next tick.
    pub fn current_tick(&self) -> (t: u64)
        ensures
            t == self.engine_spec().tick_spec(),
    {
        self.engine.current_tick()
    }

    /// The number of the last tick run (0 before any).
    pub fn last_completed_tick(&self) -> (t: u64)
        ensures
            t == (if self.engine_spec().tick_spec() == 0 { 0 } else { (self.engine_spec().tick_spec() - 1) as u64 }),
    {
        self.engine.current_tick().saturating_sub(1)
    }

    /// The state of the entity at `slot`.
    pub fn get_entity_state(&self, slot: &EntitySlot) -> (r: Option<&[u8]>)
        requires
            self.wf(),
        ensures
            self.engine_spec().entities_spec().contains_key(slot.0) ==> (r matches Some(b) && b@
                == self.engine_spec().entities_spec()[slot.0].state),
            !self.engine_spec().entities_spec().contains_key(slot.0) ==> r is None,
    {
        self.engine.get_entity_state(slot)
    }

    /// The entities' slots, in ascending order.
    pub fn entity_slots(&self) -> (slots: Vec<EntitySlot>)
        requires
            self.wf(),
        ensures
            slots@.len() == self.engine_spec().entities_spec().len(),
            forall|i: int, j: int| 0 <= i < j < slots@.len() ==> (#[trigger] slots@[i]).0 < (#[trigger] slots@[j]).0,
            forall|k: u32| #[trigger] self.engine_spec().entities_spec().contains_key(k) <==> exists|i: int|
                0 <= i < slots@.len() && slots@[i].0 == k,
    {
        self.engine.entity_slots()
    }

    /// How many entities the engine holds.
    pub fn entity_count(&self) -> (n: usize)
        requires
            self.wf(),
        ensures
            n == self.engine_spec().entities_spec().len(),
    {
        self.engine.entity_count()
    }

    /// The engine itself.
    pub fn engine(&self) -> (e: &TickEngine<W>)
        ensures
            *e == self.engine_spec(),
    {
        &self.engine
    }
}

/// Settings for a `TestHarness`: 20 Hz, up to 3 catch-up ticks, island "test-island".
pub struct TestHarnessBuilder {
    pub tick_rate_hz: u8,
    pub max_catchup_ticks: u32,
    pub island_id: IslandId,
}

impl TestHarnessBuilder {
    pub fn new() -> (b: TestHarnessBuilder)
        ensures
            b.tick_rate_hz == 20,
            b.max_catchup_ticks == 3,
            b.island_id@ == "test-island"@,
    {
        TestHarnessBuilder { tick_rate_hz: 20, max_catchup_ticks: 3, island_id: IslandId::new("test-island") }
    }

    pub fn tick_rate(self, hz: u8) -> (b: TestHarnessBuilder)
        ensures
            b.tick_rate_hz == hz,
            b.max_catchup_ticks == self.max_catchup_ticks,
            b.island_id == self.island_id,
    {
        TestHarnessBuilder { tick_rate_hz: hz, ..self }
    }

    pub fn max_catchup(self, n: u32) -> (b: TestHarnessBuilder)
        ensures
            b.tick_rate_hz == self.tick_rate_hz,
            b.max_catchup_ticks == n,
            b.island_id == self.island_id,
    {
        TestHarnessBuilder { max_catchup_ticks: n, ..self }
    }

    pub fn island_id(self, id: &str) -> (b: TestHarnessBuilder)
        ensures
            b.tick_rate_hz == self.tick_rate_hz,
            b.max_catchup_ticks == self.max_catchup_ticks,
            b.island_id@ == id@,
    {
        TestHarnessBuilder { island_id: IslandId::new(id), ..self }
    }

    /// A harness around a fresh engine running `wasm`.
    pub fn build_with<W: WasmExecutor>(self, wasm: W) -> (h: TestHarness<W>)
        ensures
            h.wf(),
            h.engine_spec().tick_spec() == 0,
            h.engine_spec().island_spec() == self.island_id@,
            h.engine_spec().config_spec() == (TickEngineConfig {
                tick_rate_hz: self.tick_rate_hz,
                max_catchup_ticks: self.max_catchup_ticks,
            }),
            h.engine_spec().entities_spec() == Map::<u32, EntityView>::empty(),
            h.pending_spec().len() == 0,
    {
        let config = TickEngineConfig { tick_rate_hz: self.tick_rate_hz, max_catchup_ticks: self.max_catchup_ticks };
        TestHarness { engine: TickEngine::new(self.island_id, config, wasm), pending: Vec::new() }
    }

    /// A harness whose handlers leave states unchanged.
    pub fn build(self) -> (h: TestHarness<NoopWasmExecutor>)
        ensures
            h.wf(),
            h.engine_spec().tick_spec() == 0,
            h.engine_spec().config_spec() == (TickEngineConfig {
                tick_rate_hz: self.tick_rate_hz,
                max_catchup_ticks: self.max_catchup_ticks,
            }),
            h.pending_spec().len() == 0,
    {
        self.build_with(NoopWasmExecutor)
    }
}

} // verus!
