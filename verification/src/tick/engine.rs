//! The per-island tick engine: a fixed-timestep loop over six phases.
//!
//! 1. Drain inputs (the newest input of each session, per sequence number)
//! 2. Fire timers
//! 3. Build per-entity message queues (priority: Timer > Bridge > Input > Deferred)
//! 4. Simulate (the game's `handle_message` per entity, in ascending slot order)
//! 5. Batch effects (persist coalescing, deferred sends)
//! 6. Hand the tick's outward effects and snapshot to the caller
//!
//! The engine owns no channel, thread or clock: the caller drains input, bridge and
//! command channels, hands their messages to `execute_tick` and `handle_command`, and
//! delivers what comes back.
use vstd::prelude::*;
use crate::checkpoint::codec::{
    CheckpointEntity, CheckpointPayload, EntityRecord, bitcode_records, bitcode_records_of,
    checkpoint_bytes, copy_bytes, copy_opt_text, decode_records, encode_checkpoint, encode_records,
    opt_text, records_of, tuple_records,
};
use crate::keyed::{ascending, as_map, has, index_of, lemma_index_of, lemma_insert, lemma_remove, lemma_update};
use crate::types::{EntitySlot, IslandId, IslandSnapshot};
use super::fault::{
    ActorHealthState, FaultEntry, FaultTracker, TrapResponse, EVICTION_THRESHOLD, after_fault,
    after_success, fault_count, health, may_tick, trap_response,
};
use super::timer::{TimerManager, delay_ticks, fired_keys};
use super::types::{
    BridgeEffect, BridgeMessage, BridgeMessageKind, ClientInput, CorrelationId, DeferredSend,
    EntityState, EntityView, HandleResult, SessionId, TickEffect, TickEngineConfig, TickMessage,
    WasmExecutor, opt_bytes, opt_session,
    WasmTrap,
};

verus! {

/// Maximum effects a single `handle_message` call may produce.
pub const MAX_EFFECTS_PER_CALL: usize = 64;

/// Maximum deferred sends that can accumulate between ticks.
pub const MAX_DEFERRED_SENDS: usize = 4096;

/// Maximum entity count accepted from a passivation snapshot.
pub const MAX_SNAPSHOT_ENTITIES: usize = 10_000;

/// Maximum entity state size accepted from a passivation snapshot (1 MB).
pub const MAX_SNAPSHOT_ENTITY_STATE: usize = 1_048_576;

/// Maximum number of auxiliary snapshot subscribers per engine.
pub const MAX_SNAPSHOT_SUBSCRIBERS: usize = 16;

/// Maximum number of client inputs the caller drains from the input channel per tick;
/// the rest stay queued for later ticks.
pub const MAX_INPUTS_PER_TICK: usize = 512;

/// Ticks beyond this are not counted; a 1 kHz island takes half a billion years to reach it.
pub const TICK_LIMIT: u64 = 0xFFFF_FFFF_0000_0000;

pub open spec fn entity_key() -> spec_fn(EntityState) -> u32 {
    |e: EntityState| e.slot.0
}

pub open spec fn record_key() -> spec_fn(CheckpointEntity) -> u32 {
    |e: CheckpointEntity| e.slot
}

pub open spec fn seq_key() -> spec_fn((EntitySlot, u32)) -> u32 {
    |e: (EntitySlot, u32)| e.0.0
}

/// Session sequence numbers, keyed by session.
pub open spec fn input_seq_view(s: Seq<(SessionId, u32)>) -> Seq<(Seq<char>, u32)> {
    s.map_values(|e: (SessionId, u32)| (e.0@, e.1))
}

pub open spec fn distinct_sessions(s: Seq<(Seq<char>, u32)>) -> bool {
    forall|i: int, j: int| 0 <= i < s.len() && 0 <= j < s.len() && i != j ==> (#[trigger] s[i]).0 != (#[trigger] s[j]).0
}

/// The last accepted input sequence number of a session (0 for a new session).
pub open spec fn last_seq(s: Seq<(Seq<char>, u32)>, k: Seq<char>) -> u32 {
    if exists|i: int| 0 <= i < s.len() && (#[trigger] s[i]).0 == k {
        s[choose|i: int| 0 <= i < s.len() && (#[trigger] s[i]).0 == k].1
    } else {
        0
    }
}

/// Records `v` as the session's sequence number, adding the session when it is new.
pub open spec fn set_seq(s: Seq<(Seq<char>, u32)>, k: Seq<char>, v: u32) -> Seq<(Seq<char>, u32)> {
    if exists|i: int| 0 <= i < s.len() && (#[trigger] s[i]).0 == k {
        s.update(choose|i: int| 0 <= i < s.len() && (#[trigger] s[i]).0 == k, (k, v))
    } else {
        s.push((k, v))
    }
}

/// Phase 1: of `ins`, in order, the inputs whose sequence number is above the last one
/// accepted from their session, and the sequence numbers afterwards.
pub open spec fn fresh_inputs(last: Seq<(Seq<char>, u32)>, ins: Seq<ClientInput>) -> (Seq<ClientInput>, Seq<(Seq<char>, u32)>)
    decreases ins.len(),
{
    if ins.len() == 0 {
        (seq![], last)
    } else {
        let (kept, l) = fresh_inputs(last, ins.drop_last());
        let x = ins.last();
        let prev = last_seq(l, x.session_id@);
        if x.input_seq > prev {
            (kept.push(x), set_seq(l, x.session_id@, x.input_seq))
        } else {
            (kept, set_seq(l, x.session_id@, prev))
        }
    }
}

/// Splits a handler's effects: replies to a bridge request become bridge replies under
/// its correlation id; the rest stay with the entity.
pub open spec fn is_reply(e: TickEffect) -> bool {
    e is Reply
}

pub open spec fn not_reply() -> spec_fn(TickEffect) -> bool {
    |e: TickEffect| !is_reply(e)
}

pub open spec fn only_reply() -> spec_fn(TickEffect) -> bool {
    |e: TickEffect| is_reply(e)
}

pub open spec fn as_bridge_reply(cid: CorrelationId, e: TickEffect) -> BridgeEffect {
    match e {
        TickEffect::Reply(payload) => BridgeEffect::BridgeReply { correlation_id: cid, payload },
        _ => BridgeEffect::EmitTelemetry { event: arbitrary() },
    }
}

pub open spec fn bridge_replies(cid: CorrelationId, effects: Seq<TickEffect>) -> Seq<BridgeEffect> {
    effects.filter(only_reply()).map_values(|e: TickEffect| as_bridge_reply(cid, e))
}

proof fn lemma_filter_push<A>(s: Seq<A>, p: spec_fn(A) -> bool, x: A)
    ensures
        s.push(x).filter(p) == (if p(x) {
            s.filter(p).push(x)
        } else {
            s.filter(p)
        }),
{
    reveal(Seq::filter);
    assert(s.push(x).drop_last() =~= s);
}

/// Routes a handler's effects: without a bridge correlation id all stay with the entity;
/// with one, each `Reply` becomes a `BridgeReply` under that id, in order, and the others
/// stay, in order.
pub fn route_effects(effects: Vec<TickEffect>, bridge_cid: Option<CorrelationId>) -> (r: (
    Vec<BridgeEffect>,
    Vec<TickEffect>,
))
    ensures
        bridge_cid is None ==> r.0@ == Seq::<BridgeEffect>::empty() && r.1@ == effects@,
        bridge_cid matches Some(cid) ==> r.0@ == bridge_replies(cid, effects@) && r.1@ == effects@.filter(
            not_reply(),
        ),
{
    let cid = match bridge_cid {
        None => {
            return (Vec::new(), effects);
        },
        Some(c) => c,
    };
    let mut bridge: Vec<BridgeEffect> = Vec::new();
    let mut remaining: Vec<TickEffect> = Vec::new();
    let mut effects = effects;
    let ghost all = effects@;
    let mut taken: usize = 0;
    let n = effects.len();
    assert(all.len() == n);
    while effects.len() > 0
        invariant
            taken + effects@.len() == all.len(),
            all.len() <= usize::MAX,
            effects@ == all.skip(taken as int),
            bridge@ == bridge_replies(cid, all.take(taken as int)),
            remaining@ == all.take(taken as int).filter(not_reply()),
        decreases effects.len(),
    {
        let ghost before = effects@;
        let e = effects.remove(0);
        proof {
            assert(e == all[taken as int]) by {
                assert(before[0] == all.skip(taken as int)[0]);
            }
            assert(effects@ =~= all.skip(taken + 1));
            assert(all.take(taken + 1) =~= all.take(taken as int).push(e));
            lemma_filter_push(all.take(taken as int), not_reply(), e);
            lemma_filter_push(all.take(taken as int), only_reply(), e);
        }
        match e {
            TickEffect::Reply(payload) => {
                proof {
                    let f = all.take(taken as int).filter(only_reply());
                    assert(f.push(e).map_values(|x: TickEffect| as_bridge_reply(cid, x)) =~= f.map_values(
                        |x: TickEffect| as_bridge_reply(cid, x),
                    ).push(as_bridge_reply(cid, e)));
                }
                bridge.push(BridgeEffect::BridgeReply { correlation_id: cid, payload });
            },
            other => {
                remaining.push(other);
            },
        }
        taken = taken + 1;
    }
    assert(all.take(taken as int) =~= all);
    (bridge, remaining)
}


/// Entity views by slot.
pub open spec fn entity_views(s: Seq<EntityState>) -> Map<u32, EntityView> {
    as_map(s, entity_key()).map_values(|e: EntityState| e@)
}

/// The client input sequence number last acknowledged per entity.
pub open spec fn seq_map(s: Seq<(EntitySlot, u32)>) -> Map<u32, u32> {
    as_map(s, seq_key()).map_values(|e: (EntitySlot, u32)| e.1)
}

/// The checkpoint buffer by slot: state and owning session.
pub open spec fn buffer_map(s: Seq<CheckpointEntity>) -> Map<u32, (Seq<u8>, Option<Seq<char>>)> {
    as_map(s, record_key()).map_values(|e: CheckpointEntity| (e.state@, opt_text(e.owner_session)))
}

/// Where `slot`'s entry sits, if it has one.
fn find_client_seq(v: &Vec<(EntitySlot, u32)>, slot: u32) -> (r: Option<usize>)
    requires
        ascending(v@, seq_key()),
    ensures
        r matches Some(i) ==> i < v@.len() && v@[i as int].0.0 == slot,
        r is None <==> !seq_map(v@).contains_key(slot),
{
    let mut i: usize = 0;
    while i < v.len()
        invariant
            i <= v@.len(),
            ascending(v@, seq_key()),
            forall|j: int| 0 <= j < i ==> (#[trigger] v@[j]).0.0 != slot,
        decreases v.len() - i,
    {
        if v[i].0.0 == slot {
            proof {
                lemma_index_of(v@, seq_key(), i as int);
            }
            return Some(i);
        }
        i = i + 1;
    }
    proof {
        if has(v@, seq_key(), slot) {
            let j = choose|j: int| 0 <= j < v@.len() && seq_key()(#[trigger] v@[j]) == slot;
            assert(v@[j].0.0 == slot);
        }
    }
    None
}

/// A fixed-timestep island simulation driven by the game's `WasmExecutor`.
pub struct TickEngine<W: WasmExecutor> {
    island_id: IslandId,
    config: TickEngineConfig,
    tick: u64,
    entities: Vec<EntityState>,
    timers: TimerManager,
    fault_tracker: FaultTracker,
    deferred_sends: Vec<DeferredSend>,
    wasm: W,
    effects_out: Vec<BridgeEffect>,
    last_input_seq: Vec<(SessionId, u32)>,
    last_client_input_seq: Vec<(EntitySlot, u32)>,
    checkpointing: bool,
    checkpoint_interval_ticks: u64,
    last_checkpoint_tick: u64,
    snapshot_buffer: Vec<CheckpointEntity>,
}

impl<W: WasmExecutor> TickEngine<W> {
    pub closed spec fn tick_spec(&self) -> u64 {
        self.tick
    }

    pub closed spec fn config_spec(&self) -> TickEngineConfig {
        self.config
    }

    pub closed spec fn island_spec(&self) -> Seq<char> {
        self.island_id@
    }

    /// The entities, in ascending slot order.
    pub closed spec fn entity_seq(&self) -> Seq<EntityState> {
        self.entities@
    }

    /// Each entity's view, by slot.
    pub closed spec fn entities_spec(&self) -> Map<u32, EntityView> {
        entity_views(self.entities@)
    }

    pub closed spec fn timers_spec(&self) -> Map<(u32, Seq<char>), u64> {
        self.timers@
    }

    pub closed spec fn faults_spec(&self) -> Map<u32, FaultEntry> {
        self.fault_tracker@
    }

    pub closed spec fn deferred_spec(&self) -> Seq<DeferredSend> {
        self.deferred_sends@
    }

    /// The outward effects gathered since the last `take_effects`.
    pub closed spec fn effects_spec(&self) -> Seq<BridgeEffect> {
        self.effects_out@
    }

    /// The last input sequence number accepted per session.
    pub closed spec fn input_seqs_spec(&self) -> Seq<(Seq<char>, u32)> {
        input_seq_view(self.last_input_seq@)
    }

    /// The last client input sequence number each entity's handler processed.
    pub closed spec fn client_seqs_spec(&self) -> Map<u32, u32> {
        seq_map(self.last_client_input_seq@)
    }

    /// The checkpoint buffer: the state each entity had at its last checkpoint.
    pub closed spec fn buffer_spec(&self) -> Map<u32, (Seq<u8>, Option<Seq<char>>)> {
        buffer_map(self.snapshot_buffer@)
    }

    pub closed spec fn checkpointing_spec(&self) -> bool {
        self.checkpointing
    }

    pub closed spec fn checkpoint_interval_spec(&self) -> u64 {
        self.checkpoint_interval_ticks
    }

    pub closed spec fn last_checkpoint_spec(&self) -> u64 {
        self.last_checkpoint_tick
    }

    /// The entity handlers' executor.
    pub closed spec fn wasm_spec(&self) -> W {
        self.wasm
    }

    pub closed spec fn wf(&self) -> bool {
        &&& ascending(self.entities@, entity_key())
        &&& self.timers.wf()
        &&& self.timers.tick_rate_hz() == self.config.tick_rate_hz
        &&& self.timers.current_tick() < TICK_LIMIT
        &&& self.fault_tracker.wf()
        &&& forall|e: u32| #[trigger] self.fault_tracker@.contains_key(e) ==> self.fault_tracker@[e].consecutive_faults
            <= EVICTION_THRESHOLD
        &&& distinct_sessions(input_seq_view(self.last_input_seq@))
        &&& ascending(self.last_client_input_seq@, seq_key())
        &&& ascending(self.snapshot_buffer@, record_key())
        &&& self.deferred_sends@.len() <= MAX_DEFERRED_SENDS
    }

    /// A fresh engine at tick 0 with no entities.
    pub fn new(island_id: IslandId, config: TickEngineConfig, wasm: W) -> (e: TickEngine<W>)
        ensures
            e.wf(),
            e.tick_spec() == 0,
            e.island_spec() == island_id@,
            e.config_spec() == config,
            e.entities_spec() == Map::<u32, EntityView>::empty(),
            e.timers_spec() == Map::<(u32, Seq<char>), u64>::empty(),
            e.faults_spec() == Map::<u32, FaultEntry>::empty(),
            e.deferred_spec() == Seq::<DeferredSend>::empty(),
            e.effects_spec() == Seq::<BridgeEffect>::empty(),
            e.input_seqs_spec() == Seq::<(Seq<char>, u32)>::empty(),
            e.client_seqs_spec() == Map::<u32, u32>::empty(),
            e.buffer_spec() == Map::<u32, (Seq<u8>, Option<Seq<char>>)>::empty(),
            !e.checkpointing_spec(),
    {
        let tick_rate_hz = config.tick_rate_hz;
        let e = TickEngine {
            island_id,
            config,
            tick: 0,
            entities: Vec::new(),
            timers: TimerManager::new(tick_rate_hz),
            fault_tracker: FaultTracker::new(),
            deferred_sends: Vec::new(),
            wasm,
            effects_out: Vec::new(),
            last_input_seq: Vec::new(),
            last_client_input_seq: Vec::new(),
            checkpointing: false,
            checkpoint_interval_ticks: 0,
            last_checkpoint_tick: 0,
            snapshot_buffer: Vec::new(),
        };
        assert(e.entities_spec() =~= Map::<u32, EntityView>::empty());
        assert(e.client_seqs_spec() =~= Map::<u32, u32>::empty());
        assert(e.buffer_spec() =~= Map::<u32, (Seq<u8>, Option<Seq<char>>)>::empty());
        assert(e.input_seqs_spec() =~= Seq::<(Seq<char>, u32)>::empty());
        e
    }

    /// Where `slot` sits among the entities: `Ok` with its index, or `Err` with the index
    /// it would be inserted at.
    fn find_entity(&self, slot: u32) -> (r: Result<usize, usize>)
        requires
            ascending(self.entities@, entity_key()),
        ensures
            r matches Ok(i) ==> i < self.entities@.len() && self.entities@[i as int].slot.0 == slot,
            r matches Err(p) ==> p <= self.entities@.len() && (forall|j: int| 0 <= j < p ==> (#[trigger] self.entities@[j]).slot.0
                < slot) && (forall|j: int| p <= j < self.entities@.len() ==> slot < (#[trigger] self.entities@[j]).slot.0),
            r is Err <==> !self.entities_spec().contains_key(slot),
    {
        let mut i: usize = 0;
        while i < self.entities.len()
            invariant
                i <= self.entities@.len(),
                ascending(self.entities@, entity_key()),
                forall|j: int| 0 <= j < i ==> (#[trigger] self.entities@[j]).slot.0 < slot,
            decreases self.entities.len() - i,
        {
            let k = self.entities[i].slot.0;
            if k == slot {
                proof {
                    lemma_index_of(self.entities@, entity_key(), i as int);
                }
                return Ok(i);
            }
            if k > slot {
                proof {
                    assert forall|j: int| i <= j < self.entities@.len() implies slot < (#[trigger] self.entities@[j]).slot.0 by {
                        if j > i {
                            assert(entity_key()(self.entities@[i as int]) < entity_key()(self.entities@[j]));
                        }
                    }
                    if has(self.entities@, entity_key(), slot) {
                        let j = choose|j: int| 0 <= j < self.entities@.len() && entity_key()(#[trigger] self.entities@[j]) == slot;
                        assert(self.entities@[j].slot.0 == slot);
                    }
                }
                return Err(i);
            }
            i = i + 1;
        }
        proof {
            if has(self.entities@, entity_key(), slot) {
                let j = choose|j: int| 0 <= j < self.entities@.len() && entity_key()(#[trigger] self.entities@[j]) == slot;
                assert(self.entities@[j].slot.0 < slot);
            }
        }
        Err(i)
    }

    /// Stores `e` under its slot, replacing an entity with that slot.
    fn put_entity(&mut self, e: EntityState)
        requires
            old(self).wf(),
        ensures
            final(self).wf(),
            final(self).entities_spec() == old(self).entities_spec().insert(e.slot.0, e@),
            final(self).timer_tick() == old(self).timer_tick(),
            final(self).tick_spec() == old(self).tick_spec(),
            final(self).config_spec() == old(self).config_spec(),
            final(self).island_spec() == old(self).island_spec(),
            final(self).timers_spec() == old(self).timers_spec(),
            final(self).faults_spec() == old(self).faults_spec(),
            final(self).deferred_spec() == old(self).deferred_spec(),
            final(self).effects_spec() == old(self).effects_spec(),
            final(self).input_seqs_spec() == old(self).input_seqs_spec(),
            final(self).client_seqs_spec() == old(self).client_seqs_spec(),
            final(self).buffer_spec() == old(self).buffer_spec(),
            final(self).checkpointing_spec() == old(self).checkpointing_spec(),
            final(self).checkpoint_interval_spec() == old(self).checkpoint_interval_spec(),
            final(self).last_checkpoint_spec() == old(self).last_checkpoint_spec(),
    {
        let ghost old_s = self.entities@;
        let ghost ev = e@;
        let k = e.slot.0;
        match self.find_entity(k) {
            Ok(i) => {
                self.entities.set(i, e);
                proof {
                    lemma_update(old_s, entity_key(), i as int, self.entities@[i as int]);
                    assert(self.entities@ == old_s.update(i as int, self.entities@[i as int]));
                }
            },
            Err(p) => {
                self.entities.insert(p, e);
                proof {
                    lemma_insert(old_s, entity_key(), p as int, self.entities@[p as int]);
                    assert(self.entities@ == old_s.insert(p as int, self.entities@[p as int]));
                }
            },
        }
        proof {
            assert(entity_views(self.entities@) =~= entity_views(old_s).insert(k, ev));
        }
    }

    /// Adds (or replaces) the entity at `slot`, dirty, with `state` as its initial state
    /// and no checkpoint. A fresh occupant of a slot starts with no acknowledged client input.
    pub fn add_entity(&mut self, slot: EntitySlot, state: Vec<u8>, owner: Option<SessionId>)
        requires
            old(self).wf(),
        ensures
            final(self).wf(),
            final(self).entities_spec() == old(self).entities_spec().insert(
                slot.0,
                EntityView {
                    slot: slot.0,
                    state: state@,
                    owner_session: opt_session(owner),
                    dirty: true,
                    init_state: state@,
                    checkpoint_state: None,
                },
            ),
            final(self).client_seqs_spec() == old(self).client_seqs_spec().remove(slot.0),
            final(self).timer_tick() == old(self).timer_tick(),
            final(self).config_spec() == old(self).config_spec(),
            final(self).island_spec() == old(self).island_spec(),
            final(self).tick_spec() == old(self).tick_spec(),
            final(self).timers_spec() == old(self).timers_spec(),
            final(self).faults_spec() == old(self).faults_spec(),
            final(self).deferred_spec() == old(self).deferred_spec(),
            final(self).effects_spec() == old(self).effects_spec(),
            final(self).buffer_spec() == old(self).buffer_spec(),
            final(self).input_seqs_spec() == old(self).input_seqs_spec(),
            final(self).checkpointing_spec() == old(self).checkpointing_spec(),
            final(self).checkpoint_interval_spec() == old(self).checkpoint_interval_spec(),
            final(self).last_checkpoint_spec() == old(self).last_checkpoint_spec(),
    {
        let init_state = copy_bytes(state.as_slice());
        self.put_entity(
            EntityState { slot, state, owner_session: owner, dirty: true, init_state, checkpoint_state: None },
        );
        self.forget_client_seq(slot.0);
    }

    fn forget_client_seq(&mut self, slot: u32)
        requires
            old(self).wf(),
        ensures
            final(self).wasm_spec() == old(self).wasm_spec(),
            final(self).wf(),
            final(self).client_seqs_spec() == old(self).client_seqs_spec().remove(slot),
            final(self).entities_spec() == old(self).entities_spec(),
            final(self).entity_seq() == old(self).entity_seq(),
            final(self).timer_tick() == old(self).timer_tick(),
            final(self).tick_spec() == old(self).tick_spec(),
            final(self).config_spec() == old(self).config_spec(),
            final(self).island_spec() == old(self).island_spec(),
            final(self).timers_spec() == old(self).timers_spec(),
            final(self).faults_spec() == old(self).faults_spec(),
            final(self).deferred_spec() == old(self).deferred_spec(),
            final(self).effects_spec() == old(self).effects_spec(),
            final(self).input_seqs_spec() == old(self).input_seqs_spec(),
            final(self).buffer_spec() == old(self).buffer_spec(),
            final(self).checkpointing_spec() == old(self).checkpointing_spec(),
            final(self).checkpoint_interval_spec() == old(self).checkpoint_interval_spec(),
            final(self).last_checkpoint_spec() == old(self).last_checkpoint_spec(),
    {
        let ghost s = self.last_client_input_seq@;
        match find_client_seq(&self.last_client_input_seq, slot) {
            Some(i) => {
                self.last_client_input_seq.remove(i);
                proof {
                    lemma_remove(s, seq_key(), i as int);
                    assert(seq_map(self.last_client_input_seq@) =~= seq_map(s).remove(slot));
                }
            },
            None => {
                assert(seq_map(s).remove(slot) =~= seq_map(s));
            },
        }
    }
}


impl<W: WasmExecutor> TickEngine<W> {
    /// Removes the entity at `slot` with its timers and acknowledged client input.
    pub fn remove_entity(&mut self, slot: &EntitySlot)
        requires
            old(self).wf(),
        ensures
            final(self).wasm_spec() == old(self).wasm_spec(),
            final(self).wf(),
            final(self).entities_spec() == old(self).entities_spec().remove(slot.0),
            final(self).timers_spec() == old(self).timers_spec().restrict(
                old(self).timers_spec().dom().filter(|k: (u32, Seq<char>)| k.0 != slot.0),
            ),
            final(self).client_seqs_spec() == old(self).client_seqs_spec().remove(slot.0),
            final(self).timer_tick() == old(self).timer_tick(),
            final(self).tick_spec() == old(self).tick_spec(),
            final(self).config_spec() == old(self).config_spec(),
            final(self).island_spec() == old(self).island_spec(),
            final(self).faults_spec() == old(self).faults_spec(),
            final(self).deferred_spec() == old(self).deferred_spec(),
            final(self).effects_spec() == old(self).effects_spec(),
            final(self).input_seqs_spec() == old(self).input_seqs_spec(),
            final(self).buffer_spec() == old(self).buffer_spec(),
            final(self).checkpointing_spec() == old(self).checkpointing_spec(),
            final(self).checkpoint_interval_spec() == old(self).checkpoint_interval_spec(),
            final(self).last_checkpoint_spec() == old(self).last_checkpoint_spec(),
    {
        let ghost old_s = self.entities@;
        match self.find_entity(slot.0) {
            Ok(i) => {
                self.entities.remove(i);
                proof {
                    lemma_remove(old_s, entity_key(), i as int);
                    assert(entity_views(self.entities@) =~= entity_views(old_s).remove(slot.0));
                }
            },
            Err(_) => {
                assert(entity_views(old_s).remove(slot.0) =~= entity_views(old_s));
            },
        }
        self.timers.clear_entity(slot);
        self.forget_client_seq(slot.0);
    }

    pub fn current_tick(&self) -> (t: u64)
        ensures
            t == self.tick_spec(),
    {
        self.tick
    }

    /// The state of the entity at `slot`, if there is one.
    pub fn get_entity_state(&self, slot: &EntitySlot) -> (r: Option<&[u8]>)
        requires
            self.wf(),
        ensures
            self.entities_spec().contains_key(slot.0) ==> (r matches Some(b) && b@ == self.entities_spec()[slot.0].state),
            !self.entities_spec().contains_key(slot.0) ==> r is None,
    {
        match self.find_entity(slot.0) {
            Ok(i) => {
                proof {
                    lemma_index_of(self.entities@, entity_key(), i as int);
                }
                Some(self.entities[i].state.as_slice())
            },
            Err(_) => None,
        }
    }

    /// Hands over the outward effects gathered so far.
    pub fn take_effects(&mut self) -> (effects: Vec<BridgeEffect>)
        requires
            old(self).wf(),
        ensures
            final(self).wf(),
            effects@ == old(self).effects_spec(),
            final(self).effects_spec() == Seq::<BridgeEffect>::empty(),
            final(self).entities_spec() == old(self).entities_spec(),
            final(self).tick_spec() == old(self).tick_spec(),
            final(self).faults_spec() == old(self).faults_spec(),
            final(self).timers_spec() == old(self).timers_spec(),
            final(self).deferred_spec() == old(self).deferred_spec(),
    {
        let mut out: Vec<BridgeEffect> = Vec::new();
        std::mem::swap(&mut out, &mut self.effects_out);
        out
    }

    pub fn entity_count(&self) -> (n: usize)
        requires
            self.wf(),
        ensures
            n == self.entities_spec().len(),
    {
        proof {
            crate::keyed::lemma_map_len(self.entities@, entity_key());
            assert(self.entities_spec().dom() =~= as_map(self.entities@, entity_key()).dom());
        }
        self.entities.len()
    }

    /// The slots of all entities, ascending.
    pub fn entity_slots(&self) -> (slots: Vec<EntitySlot>)
        requires
            self.wf(),
        ensures
            slots@.len() == self.entities_spec().len(),
            forall|i: int, j: int| 0 <= i < j < slots@.len() ==> (#[trigger] slots@[i]).0 < (#[trigger] slots@[j]).0,
            forall|k: u32| #[trigger] self.entities_spec().contains_key(k) <==> exists|i: int| 0 <= i < slots@.len() && slots@[i].0 == k,
    {
        proof {
            crate::keyed::lemma_map_len(self.entities@, entity_key());
            assert(self.entities_spec().dom() =~= as_map(self.entities@, entity_key()).dom());
        }
        let mut slots: Vec<EntitySlot> = Vec::new();
        let mut i: usize = 0;
        while i < self.entities.len()
            invariant
                i <= self.entities@.len(),
                slots@.len() == i,
                forall|j: int| 0 <= j < i ==> (#[trigger] slots@[j]).0 == self.entities@[j].slot.0,
            decreases self.entities.len() - i,
        {
            slots.push(self.entities[i].slot);
            i = i + 1;
        }
        proof {
            assert forall|a: int, b: int| 0 <= a < b < slots@.len() implies (#[trigger] slots@[a]).0 < (#[trigger] slots@[b]).0 by {
                assert(entity_key()(self.entities@[a]) < entity_key()(self.entities@[b]));
            }
            assert forall|k: u32| #[trigger] self.entities_spec().contains_key(k) <==> exists|i: int| 0 <= i < slots@.len() && slots@[i].0 == k by {
                if self.entities_spec().contains_key(k) {
                    let j = choose|j: int| 0 <= j < self.entities@.len() && entity_key()(#[trigger] self.entities@[j]) == k;
                    assert(slots@[j].0 == k);
                }
                if exists|i: int| 0 <= i < slots@.len() && slots@[i].0 == k {
                    let j = choose|j: int| 0 <= j < slots@.len() && slots@[j].0 == k;
                    assert(entity_key()(self.entities@[j]) == k);
                }
            }
        }
        slots
    }

    /// The last client input sequence number the handler of the entity at `slot`
    /// processed (0 when it processed none).
    pub fn last_client_input_seq(&self, slot: &EntitySlot) -> (n: u32)
        requires
            self.wf(),
        ensures
            n == (if self.client_seqs_spec().contains_key(slot.0) {
                self.client_seqs_spec()[slot.0]
            } else {
                0
            }),
    {
        match find_client_seq(&self.last_client_input_seq, slot.0) {
            Some(i) => {
                proof {
                    lemma_index_of(self.last_client_input_seq@, seq_key(), i as int);
                }
                self.last_client_input_seq[i].1
            },
            None => 0,
        }
    }

    /// The fault-quarantine health of the entity at `entity`.
    pub fn fault_state(&self, entity: &EntitySlot) -> (s: ActorHealthState)
        ensures
            s == health(self.faults_spec(), entity.0),
    {
        self.fault_tracker.get_state(entity)
    }

    pub fn deferred_send_count(&self) -> (n: usize)
        ensures
            n == self.deferred_spec().len(),
    {
        self.deferred_sends.len()
    }

    /// Schedules a timer for `entity` (see `TimerManager::set_timer`).
    pub fn set_timer(&mut self, entity: EntitySlot, name: String, delay_ms: u32)
        requires
            old(self).wf(),
        ensures
            final(self).wf(),
            final(self).timers_spec() == old(self).timers_spec().insert(
                (entity.0, name@),
                (old(self).timer_tick() + delay_ticks(delay_ms, old(self).config_spec().tick_rate_hz)) as u64,
            ),
            final(self).entities_spec() == old(self).entities_spec(),
            final(self).tick_spec() == old(self).tick_spec(),
            final(self).faults_spec() == old(self).faults_spec(),
            final(self).effects_spec() == old(self).effects_spec(),
            final(self).deferred_spec() == old(self).deferred_spec(),
    {
        proof {
            self.lemma_timer_room(delay_ms);
        }
        self.timers.set_timer(entity, name, delay_ms);
    }

    /// Cancels a timer; true when it existed.
    pub fn cancel_timer(&mut self, entity: &EntitySlot, name: &str) -> (existed: bool)
        requires
            old(self).wf(),
        ensures
            final(self).wf(),
            existed == old(self).timers_spec().contains_key((entity.0, name@)),
            final(self).timers_spec() == old(self).timers_spec().remove((entity.0, name@)),
            final(self).entities_spec() == old(self).entities_spec(),
            final(self).tick_spec() == old(self).tick_spec(),
    {
        self.timers.cancel_timer(entity, name)
    }

    /// The tick the timers last saw.
    pub closed spec fn timer_tick(&self) -> u64 {
        self.timers.current_tick()
    }

    proof fn lemma_timer_room(&self, delay_ms: u32)
        requires
            self.wf(),
        ensures
            self.timers.current_tick() + delay_ticks(delay_ms, self.timers.tick_rate_hz()) <= u64::MAX,
    {
        let t = (delay_ms as int * self.timers.tick_rate_hz() as int + 999) / 1000;
        assert(delay_ms as int * self.timers.tick_rate_hz() as int <= 0xFFFF_FFFF * 255) by (nonlinear_arith)
            requires
                delay_ms <= 0xFFFF_FFFF,
                self.timers.tick_rate_hz() <= 255,
        ;
    }
}


/// Where the session's entry sits, if it has one.
fn find_session(v: &Vec<(SessionId, u32)>, id: &SessionId) -> (r: Option<usize>)
    requires
        distinct_sessions(input_seq_view(v@)),
    ensures
        r matches Some(i) ==> i < v@.len() && input_seq_view(v@)[i as int].0 == id@ && (choose|j: int|
            0 <= j < input_seq_view(v@).len() && (#[trigger] input_seq_view(v@)[j]).0 == id@) == i,
        r is None <==> !(exists|j: int| 0 <= j < input_seq_view(v@).len() && (#[trigger] input_seq_view(v@)[j]).0 == id@),
{
    let ghost s = input_seq_view(v@);
    let mut i: usize = 0;
    while i < v.len()
        invariant
            i <= v@.len(),
            s == input_seq_view(v@),
            distinct_sessions(s),
            forall|j: int| 0 <= j < i ==> (#[trigger] s[j]).0 != id@,
        decreases v.len() - i,
    {
        assert(s[i as int].0 == v@[i as int].0@);
        if v[i].0.same(id) {
            proof {
                let j = choose|j: int| 0 <= j < s.len() && (#[trigger] s[j]).0 == id@;
                if j != i {
                    assert(s[j].0 != s[i as int].0);
                }
            }
            return Some(i);
        }
        i = i + 1;
    }
    None
}

impl<W: WasmExecutor> TickEngine<W> {
    /// Records `v` as the session's last input sequence number.
    fn store_seq(&mut self, id: &SessionId, v: u32)
        requires
            old(self).wf(),
        ensures
            final(self).wasm_spec() == old(self).wasm_spec(),
            final(self).wf(),
            final(self).input_seqs_spec() == set_seq(old(self).input_seqs_spec(), id@, v),
            final(self).entities_spec() == old(self).entities_spec(),
            final(self).entity_seq() == old(self).entity_seq(),
            final(self).tick_spec() == old(self).tick_spec(),
            final(self).config_spec() == old(self).config_spec(),
            final(self).island_spec() == old(self).island_spec(),
            final(self).timers_spec() == old(self).timers_spec(),
            final(self).timer_tick() == old(self).timer_tick(),
            final(self).faults_spec() == old(self).faults_spec(),
            final(self).deferred_spec() == old(self).deferred_spec(),
            final(self).effects_spec() == old(self).effects_spec(),
            final(self).client_seqs_spec() == old(self).client_seqs_spec(),
            final(self).buffer_spec() == old(self).buffer_spec(),
            final(self).checkpointing_spec() == old(self).checkpointing_spec(),
            final(self).checkpoint_interval_spec() == old(self).checkpoint_interval_spec(),
            final(self).last_checkpoint_spec() == old(self).last_checkpoint_spec(),
    {
        let ghost s = input_seq_view(self.last_input_seq@);
        match find_session(&self.last_input_seq, id) {
            Some(i) => {
                let key = self.last_input_seq[i].0.duplicate();
                self.last_input_seq.set(i, (key, v));
                proof {
                    assert(input_seq_view(self.last_input_seq@) =~= s.update(i as int, (id@, v)));
                    let t = s.update(i as int, (id@, v));
                    assert forall|a: int, b: int| 0 <= a < t.len() && 0 <= b < t.len() && a != b implies (#[trigger] t[a]).0
                        != (#[trigger] t[b]).0 by {
                        assert(t[a].0 == s[a].0 && t[b].0 == s[b].0);
                    }
                }
            },
            None => {
                self.last_input_seq.push((id.duplicate(), v));
                proof {
                    assert(input_seq_view(self.last_input_seq@) =~= s.push((id@, v)));
                    let t = s.push((id@, v));
                    assert forall|a: int, b: int| 0 <= a < t.len() && 0 <= b < t.len() && a != b implies (#[trigger] t[a]).0
                        != (#[trigger] t[b]).0 by {
                        if a < s.len() && b < s.len() {
                        } else if a < s.len() {
                            assert(t[a] == s[a]);
                        } else {
                            assert(t[b] == s[b]);
                        }
                    }
                }
            },
        }
    }

    /// The session's last accepted input sequence number (0 for a new session).
    fn seq_of(&self, id: &SessionId) -> (v: u32)
        requires
            self.wf(),
        ensures
            v == last_seq(self.input_seqs_spec(), id@),
    {
        match find_session(&self.last_input_seq, id) {
            Some(i) => self.last_input_seq[i].1,
            None => 0,
        }
    }

    /// Phase 1: keeps, in order, each input whose sequence number is above the last one
    /// accepted from its session, and records the new sequence numbers.
    fn phase1_drain_inputs(&mut self, received: Vec<ClientInput>) -> (kept: Vec<ClientInput>)
        requires
            old(self).wf(),
        ensures
            final(self).wasm_spec() == old(self).wasm_spec(),
            final(self).wf(),
            (kept@, final(self).input_seqs_spec()) == fresh_inputs(old(self).input_seqs_spec(), received@),
            final(self).entities_spec() == old(self).entities_spec(),
            final(self).entity_seq() == old(self).entity_seq(),
            final(self).tick_spec() == old(self).tick_spec(),
            final(self).config_spec() == old(self).config_spec(),
            final(self).island_spec() == old(self).island_spec(),
            final(self).timers_spec() == old(self).timers_spec(),
            final(self).timer_tick() == old(self).timer_tick(),
            final(self).faults_spec() == old(self).faults_spec(),
            final(self).deferred_spec() == old(self).deferred_spec(),
            final(self).effects_spec() == old(self).effects_spec(),
            final(self).client_seqs_spec() == old(self).client_seqs_spec(),
            final(self).buffer_spec() == old(self).buffer_spec(),
            final(self).checkpointing_spec() == old(self).checkpointing_spec(),
            final(self).checkpoint_interval_spec() == old(self).checkpoint_interval_spec(),
            final(self).last_checkpoint_spec() == old(self).last_checkpoint_spec(),
    {
        let mut kept: Vec<ClientInput> = Vec::new();
        let mut rest = received;
        let ghost all = rest@;
        let n = rest.len();
        let mut taken: usize = 0;
        assert(all.take(0) =~= Seq::<ClientInput>::empty());
        while rest.len() > 0
            invariant
                self.wasm == old(self).wasm,
                self.wf(),
                taken + rest@.len() == all.len(),
                all.len() == n,
                rest@ == all.skip(taken as int),
                (kept@, self.input_seqs_spec()) == fresh_inputs(old(self).input_seqs_spec(), all.take(taken as int)),
                self.entities_spec() == old(self).entities_spec(),
                self.entity_seq() == old(self).entity_seq(),
                self.tick_spec() == old(self).tick_spec(),
                self.config_spec() == old(self).config_spec(),
                self.island_spec() == old(self).island_spec(),
                self.timers_spec() == old(self).timers_spec(),
                self.timer_tick() == old(self).timer_tick(),
                self.faults_spec() == old(self).faults_spec(),
                self.deferred_spec() == old(self).deferred_spec(),
                self.effects_spec() == old(self).effects_spec(),
                self.client_seqs_spec() == old(self).client_seqs_spec(),
                self.buffer_spec() == old(self).buffer_spec(),
                self.checkpointing_spec() == old(self).checkpointing_spec(),
                self.checkpoint_interval_spec() == old(self).checkpoint_interval_spec(),
                self.last_checkpoint_spec() == old(self).last_checkpoint_spec(),
            decreases rest.len(),
        {
            let ghost before = rest@;
            let input = rest.remove(0);
            proof {
                assert(input == all[taken as int]) by {
                    assert(before[0] == all.skip(taken as int)[0]);
                }
                assert(rest@ =~= all.skip(taken + 1));
                assert(all.take(taken + 1).drop_last() =~= all.take(taken as int));
                assert(all.take(taken + 1).last() == input);
            }
            let prev = self.seq_of(&input.session_id);
            if input.input_seq > prev {
                self.store_seq(&input.session_id, input.input_seq);
                kept.push(input);
            } else {
                self.store_seq(&input.session_id, prev);
            }
            taken = taken + 1;
        }
        assert(all.take(taken as int) =~= all);
        kept
    }
}


// ---------------------------------------------------------------------------
// Phase 3: message queues
// ---------------------------------------------------------------------------

/// A message addressed to an entity.
pub type Addressed = (EntitySlot, TickMessage);

pub open spec fn slot_is(k: u32) -> spec_fn(Addressed) -> bool {
    |m: Addressed| m.0.0 == k
}

/// Messages are grouped by ascending entity slot.
pub open spec fn slot_order(q: Seq<Addressed>) -> bool {
    forall|i: int, j: int| 0 <= i < j < q.len() ==> (#[trigger] q[i]).0.0 <= (#[trigger] q[j]).0.0
}

pub open spec fn timer_addressed(t: Seq<(EntitySlot, String)>) -> Seq<Addressed> {
    t.map_values(|x: (EntitySlot, String)| (x.0, TickMessage::Timer { name: x.1 }))
}

pub open spec fn bridge_message(b: BridgeMessage) -> TickMessage {
    match b.kind {
        BridgeMessageKind::OneWay => TickMessage::Bridge { payload: b.payload },
        BridgeMessageKind::Request { correlation_id } => TickMessage::BridgeRequest {
            correlation_id,
            payload: b.payload,
        },
        BridgeMessageKind::SagaFailed { correlation_id } => TickMessage::SagaFailed { correlation_id },
    }
}

pub open spec fn bridge_addressed(bs: Seq<BridgeMessage>) -> Seq<Addressed> {
    bs.map_values(|b: BridgeMessage| (b.target_entity, bridge_message(b)))
}

pub open spec fn input_message(x: ClientInput) -> TickMessage {
    TickMessage::Input { session_id: x.session_id, input_seq: x.input_seq, payload: x.payload }
}

pub open spec fn input_addressed(xs: Seq<ClientInput>) -> Seq<Addressed> {
    xs.map_values(|x: ClientInput| (x.entity_slot, input_message(x)))
}

pub open spec fn deferred_addressed(ds: Seq<DeferredSend>) -> Seq<Addressed> {
    ds.map_values(|d: DeferredSend| (d.target, TickMessage::Deferred { source: d.source, payload: d.payload }))
}

/// Phase 3's messages in priority order: timers, bridge messages, inputs, deferred sends.
pub open spec fn tick_messages(
    timers: Seq<(EntitySlot, String)>,
    bridge: Seq<BridgeMessage>,
    inputs: Seq<ClientInput>,
    deferred: Seq<DeferredSend>,
) -> Seq<Addressed> {
    timer_addressed(timers) + bridge_addressed(bridge) + input_addressed(inputs) + deferred_addressed(deferred)
}

/// `q` holds the messages of `all`, grouped by ascending slot, each entity's in the order
/// of `all`.
pub open spec fn queued(q: Seq<Addressed>, all: Seq<Addressed>) -> bool {
    &&& slot_order(q)
    &&& forall|k: u32| #[trigger] q.filter(slot_is(k)) == all.filter(slot_is(k))
}

proof fn lemma_filter_none<A>(s: Seq<A>, p: spec_fn(A) -> bool)
    requires
        forall|i: int| 0 <= i < s.len() ==> !p(#[trigger] s[i]),
    ensures
        s.filter(p) == Seq::<A>::empty(),
    decreases s.len(),
{
    reveal(Seq::filter);
    if s.len() > 0 {
        lemma_filter_none(s.drop_last(), p);
        assert(!p(s[s.len() - 1]));
    }
}

/// Inserting `m` after every message of a lower or equal slot keeps the grouping and puts
/// `m` last among its entity's messages.
proof fn lemma_enqueue(q: Seq<Addressed>, p: int, m: Addressed)
    requires
        slot_order(q),
        0 <= p <= q.len(),
        forall|j: int| 0 <= j < p ==> (#[trigger] q[j]).0.0 <= m.0.0,
        forall|j: int| p <= j < q.len() ==> m.0.0 < (#[trigger] q[j]).0.0,
    ensures
        slot_order(q.insert(p, m)),
        forall|k: u32| #[trigger] q.insert(p, m).filter(slot_is(k)) == (if k == m.0.0 {
            q.filter(slot_is(k)).push(m)
        } else {
            q.filter(slot_is(k))
        }),
{
    broadcast use vstd::seq_lib::group_filter_ensures;
    let t = q.insert(p, m);
    assert forall|i: int, j: int| 0 <= i < j < t.len() implies (#[trigger] t[i]).0.0 <= (#[trigger] t[j]).0.0 by {
        if i < p && j < p {
            assert(t[i] == q[i] && t[j] == q[j]);
        } else if i < p && j == p {
            assert(t[i] == q[i]);
        } else if i < p {
            assert(t[i] == q[i] && t[j] == q[j - 1]);
        } else if i == p {
            assert(t[j] == q[j - 1]);
        } else {
            assert(t[i] == q[i - 1] && t[j] == q[j - 1]);
        }
    }
    let a = q.take(p);
    let b = q.skip(p);
    assert(q =~= a + b);
    assert(t =~= a + seq![m] + b);
    assert forall|k: u32| #[trigger] t.filter(slot_is(k)) == (if k == m.0.0 {
        q.filter(slot_is(k)).push(m)
    } else {
        q.filter(slot_is(k))
    }) by {
        let f = slot_is(k);
        Seq::filter_distributes_over_add(a + seq![m], b, f);
        Seq::filter_distributes_over_add(a, seq![m], f);
        Seq::filter_distributes_over_add(a, b, f);
        lemma_filter_push(Seq::<Addressed>::empty(), f, m);
        assert(Seq::<Addressed>::empty().push(m) =~= seq![m]);
        assert(Seq::<Addressed>::empty().filter(f) =~= Seq::<Addressed>::empty()) by {
            reveal(Seq::filter);
        }
        if k == m.0.0 {
            assert forall|i: int| 0 <= i < b.len() implies !f(#[trigger] b[i]) by {
                assert(b[i] == q[p + i]);
            }
            lemma_filter_none(b, f);
            assert(a.filter(f) + b.filter(f) =~= a.filter(f));
            assert(a.filter(f) + seq![m] + b.filter(f) =~= a.filter(f).push(m));
        } else {
            assert(a.filter(f) + Seq::<Addressed>::empty() =~= a.filter(f));
        }
    }
}

/// Adds `m` to the queue after every message of a lower or equal slot.
fn enqueue(q: &mut Vec<Addressed>, m: Addressed)
    requires
        slot_order(old(q)@),
    ensures
        slot_order(final(q)@),
        forall|k: u32| #[trigger] final(q)@.filter(slot_is(k)) == old(q)@.push(m).filter(slot_is(k)),
{
    let ghost q0 = q@;
    let k = m.0.0;
    let mut p: usize = 0;
    while p < q.len() && q[p].0.0 <= k
        invariant
            p <= q@.len(),
            q@ == q0,
            forall|j: int| 0 <= j < p ==> (#[trigger] q@[j]).0.0 <= k,
        decreases q.len() - p,
    {
        p = p + 1;
    }
    proof {
        assert forall|j: int| p <= j < q0.len() implies k < (#[trigger] q0[j]).0.0 by {
            if j > p {
                assert(q0[p as int].0.0 <= q0[j].0.0);
            }
        }
        lemma_enqueue(q0, p as int, m);
        assert forall|kk: u32| #[trigger] q0.push(m).filter(slot_is(kk)) == (if kk == m.0.0 {
            q0.filter(slot_is(kk)).push(m)
        } else {
            q0.filter(slot_is(kk))
        }) by {
            lemma_filter_push(q0, slot_is(kk), m);
        }
    }
    q.insert(p, m);
}

proof fn lemma_queued_step(q: Seq<Addressed>, q2: Seq<Addressed>, done: Seq<Addressed>, m: Addressed)
    requires
        forall|k: u32| #[trigger] q.filter(slot_is(k)) == done.filter(slot_is(k)),
        forall|k: u32| #[trigger] q2.filter(slot_is(k)) == q.push(m).filter(slot_is(k)),
    ensures
        forall|k: u32| #[trigger] q2.filter(slot_is(k)) == done.push(m).filter(slot_is(k)),
{
    assert forall|k: u32| #[trigger] q2.filter(slot_is(k)) == done.push(m).filter(slot_is(k)) by {
        lemma_filter_push(q, slot_is(k), m);
        lemma_filter_push(done, slot_is(k), m);
    }
}

impl<W: WasmExecutor> TickEngine<W> {
    /// Phase 3: the tick's messages grouped by ascending slot; within an entity, timers
    /// first, then bridge messages, client inputs and last tick's deferred sends, each in
    /// arrival order. The deferred sends are consumed.
    fn phase3_build_queues(
        &mut self,
        timer_messages: Vec<(EntitySlot, String)>,
        bridge: Vec<BridgeMessage>,
        inputs: Vec<ClientInput>,
    ) -> (q: Vec<Addressed>)
        requires
            old(self).wf(),
        ensures
            final(self).wasm_spec() == old(self).wasm_spec(),
            final(self).wf(),
            queued(q@, tick_messages(timer_messages@, bridge@, inputs@, old(self).deferred_spec())),
            final(self).deferred_spec() == Seq::<DeferredSend>::empty(),
            final(self).entities_spec() == old(self).entities_spec(),
            final(self).entity_seq() == old(self).entity_seq(),
            final(self).tick_spec() == old(self).tick_spec(),
            final(self).config_spec() == old(self).config_spec(),
            final(self).island_spec() == old(self).island_spec(),
            final(self).timers_spec() == old(self).timers_spec(),
            final(self).timer_tick() == old(self).timer_tick(),
            final(self).faults_spec() == old(self).faults_spec(),
            final(self).effects_spec() == old(self).effects_spec(),
            final(self).input_seqs_spec() == old(self).input_seqs_spec(),
            final(self).client_seqs_spec() == old(self).client_seqs_spec(),
            final(self).buffer_spec() == old(self).buffer_spec(),
            final(self).checkpointing_spec() == old(self).checkpointing_spec(),
            final(self).checkpoint_interval_spec() == old(self).checkpoint_interval_spec(),
            final(self).last_checkpoint_spec() == old(self).last_checkpoint_spec(),
    {
        let mut deferred: Vec<DeferredSend> = Vec::new();
        std::mem::swap(&mut deferred, &mut self.deferred_sends);
        let ghost ta = timer_addressed(timer_messages@);
        let ghost ba = bridge_addressed(bridge@);
        let ghost ia = input_addressed(inputs@);
        let ghost da = deferred_addressed(deferred@);
        let mut q: Vec<Addressed> = Vec::new();
        let ghost mut done: Seq<Addressed> = Seq::empty();
        proof {
            assert forall|k: u32| #[trigger] q@.filter(slot_is(k)) == done.filter(slot_is(k)) by {
                assert(q@ =~= done);
            }
        }
        let mut timers = timer_messages;
        let n0 = timers.len();
        let mut t: usize = 0;
        while timers.len() > 0
            invariant
                slot_order(q@),
                forall|k: u32| #[trigger] q@.filter(slot_is(k)) == done.filter(slot_is(k)),
                done == ta.take(t as int),
                t + timers@.len() == ta.len(),
                ta.len() == n0,
                n0 <= usize::MAX,
                timer_addressed(timers@) == ta.skip(t as int),
            decreases timers.len(),
        {
            let ghost before = timers@;
            let (slot, name) = timers.remove(0);
            let m: Addressed = (slot, TickMessage::Timer { name });
            proof {
                assert(m == ta[t as int]) by {
                    assert(timer_addressed(before)[0] == ta.skip(t as int)[0]);
                }
                assert(timers@ =~= before.skip(1));
                assert forall|i: int| 0 <= i < timers@.len() implies timer_addressed(timers@)[i] == ta.skip(t + 1)[i] by {
                    assert(timer_addressed(before)[i + 1] == ta.skip(t as int)[i + 1]);
                }
                assert(timer_addressed(timers@) =~= ta.skip(t + 1));
                assert(ta.take(t + 1) =~= ta.take(t as int).push(m));
            }
            let ghost q_before = q@;
            enqueue(&mut q, m);
            proof {
                lemma_queued_step(q_before, q@, done, m);
                done = done.push(m);
            }
            t = t + 1;
        }
        proof {
            assert(ta.take(t as int) =~= ta);
        }
        let ghost done_t = done;
        let mut bridge = bridge;
        let n1 = bridge.len();
        let mut b: usize = 0;
        while bridge.len() > 0
            invariant
                slot_order(q@),
                forall|k: u32| #[trigger] q@.filter(slot_is(k)) == done.filter(slot_is(k)),
                done == done_t + ba.take(b as int),
                b + bridge@.len() == ba.len(),
                ba.len() == n1,
                n1 <= usize::MAX,
                bridge_addressed(bridge@) == ba.skip(b as int),
            decreases bridge.len(),
        {
            let ghost before = bridge@;
            let msg = bridge.remove(0);
            let ghost gm = msg;
            let target = msg.target_entity;
            let tick_msg = match msg.kind {
                BridgeMessageKind::OneWay => TickMessage::Bridge { payload: msg.payload },
                BridgeMessageKind::Request { correlation_id } => TickMessage::BridgeRequest {
                    correlation_id,
                    payload: msg.payload,
                },
                BridgeMessageKind::SagaFailed { correlation_id } => TickMessage::SagaFailed { correlation_id },
            };
            let m: Addressed = (target, tick_msg);
            proof {
                assert(m == (gm.target_entity, bridge_message(gm)));
                assert(m == ba[b as int]) by {
                    assert(bridge_addressed(before)[0] == ba.skip(b as int)[0]);
                }
                assert(bridge@ =~= before.skip(1));
                assert forall|i: int| 0 <= i < bridge@.len() implies bridge_addressed(bridge@)[i] == ba.skip(b + 1)[i] by {
                    assert(bridge_addressed(before)[i + 1] == ba.skip(b as int)[i + 1]);
                }
                assert(bridge_addressed(bridge@) =~= ba.skip(b + 1));
                assert(ba.take(b + 1) =~= ba.take(b as int).push(m));
                assert(done_t + ba.take(b + 1) =~= (done_t + ba.take(b as int)).push(m));
            }
            let ghost q_before = q@;
            enqueue(&mut q, m);
            proof {
                lemma_queued_step(q_before, q@, done, m);
                done = done.push(m);
            }
            b = b + 1;
        }
        proof {
            assert(ba.take(b as int) =~= ba);
        }
        let ghost done_b = done;
        let mut inputs = inputs;
        let n2 = inputs.len();
        let mut c: usize = 0;
        while inputs.len() > 0
            invariant
                slot_order(q@),
                forall|k: u32| #[trigger] q@.filter(slot_is(k)) == done.filter(slot_is(k)),
                done == done_b + ia.take(c as int),
                c + inputs@.len() == ia.len(),
                ia.len() == n2,
                n2 <= usize::MAX,
                input_addressed(inputs@) == ia.skip(c as int),
            decreases inputs.len(),
        {
            let ghost before = inputs@;
            let x = inputs.remove(0);
            let m: Addressed = (
                x.entity_slot,
                TickMessage::Input { session_id: x.session_id, input_seq: x.input_seq, payload: x.payload },
            );
            proof {
                assert(m == ia[c as int]) by {
                    assert(input_addressed(before)[0] == ia.skip(c as int)[0]);
                }
                assert(inputs@ =~= before.skip(1));
                assert forall|i: int| 0 <= i < inputs@.len() implies input_addressed(inputs@)[i] == ia.skip(c + 1)[i] by {
                    assert(input_addressed(before)[i + 1] == ia.skip(c as int)[i + 1]);
                }
                assert(input_addressed(inputs@) =~= ia.skip(c + 1));
                assert(ia.take(c + 1) =~= ia.take(c as int).push(m));
                assert(done_b + ia.take(c + 1) =~= (done_b + ia.take(c as int)).push(m));
            }
            let ghost q_before = q@;
            enqueue(&mut q, m);
            proof {
                lemma_queued_step(q_before, q@, done, m);
                done = done.push(m);
            }
            c = c + 1;
        }
        proof {
            assert(ia.take(c as int) =~= ia);
        }
        let ghost done_i = done;
        let n3 = deferred.len();
        let mut d: usize = 0;
        while deferred.len() > 0
            invariant
                slot_order(q@),
                forall|k: u32| #[trigger] q@.filter(slot_is(k)) == done.filter(slot_is(k)),
                done == done_i + da.take(d as int),
                d + deferred@.len() == da.len(),
                da.len() == n3,
                n3 <= usize::MAX,
                deferred_addressed(deferred@) == da.skip(d as int),
            decreases deferred.len(),
        {
            let ghost before = deferred@;
            let s = deferred.remove(0);
            let m: Addressed = (s.target, TickMessage::Deferred { source: s.source, payload: s.payload });
            proof {
                assert(m == da[d as int]) by {
                    assert(deferred_addressed(before)[0] == da.skip(d as int)[0]);
                }
                assert(deferred@ =~= before.skip(1));
                assert forall|i: int| 0 <= i < deferred@.len() implies deferred_addressed(deferred@)[i] == da.skip(d + 1)[i] by {
                    assert(deferred_addressed(before)[i + 1] == da.skip(d as int)[i + 1]);
                }
                assert(deferred_addressed(deferred@) =~= da.skip(d + 1));
                assert(da.take(d + 1) =~= da.take(d as int).push(m));
                assert(done_i + da.take(d + 1) =~= (done_i + da.take(d as int)).push(m));
            }
            let ghost q_before = q@;
            enqueue(&mut q, m);
            proof {
                lemma_queued_step(q_before, q@, done, m);
                done = done.push(m);
            }
            d = d + 1;
        }
        proof {
            assert(da.take(d as int) =~= da);
            assert(done =~= ta + ba + ia + da);
        }
        q
    }
}


// ---------------------------------------------------------------------------
// Phase 4: simulation
// ---------------------------------------------------------------------------

/// What phase 4 reads and writes, as plain values.
pub struct SimView {
    pub ents: Map<u32, EntityView>,
    pub faults: Map<u32, FaultEntry>,
    pub client: Map<u32, u32>,
    /// Outward effects.
    pub out: Seq<BridgeEffect>,
    /// Effects each handler left for phase 5, by source entity.
    pub batch: Seq<(EntitySlot, Seq<TickEffect>)>,
    /// Entities to evict once the phase is over.
    pub evict: Seq<u32>,
    /// The entity whose messages are being delivered, and whether they still are.
    pub current: Option<u32>,
    pub active: bool,
}

/// One handler call's answer and, for an input, the client sequence number the executor
/// read from its payload.
pub type Outcome = (Result<HandleResult, WasmTrap>, Option<u32>);

pub open spec fn msg_cid(m: TickMessage) -> Option<CorrelationId> {
    match m {
        TickMessage::BridgeRequest { correlation_id, .. } => Some(correlation_id),
        _ => None,
    }
}

/// The effects kept of a handler's answer: at most `MAX_EFFECTS_PER_CALL`, the first ones.
pub open spec fn budgeted(effects: Seq<TickEffect>) -> Seq<TickEffect> {
    if effects.len() > MAX_EFFECTS_PER_CALL {
        effects.subrange(0, MAX_EFFECTS_PER_CALL as int)
    } else {
        effects
    }
}

/// The first message for an entity decides whether its messages are delivered this tick:
/// it must exist and not be quarantined.
pub open spec fn start_entity(st: SimView, slot: u32, tick: u64) -> SimView {
    if st.current == Some(slot) {
        st
    } else {
        SimView {
            current: Some(slot),
            active: may_tick(st.faults, slot, tick) && st.ents.contains_key(slot),
            ..st
        }
    }
}

/// A handler returned `res`: the entity takes the new state (dirty when it changed), the
/// acknowledged client input advances, replies to a bridge request go out, the other
/// effects wait for phase 5, and the clean tick counts toward recovery.
pub open spec fn on_success(st: SimView, slot: u32, msg: TickMessage, res: HandleResult, seq: Option<u32>) -> SimView {
    let e = st.ents[slot];
    let client = match seq {
        Some(s) => if msg is Input {
            let prev = if st.client.contains_key(slot) {
                st.client[slot]
            } else {
                0u32
            };
            st.client.insert(slot, if s > prev { s } else { prev })
        } else {
            st.client
        },
        None => st.client,
    };
    let effs = budgeted(res.effects@);
    let bridge = match msg_cid(msg) {
        None => Seq::<BridgeEffect>::empty(),
        Some(cid) => bridge_replies(cid, effs),
    };
    let rem = match msg_cid(msg) {
        None => effs,
        Some(cid) => effs.filter(not_reply()),
    };
    SimView {
        ents: st.ents.insert(slot, EntityView { state: res.state@, dirty: e.dirty || e.state != res.state@, ..e }),
        faults: after_success(st.faults, slot),
        client,
        out: st.out + bridge,
        batch: if rem.len() > 0 {
            st.batch.push((EntitySlot(slot), rem))
        } else {
            st.batch
        },
        ..st
    }
}

/// What a trap does to the trapping entity, by how many consecutive faults it already
/// had: the first, second and fourth trap leave it as it was; the third restores its last
/// checkpointed state (its initial state only when it has no checkpoint), keeping its
/// initial and checkpoint states; the fifth recreates it from its initial state and drops
/// its checkpoint. Other entities are never touched.
pub proof fn law_trap_restores_entity(st: SimView, slot: u32, tick: u64, other: u32)
    requires
        st.ents.contains_key(slot),
    ensures
        ({
            let e = st.ents[slot];
            let after = on_trap(st, slot, tick).ents;
            let n = fault_count(st.faults, slot);
            &&& after.contains_key(slot)
            &&& (n == 0 || n == 1 || n == 3 || n >= 5) ==> after[slot] == e
            &&& n == 2 ==> (after[slot].init_state == e.init_state && after[slot].checkpoint_state
                == e.checkpoint_state && after[slot].owner_session == e.owner_session)
            &&& (n == 2 && e.checkpoint_state is Some) ==> after[slot].state == e.checkpoint_state->Some_0
            &&& (n == 2 && e.checkpoint_state is None) ==> after[slot].state == e.init_state
            &&& n == 4 ==> (after[slot].state == e.init_state && after[slot].checkpoint_state is None
                && after[slot].init_state == e.init_state)
            &&& (other != slot ==> (after.contains_key(other) == st.ents.contains_key(other) && (
            st.ents.contains_key(other) ==> after[other] == st.ents[other])))
        }),
{
    let e = st.ents[slot];
    let n = fault_count(st.faults, slot);
    let after = on_trap(st, slot, tick).ents;
    if n < u32::MAX {
        assert(((n + 1) as u32) == n + 1);
    } else {
        assert(((n + 1) as u32) == 0) by (bit_vector)
            requires
                n == 0xffff_ffffu32,
        ;
    }
    let r = trap_response((n + 1) as u32);
    if n == 2 {
        assert(r == TrapResponse::Reset);
    } else if n == 4 {
        assert(r == TrapResponse::Recreate);
    } else {
        assert(r != TrapResponse::Reset && r != TrapResponse::Recreate);
        assert(after == st.ents);
    }
}

/// A handler trapped: the fault is recorded and answered on the escalation ladder, and the
/// entity's remaining messages this tick are dropped.
pub open spec fn on_trap(st: SimView, slot: u32, tick: u64) -> SimView {
    let e = st.ents[slot];
    let resp = trap_response((fault_count(st.faults, slot) + 1) as u32);
    SimView {
        ents: match resp {
            TrapResponse::Reset => st.ents.insert(
                slot,
                EntityView {
                    state: match e.checkpoint_state {
                        Some(c) => c,
                        None => e.init_state,
                    },
                    ..e
                },
            ),
            TrapResponse::Recreate => st.ents.insert(slot, EntityView { state: e.init_state, checkpoint_state: None, ..e }),
            _ => st.ents,
        },
        faults: after_fault(st.faults, slot, tick),
        evict: if resp is Evict {
            st.evict.push(slot)
        } else {
            st.evict
        },
        active: false,
        ..st
    }
}

/// Delivering one message, given what the handler answered.
pub open spec fn sim_step(st: SimView, m: Addressed, o: Outcome, tick: u64) -> SimView {
    let st1 = start_entity(st, m.0.0, tick);
    if !st1.active {
        st1
    } else {
        match o.0 {
            Ok(res) => on_success(st1, m.0.0, m.1, res, o.1),
            Err(_) => on_trap(st1, m.0.0, tick),
        }
    }
}

/// Whether `seq` is the client input sequence number the executor `w` reads from the
/// payload of `m`, asked only when `m` is an input its handler accepted.
pub open spec fn seq_answered<W: WasmExecutor>(w: W, m: TickMessage, r: Result<HandleResult, WasmTrap>, seq: Option<u32>) -> bool {
    match (r, m) {
        (Ok(_), TickMessage::Input { payload, .. }) => exists|p: &[u8]|
            p@ == payload@ && #[trigger] call_ensures(W::extract_client_input_seq, (&w, p), seq),
        _ => seq is None,
    }
}

/// Whether step `i` of delivering `q` was answered by the executor: when the message is
/// delivered, `os[i]` is the answer the executor `ws[i]` gives to it for the entity in
/// the state it has before the step, with the sequence number the executor then reads,
/// and `ws[i + 1]` is the executor after; otherwise the executor is untouched.
pub open spec fn answered_at<W: WasmExecutor>(
    init: SimView,
    q: Seq<Addressed>,
    os: Seq<Outcome>,
    ws: Seq<W>,
    tick: u64,
    i: int,
) -> bool {
    let st1 = start_entity(simulate(init, q.take(i), os.take(i), tick), q[i].0.0, tick);
    if st1.active {
        &&& ws[i].answers(q[i].0, st1.ents[q[i].0.0].state, q[i].1, os[i].0)
        &&& seq_answered(ws[i + 1], q[i].1, os[i].0, os[i].1)
    } else {
        ws[i + 1] == ws[i]
    }
}

/// Whether every step of delivering `q` was answered by the executor states `ws`.
pub open spec fn answered<W: WasmExecutor>(
    init: SimView,
    q: Seq<Addressed>,
    os: Seq<Outcome>,
    ws: Seq<W>,
    tick: u64,
) -> bool {
    &&& os.len() == q.len()
    &&& ws.len() == q.len() + 1
    &&& forall|i: int| 0 <= i < q.len() ==> #[trigger] answered_at(init, q, os, ws, tick, i)
}

/// Delivering the messages of `q` in order, given the handlers' answers `os`.
pub open spec fn simulate(st: SimView, q: Seq<Addressed>, os: Seq<Outcome>, tick: u64) -> SimView
    decreases q.len(),
{
    if q.len() == 0 || os.len() != q.len() {
        st
    } else {
        sim_step(simulate(st, q.drop_last(), os.drop_last(), tick), q.last(), os.last(), tick)
    }
}

pub open spec fn batch_view(b: Seq<(EntitySlot, Vec<TickEffect>)>) -> Seq<(EntitySlot, Seq<TickEffect>)> {
    b.map_values(|x: (EntitySlot, Vec<TickEffect>)| (x.0, x.1@))
}

pub open spec fn slots_of(v: Seq<EntitySlot>) -> Seq<u32> {
    v.map_values(|s: EntitySlot| s.0)
}

impl<W: WasmExecutor> TickEngine<W> {
    /// The phase-4 state of the engine with the given phase-local values.
    pub closed spec fn sim_view(
        &self,
        batch: Seq<(EntitySlot, Seq<TickEffect>)>,
        evict: Seq<u32>,
        current: Option<u32>,
        active: bool,
    ) -> SimView {
        SimView {
            ents: self.entities_spec(),
            faults: self.faults_spec(),
            client: self.client_seqs_spec(),
            out: self.effects_spec(),
            batch,
            evict,
            current,
            active,
        }
    }

    /// Records `v` as the entity's acknowledged client input.
    fn set_client_seq(&mut self, slot: EntitySlot, v: u32)
        requires
            old(self).wf(),
        ensures
            final(self).wf(),
            final(self).client_seqs_spec() == old(self).client_seqs_spec().insert(slot.0, v),
            final(self).entities_spec() == old(self).entities_spec(),
            final(self).entity_seq() == old(self).entity_seq(),
            final(self).wasm_spec() == old(self).wasm_spec(),
            final(self).tick_spec() == old(self).tick_spec(),
            final(self).config_spec() == old(self).config_spec(),
            final(self).island_spec() == old(self).island_spec(),
            final(self).timers_spec() == old(self).timers_spec(),
            final(self).timer_tick() == old(self).timer_tick(),
            final(self).faults_spec() == old(self).faults_spec(),
            final(self).deferred_spec() == old(self).deferred_spec(),
            final(self).effects_spec() == old(self).effects_spec(),
            final(self).input_seqs_spec() == old(self).input_seqs_spec(),
            final(self).buffer_spec() == old(self).buffer_spec(),
            final(self).checkpointing_spec() == old(self).checkpointing_spec(),
            final(self).checkpoint_interval_spec() == old(self).checkpoint_interval_spec(),
            final(self).last_checkpoint_spec() == old(self).last_checkpoint_spec(),
    {
        let ghost s = self.last_client_input_seq@;
        match find_client_seq(&self.last_client_input_seq, slot.0) {
            Some(i) => {
                self.last_client_input_seq.set(i, (slot, v));
                proof {
                    lemma_update(s, seq_key(), i as int, (slot, v));
                    assert(seq_map(self.last_client_input_seq@) =~= seq_map(s).insert(slot.0, v));
                }
            },
            None => {
                let mut p: usize = 0;
                while p < self.last_client_input_seq.len() && self.last_client_input_seq[p].0.0 < slot.0
                    invariant
                        p <= s.len(),
                        s == self.last_client_input_seq@,
                        forall|j: int| 0 <= j < p ==> (#[trigger] s[j]).0.0 < slot.0,
                    decreases self.last_client_input_seq.len() - p,
                {
                    p = p + 1;
                }
                proof {
                    assert forall|j: int| p <= j < s.len() implies slot.0 < (#[trigger] s[j]).0.0 by {
                        if j > p {
                            assert(seq_key()(s[p as int]) < seq_key()(s[j]));
                        }
                        if s[j].0.0 == slot.0 {
                            lemma_index_of(s, seq_key(), j);
                        }
                    }
                    lemma_insert(s, seq_key(), p as int, (slot, v));
                }
                self.last_client_input_seq.insert(p, (slot, v));
                proof {
                    assert(seq_map(self.last_client_input_seq@) =~= seq_map(s).insert(slot.0, v));
                }
            },
        }
    }

    /// Delivers one handler answer for the entity at `slot` (see `on_success` and
    /// `on_trap`); the result tells whether the entity's further messages are delivered.
    pub fn apply_outcome(
        &mut self,
        slot: EntitySlot,
        msg: &TickMessage,
        outcome: Result<HandleResult, WasmTrap>,
        seq: Option<u32>,
        batch: &mut Vec<(EntitySlot, Vec<TickEffect>)>,
        evict: &mut Vec<EntitySlot>,
    ) -> (cont: bool)
        requires
            old(self).wf(),
            old(self).entities_spec().contains_key(slot.0),
            fault_count(old(self).faults_spec(), slot.0) < EVICTION_THRESHOLD,
            old(self).tick_spec() < TICK_LIMIT,
        ensures
            final(self).wf(),
            ({
                let st = old(self).sim_view(batch_view(old(batch)@), slots_of(old(evict)@), Some(slot.0), true);
                let st2 = match outcome {
                    Ok(res) => on_success(st, slot.0, *msg, res, seq),
                    Err(_) => on_trap(st, slot.0, old(self).tick_spec()),
                };
                final(self).sim_view(batch_view(final(batch)@), slots_of(final(evict)@), Some(slot.0), cont) == st2
            }),
            final(self).tick_spec() == old(self).tick_spec(),
            final(self).wasm_spec() == old(self).wasm_spec(),
            final(self).config_spec() == old(self).config_spec(),
            final(self).island_spec() == old(self).island_spec(),
            final(self).timers_spec() == old(self).timers_spec(),
            final(self).timer_tick() == old(self).timer_tick(),
            final(self).deferred_spec() == old(self).deferred_spec(),
            final(self).input_seqs_spec() == old(self).input_seqs_spec(),
            final(self).buffer_spec() == old(self).buffer_spec(),
            final(self).checkpointing_spec() == old(self).checkpointing_spec(),
            final(self).checkpoint_interval_spec() == old(self).checkpoint_interval_spec(),
            final(self).last_checkpoint_spec() == old(self).last_checkpoint_spec(),
    {
        let i = match self.find_entity(slot.0) {
            Ok(i) => i,
            Err(_) => {
                return false;
            },
        };
        proof {
            lemma_index_of(self.entities@, entity_key(), i as int);
        }
        let ghost old_s = self.entities@;
        match outcome {
            Ok(res) => {
                let HandleResult { state, effects } = res;
                match seq {
                    Some(s) => {
                        let is_input = match msg {
                            TickMessage::Input { .. } => true,
                            _ => false,
                        };
                        if is_input {
                            let prev = match find_client_seq(&self.last_client_input_seq, slot.0) {
                                Some(j) => {
                                    proof {
                                        lemma_index_of(self.last_client_input_seq@, seq_key(), j as int);
                                    }
                                    self.last_client_input_seq[j].1
                                },
                                None => 0,
                            };
                            self.set_client_seq(slot, if s > prev { s } else { prev });
                        }
                    },
                    None => {},
                }
                let mut e = self.entities.remove(i);
                let changed = !(e.state == state);
                proof {
                    if !changed {
                        assert(e.state@ =~= state@);
                    }
                }
                e.dirty = changed || e.dirty;
                e.state = state;
                self.entities.insert(i, e);
                proof {
                    assert(self.entities@ =~= old_s.update(i as int, e));
                    lemma_update(old_s, entity_key(), i as int, e);
                    assert(entity_views(self.entities@) =~= entity_views(old_s).insert(slot.0, e@));
                }
                let mut effects = effects;
                if effects.len() > MAX_EFFECTS_PER_CALL {
                    effects.truncate(MAX_EFFECTS_PER_CALL);
                }
                let cid = match msg {
                    TickMessage::BridgeRequest { correlation_id, .. } => Some(*correlation_id),
                    _ => None,
                };
                let (mut bridge, remaining) = route_effects(effects, cid);
                self.effects_out.append(&mut bridge);
                if remaining.len() > 0 {
                    proof {
                        assert(batch_view(batch@.push((slot, remaining))) =~= batch_view(batch@).push((slot, remaining@)));
                    }
                    batch.push((slot, remaining));
                }
                self.fault_tracker.record_success(&slot);
                proof {
                    assert forall|k: u32| #[trigger] self.fault_tracker@.contains_key(k) implies self.fault_tracker@[k].consecutive_faults
                        <= EVICTION_THRESHOLD by {
                        assert(old(self).fault_tracker@.contains_key(k));
                    }
                }
                true
            },
            Err(_) => {
                let resp = self.fault_tracker.record_fault(&slot, self.tick);
                proof {
                    assert forall|k: u32| #[trigger] self.fault_tracker@.contains_key(k) implies self.fault_tracker@[k].consecutive_faults
                        <= EVICTION_THRESHOLD by {
                        if k != slot.0 {
                            assert(old(self).fault_tracker@.contains_key(k));
                        }
                    }
                }
                match resp {
                    TrapResponse::Skip => {},
                    TrapResponse::Reset => {
                        let mut e = self.entities.remove(i);
                        let restore = match &e.checkpoint_state {
                            Some(c) => copy_bytes(c.as_slice()),
                            None => copy_bytes(e.init_state.as_slice()),
                        };
                        e.state = restore;
                        self.entities.insert(i, e);
                        proof {
                            assert(self.entities@ =~= old_s.update(i as int, e));
                            lemma_update(old_s, entity_key(), i as int, e);
                            assert(entity_views(self.entities@) =~= entity_views(old_s).insert(slot.0, e@));
                        }
                    },
                    TrapResponse::Recreate => {
                        let mut e = self.entities.remove(i);
                        e.state = copy_bytes(e.init_state.as_slice());
                        e.checkpoint_state = None;
                        self.entities.insert(i, e);
                        proof {
                            assert(self.entities@ =~= old_s.update(i as int, e));
                            lemma_update(old_s, entity_key(), i as int, e);
                            assert(entity_views(self.entities@) =~= entity_views(old_s).insert(slot.0, e@));
                        }
                    },
                    TrapResponse::Evict => {
                        proof {
                            assert(slots_of(evict@.push(slot)) =~= slots_of(evict@).push(slot.0));
                        }
                        evict.push(slot);
                    },
                }
                false
            },
        }
    }
}


pub open spec fn evicted_effects(ev: Seq<u32>) -> Seq<BridgeEffect> {
    ev.map_values(|s: u32| BridgeEffect::EntityEvicted { entity: EntitySlot(s) })
}

/// The timers left once every entity in `ev` is evicted.
pub open spec fn timers_without(t: Map<(u32, Seq<char>), u64>, ev: Seq<u32>) -> Map<(u32, Seq<char>), u64> {
    t.restrict(t.dom().filter(|k: (u32, Seq<char>)| !ev.contains(k.0)))
}

/// The phase-4 state before any message is delivered.
pub open spec fn sim_start(ents: Map<u32, EntityView>, faults: Map<u32, FaultEntry>, client: Map<u32, u32>, out: Seq<BridgeEffect>) -> SimView {
    SimView { ents, faults, client, out, batch: seq![], evict: seq![], current: None, active: false }
}

proof fn lemma_contains_push(s: Seq<u32>, a: u32)
    ensures
        forall|x: u32| #[trigger] s.push(a).contains(x) == (s.contains(x) || x == a),
{
    assert forall|x: u32| #[trigger] s.push(a).contains(x) == (s.contains(x) || x == a) by {
        if s.push(a).contains(x) {
            let i = choose|i: int| 0 <= i < s.push(a).len() && s.push(a)[i] == x;
            if i < s.len() {
                assert(s[i] == x);
            }
        }
        if s.contains(x) {
            let i = choose|i: int| 0 <= i < s.len() && s[i] == x;
            assert(s.push(a)[i] == x);
        }
        if x == a {
            assert(s.push(a)[s.len() as int] == a);
        }
    }
}

proof fn lemma_simulate_step(st: SimView, q: Seq<Addressed>, os: Seq<Outcome>, tick: u64, i: int, o: Outcome)
    requires
        0 <= i < q.len(),
        os.len() == i,
    ensures
        simulate(st, q.take(i + 1), os.push(o), tick) == sim_step(simulate(st, q.take(i), os, tick), q[i], o, tick),
{
    assert(q.take(i + 1).drop_last() =~= q.take(i));
    assert(os.push(o).drop_last() =~= os);
}

impl<W: WasmExecutor> TickEngine<W> {
    /// Phase 4: delivers each entity's messages, in ascending slot order, to the game's
    /// handler, from the entity's current state; then evicts the entities whose faults
    /// reached the end of the escalation ladder, with their timers, telling the bridge.
    /// Returns the effects each handler left for phase 5.
    fn phase4_simulate(&mut self, q: Vec<Addressed>) -> (batch: Vec<(EntitySlot, Vec<TickEffect>)>)
        requires
            old(self).wf(),
            old(self).tick_spec() < TICK_LIMIT,
        ensures
            final(self).wf(),
            exists|os: Seq<Outcome>, ws: Seq<W>|
                #![trigger simulate(sim_start(old(self).entities_spec(), old(self).faults_spec(), old(self).client_seqs_spec(), old(self).effects_spec()), q@, os, old(self).tick_spec()), ws.len()]
                os.len() == q@.len() && {
                    let init = sim_start(old(self).entities_spec(), old(self).faults_spec(), old(self).client_seqs_spec(), old(self).effects_spec());
                    &&& answered(init, q@, os, ws, old(self).tick_spec())
                    &&& ws[0] == old(self).wasm_spec()
                    &&& final(self).wasm_spec() == ws[q@.len() as int]
                } && {
                    let fin = simulate(
                        sim_start(old(self).entities_spec(), old(self).faults_spec(), old(self).client_seqs_spec(), old(self).effects_spec()),
                        q@,
                        os,
                        old(self).tick_spec(),
                    );
                    &&& batch_view(batch@) == fin.batch
                    &&& final(self).faults_spec() == fin.faults
                    &&& final(self).client_seqs_spec() == fin.client
                    &&& final(self).entities_spec() == fin.ents.remove_keys(fin.evict.to_set())
                    &&& final(self).effects_spec() == fin.out + evicted_effects(fin.evict)
                    &&& final(self).timers_spec() == timers_without(old(self).timers_spec(), fin.evict)
                },
            final(self).tick_spec() == old(self).tick_spec(),
            final(self).config_spec() == old(self).config_spec(),
            final(self).island_spec() == old(self).island_spec(),
            final(self).timer_tick() == old(self).timer_tick(),
            final(self).deferred_spec() == old(self).deferred_spec(),
            final(self).input_seqs_spec() == old(self).input_seqs_spec(),
            final(self).buffer_spec() == old(self).buffer_spec(),
            final(self).checkpointing_spec() == old(self).checkpointing_spec(),
            final(self).checkpoint_interval_spec() == old(self).checkpoint_interval_spec(),
            final(self).last_checkpoint_spec() == old(self).last_checkpoint_spec(),
    {
        let tick = self.tick;
        let ghost init = sim_start(self.entities_spec(), self.faults_spec(), self.client_seqs_spec(), self.effects_spec());
        let ghost q0 = q@;
        let ghost mut os: Seq<Outcome> = Seq::empty();
        let ghost mut ws: Seq<W> = seq![self.wasm];
        let mut batch: Vec<(EntitySlot, Vec<TickEffect>)> = Vec::new();
        let mut evict: Vec<EntitySlot> = Vec::new();
        let mut current: Option<u32> = None;
        let mut active = false;
        let mut rest = q;
        let n = rest.len();
        let mut i: usize = 0;
        proof {
            assert(q0.take(0) =~= Seq::<Addressed>::empty());
            assert(batch_view(batch@) =~= Seq::<(EntitySlot, Seq<TickEffect>)>::empty());
            assert(slots_of(evict@) =~= Seq::<u32>::empty());
        }
        while rest.len() > 0
            invariant
                self.wf(),
                i + rest@.len() == q0.len(),
                q0.len() == n,
                rest@ == q0.skip(i as int),
                os.len() == i,
                ws.len() == i + 1,
                ws[i as int] == self.wasm,
                ws[0] == old(self).wasm,
                forall|j: int| 0 <= j < i ==> #[trigger] answered_at(init, q0, os, ws, tick, j),
                tick == self.tick_spec(),
                tick < TICK_LIMIT,
                self.sim_view(batch_view(batch@), slots_of(evict@), current, active) == simulate(init, q0.take(i as int), os, tick),
                active ==> current is Some && self.entities_spec().contains_key(current->0) && fault_count(
                    self.faults_spec(),
                    current->0,
                ) < EVICTION_THRESHOLD,
                self.config_spec() == old(self).config_spec(),
                self.island_spec() == old(self).island_spec(),
                self.timers_spec() == old(self).timers_spec(),
                self.timer_tick() == old(self).timer_tick(),
                self.deferred_spec() == old(self).deferred_spec(),
                self.input_seqs_spec() == old(self).input_seqs_spec(),
                self.buffer_spec() == old(self).buffer_spec(),
                self.checkpointing_spec() == old(self).checkpointing_spec(),
                self.checkpoint_interval_spec() == old(self).checkpoint_interval_spec(),
                self.last_checkpoint_spec() == old(self).last_checkpoint_spec(),
            decreases rest.len(),
        {
            let ghost before = rest@;
            let ghost st0 = self.sim_view(batch_view(batch@), slots_of(evict@), current, active);
            let (slot, msg) = rest.remove(0);
            proof {
                assert((slot, msg) == q0[i as int]) by {
                    assert(before[0] == q0.skip(i as int)[0]);
                }
                assert(rest@ =~= q0.skip(i + 1));
            }
            let fresh = match current {
                Some(c) => c != slot.0,
                None => true,
            };
            if fresh {
                current = Some(slot.0);
                let runs = self.fault_tracker.should_tick(&slot, tick);
                let present = match self.find_entity(slot.0) {
                    Ok(_) => true,
                    Err(_) => false,
                };
                active = runs && present;
            }
            proof {
                assert(self.sim_view(batch_view(batch@), slots_of(evict@), current, active) == start_entity(st0, slot.0, tick));
            }
            if active {
                let idx = match self.find_entity(slot.0) {
                    Ok(j) => j,
                    Err(_) => 0,
                };
                let current_state = copy_bytes(self.entities[idx].state.as_slice());
                let ghost st1 = self.sim_view(batch_view(batch@), slots_of(evict@), current, active);
                proof {
                    lemma_index_of(self.entities@, entity_key(), idx as int);
                    assert(current_state@ == st1.ents[slot.0].state);
                }
                let ghost w0 = self.wasm;
                let outcome = self.wasm.call_handle_message(slot, current_state.as_slice(), &msg);
                let seq = match (&outcome, &msg) {
                    (Ok(_), TickMessage::Input { payload, .. }) => self.wasm.extract_client_input_seq(payload.as_slice()),
                    _ => None,
                };
                let ghost w1 = self.wasm;
                let ghost o: Outcome = (outcome, seq);
                proof {
                    assert(w0.answers(slot, st1.ents[slot.0].state, msg, o.0));
                    assert(seq_answered(w1, msg, o.0, o.1));
                }
                active = self.apply_outcome(slot, &msg, outcome, seq, &mut batch, &mut evict);
                proof {
                    lemma_simulate_step(init, q0, os, tick, i as int, o);
                    let os2 = os.push(o);
                    let ws2 = ws.push(w1);
                    assert(os2.take(i as int) =~= os);
                    assert forall|j: int| 0 <= j < i + 1 implies #[trigger] answered_at(init, q0, os2, ws2, tick, j) by {
                        assert(os2.take(j) =~= os.take(j));
                        if j < i {
                            assert(answered_at(init, q0, os, ws, tick, j));
                        }
                    }
                    os = os2;
                    ws = ws2;
                    if active {
                        assert(fault_count(self.faults_spec(), slot.0) <= fault_count(st1.faults, slot.0));
                    }
                }
            } else {
                proof {
                    let o: Outcome = arbitrary();
                    lemma_simulate_step(init, q0, os, tick, i as int, o);
                    let os2 = os.push(o);
                    let ws2 = ws.push(self.wasm);
                    assert(os2.take(i as int) =~= os);
                    assert forall|j: int| 0 <= j < i + 1 implies #[trigger] answered_at(init, q0, os2, ws2, tick, j) by {
                        assert(os2.take(j) =~= os.take(j));
                        if j < i {
                            assert(answered_at(init, q0, os, ws, tick, j));
                        }
                    }
                    os = os2;
                    ws = ws2;
                }
            }
            i = i + 1;
        }
        assert(q0.take(n as int) =~= q0);
        assert(answered(init, q0, os, ws, tick));
        let ghost fin = simulate(init, q0, os, tick);
        let ghost ev = slots_of(evict@);
        let ghost t0 = self.timers_spec();
        let ghost e0 = self.entities_spec();
        let ghost out0 = self.effects_spec();
        let mut k: usize = 0;
        proof {
            assert(e0.remove_keys(ev.take(0).to_set()) =~= e0);
            assert(timers_without(t0, ev.take(0)) =~= t0);
            assert(out0 + evicted_effects(ev.take(0)) =~= out0);
        }
        while k < evict.len()
            invariant
                self.wf(),
                k <= evict@.len(),
                ev == slots_of(evict@),
                self.entities_spec() == e0.remove_keys(ev.take(k as int).to_set()),
                self.timers_spec() == timers_without(t0, ev.take(k as int)),
                self.effects_spec() == out0 + evicted_effects(ev.take(k as int)),
                self.faults_spec() == fin.faults,
                self.client_seqs_spec() == fin.client,
                self.wasm == ws[n as int],
                self.tick_spec() == old(self).tick_spec(),
                self.config_spec() == old(self).config_spec(),
                self.island_spec() == old(self).island_spec(),
                self.timer_tick() == old(self).timer_tick(),
                self.deferred_spec() == old(self).deferred_spec(),
                self.input_seqs_spec() == old(self).input_seqs_spec(),
                self.buffer_spec() == old(self).buffer_spec(),
                self.checkpointing_spec() == old(self).checkpointing_spec(),
                self.checkpoint_interval_spec() == old(self).checkpoint_interval_spec(),
                self.last_checkpoint_spec() == old(self).last_checkpoint_spec(),
            decreases evict.len() - k,
        {
            let slot = evict[k];
            let ghost old_s = self.entities@;
            let ghost em = self.entities_spec();
            match self.find_entity(slot.0) {
                Ok(j) => {
                    self.entities.remove(j);
                    proof {
                        lemma_remove(old_s, entity_key(), j as int);
                        assert(entity_views(self.entities@) =~= entity_views(old_s).remove(slot.0));
                    }
                },
                Err(_) => {},
            }
            let ghost tm = self.timers_spec();
            self.timers.clear_entity(&slot);
            self.effects_out.push(BridgeEffect::EntityEvicted { entity: slot });
            proof {
                assert(ev.take(k + 1) =~= ev.take(k as int).push(slot.0));
                lemma_contains_push(ev.take(k as int), slot.0);
                assert(ev.take(k + 1).to_set() =~= ev.take(k as int).to_set().insert(slot.0));
                assert(self.entities_spec() =~= e0.remove_keys(ev.take(k + 1).to_set()));
                assert(self.timers_spec() =~= timers_without(t0, ev.take(k + 1)));
                assert(evicted_effects(ev.take(k + 1)) =~= evicted_effects(ev.take(k as int)).push(
                    BridgeEffect::EntityEvicted { entity: slot },
                ));
                assert(self.effects_spec() =~= out0 + evicted_effects(ev.take(k + 1)));
            }
            k = k + 1;
        }
        proof {
            assert(ev.take(k as int) =~= ev);
        }
        batch
    }
}


// ---------------------------------------------------------------------------
// Phase 5: effects
// ---------------------------------------------------------------------------

/// What phase 5 builds up while it applies the handlers' effects.
pub struct FxView {
    pub deferred: Seq<DeferredSend>,
    pub out: Seq<BridgeEffect>,
    pub timers: Map<(u32, Seq<char>), u64>,
    /// Entity states to persist, in order.
    pub persist: Seq<(EntitySlot, Seq<u8>)>,
    /// Entities that asked to stop.
    pub remove: Seq<u32>,
}

/// Applying effect `e` of the entity at `source`, given the entities, the tick the timers
/// count from and the tick rate.
pub open spec fn fx_step(st: FxView, source: EntitySlot, e: TickEffect, ents: Map<u32, EntityView>, now: u64, rate: u8) -> FxView {
    match e {
        TickEffect::Send { target, payload } => if st.deferred.len() < MAX_DEFERRED_SENDS {
            FxView { deferred: st.deferred.push(DeferredSend { source, target, payload }), ..st }
        } else {
            st
        },
        TickEffect::SendRemote { target, payload } => FxView {
            out: st.out.push(BridgeEffect::SendRemote { target, payload }),
            ..st
        },
        TickEffect::Persist => if ents.contains_key(source.0) {
            FxView { persist: st.persist.push((source, ents[source.0].state)), ..st }
        } else {
            st
        },
        TickEffect::SetTimer { name, delay_ms } => FxView {
            timers: st.timers.insert((source.0, name@), (now + delay_ticks(delay_ms, rate)) as u64),
            ..st
        },
        TickEffect::CancelTimer(name) => FxView { timers: st.timers.remove((source.0, name@)), ..st },
        TickEffect::EmitTelemetry { event } => FxView {
            out: st.out.push(BridgeEffect::EmitTelemetry { event }),
            ..st
        },
        TickEffect::Reply(_) => st,
        TickEffect::StopSelf => FxView { remove: st.remove.push(source.0), ..st },
        TickEffect::RequestRemote { target, payload } => FxView {
            out: st.out.push(BridgeEffect::RequestRemote { source_entity: source, target, payload }),
            ..st
        },
        TickEffect::FireAndForget { target, payload } => FxView {
            out: st.out.push(BridgeEffect::FireAndForget { target, payload }),
            ..st
        },
        TickEffect::ZoneTransfer { player_id, target_zone, position_bits, velocity_bits, buffs } => FxView {
            out: st.out.push(
                BridgeEffect::ZoneTransferRequest {
                    player_id,
                    source_entity: source,
                    target_zone,
                    position_bits,
                    velocity_bits,
                    buffs,
                },
            ),
            ..st
        },
    }
}

/// Each effect with its source entity, in batch order.
pub open spec fn flatten_batch(b: Seq<(EntitySlot, Seq<TickEffect>)>) -> Seq<(EntitySlot, TickEffect)>
    decreases b.len(),
{
    if b.len() == 0 {
        seq![]
    } else {
        flatten_batch(b.drop_last()) + b.last().1.map_values(|e: TickEffect| (b.last().0, e))
    }
}

/// Applying effects in order.
pub open spec fn fx_run(st: FxView, ops: Seq<(EntitySlot, TickEffect)>, ents: Map<u32, EntityView>, now: u64, rate: u8) -> FxView
    decreases ops.len(),
{
    if ops.len() == 0 {
        st
    } else {
        fx_step(fx_run(st, ops.drop_last(), ents, now, rate), ops.last().0, ops.last().1, ents, now, rate)
    }
}

pub open spec fn persist_view(p: Seq<(EntitySlot, Vec<u8>)>) -> Seq<(EntitySlot, Seq<u8>)> {
    p.map_values(|x: (EntitySlot, Vec<u8>)| (x.0, x.1@))
}

/// The entities after recording each persisted state as its entity's checkpoint.
pub open spec fn with_checkpoints(ents: Map<u32, EntityView>, p: Seq<(EntitySlot, Seq<u8>)>) -> Map<u32, EntityView>
    decreases p.len(),
{
    if p.len() == 0 {
        ents
    } else {
        let m = with_checkpoints(ents, p.drop_last());
        let (slot, st) = p.last();
        if m.contains_key(slot.0) {
            m.insert(slot.0, EntityView { checkpoint_state: Some(st), ..m[slot.0] })
        } else {
            m
        }
    }
}

proof fn lemma_fx_run_push(st: FxView, ops: Seq<(EntitySlot, TickEffect)>, x: (EntitySlot, TickEffect), ents: Map<u32, EntityView>, now: u64, rate: u8)
    ensures
        fx_run(st, ops.push(x), ents, now, rate) == fx_step(fx_run(st, ops, ents, now, rate), x.0, x.1, ents, now, rate),
{
    assert(ops.push(x).drop_last() =~= ops);
}

proof fn lemma_flatten_take(b: Seq<(EntitySlot, Seq<TickEffect>)>, i: int)
    requires
        0 <= i < b.len(),
    ensures
        flatten_batch(b.take(i + 1)) == flatten_batch(b.take(i)) + b[i].1.map_values(|e: TickEffect| (b[i].0, e)),
{
    assert(b.take(i + 1).drop_last() =~= b.take(i));
}

impl<W: WasmExecutor> TickEngine<W> {
    pub closed spec fn fx_view(&self, persist: Seq<(EntitySlot, Seq<u8>)>, remove: Seq<u32>) -> FxView {
        FxView { deferred: self.deferred_spec(), out: self.effects_spec(), timers: self.timers_spec(), persist, remove }
    }

    /// Applies one effect of the entity at `source` (see `fx_step`).
    fn apply_effect(
        &mut self,
        source: EntitySlot,
        effect: TickEffect,
        persist: &mut Vec<(EntitySlot, Vec<u8>)>,
        remove: &mut Vec<EntitySlot>,
    )
        requires
            old(self).wf(),
        ensures
            final(self).wasm_spec() == old(self).wasm_spec(),
            final(self).wf(),
            final(self).fx_view(persist_view(final(persist)@), slots_of(final(remove)@)) == fx_step(
                old(self).fx_view(persist_view(old(persist)@), slots_of(old(remove)@)),
                source,
                effect,
                old(self).entities_spec(),
                old(self).timer_tick(),
                old(self).config_spec().tick_rate_hz,
            ),
            final(self).entities_spec() == old(self).entities_spec(),
            final(self).entity_seq() == old(self).entity_seq(),
            final(self).tick_spec() == old(self).tick_spec(),
            final(self).config_spec() == old(self).config_spec(),
            final(self).island_spec() == old(self).island_spec(),
            final(self).timer_tick() == old(self).timer_tick(),
            final(self).faults_spec() == old(self).faults_spec(),
            final(self).input_seqs_spec() == old(self).input_seqs_spec(),
            final(self).client_seqs_spec() == old(self).client_seqs_spec(),
            final(self).buffer_spec() == old(self).buffer_spec(),
            final(self).checkpointing_spec() == old(self).checkpointing_spec(),
            final(self).checkpoint_interval_spec() == old(self).checkpoint_interval_spec(),
            final(self).last_checkpoint_spec() == old(self).last_checkpoint_spec(),
    {
        match effect {
            TickEffect::Send { target, payload } => {
                if self.deferred_sends.len() < MAX_DEFERRED_SENDS {
                    self.deferred_sends.push(DeferredSend { source, target, payload });
                }
            },
            TickEffect::SendRemote { target, payload } => {
                self.effects_out.push(BridgeEffect::SendRemote { target, payload });
            },
            TickEffect::Persist => {
                match self.find_entity(source.0) {
                    Ok(i) => {
                        proof {
                            lemma_index_of(self.entities@, entity_key(), i as int);
                        }
                        let copy = copy_bytes(self.entities[i].state.as_slice());
                        proof {
                            assert(persist_view(persist@.push((source, copy))) =~= persist_view(persist@).push((source, copy@)));
                        }
                        persist.push((source, copy));
                    },
                    Err(_) => {},
                }
            },
            TickEffect::SetTimer { name, delay_ms } => {
                proof {
                    self.lemma_timer_room(delay_ms);
                }
                self.timers.set_timer(source, name, delay_ms);
            },
            TickEffect::CancelTimer(name) => {
                self.timers.cancel_timer(&source, name.as_str());
            },
            TickEffect::EmitTelemetry { event } => {
                self.effects_out.push(BridgeEffect::EmitTelemetry { event });
            },
            TickEffect::Reply(_) => {},
            TickEffect::StopSelf => {
                proof {
                    assert(slots_of(remove@.push(source)) =~= slots_of(remove@).push(source.0));
                }
                remove.push(source);
            },
            TickEffect::RequestRemote { target, payload } => {
                self.effects_out.push(BridgeEffect::RequestRemote { source_entity: source, target, payload });
            },
            TickEffect::FireAndForget { target, payload } => {
                self.effects_out.push(BridgeEffect::FireAndForget { target, payload });
            },
            TickEffect::ZoneTransfer { player_id, target_zone, position_bits, velocity_bits, buffs } => {
                self.effects_out.push(
                    BridgeEffect::ZoneTransferRequest {
                        player_id,
                        source_entity: source,
                        target_zone,
                        position_bits,
                        velocity_bits,
                        buffs,
                    },
                );
            },
        }
    }

    /// Applies every effect of the batch in order; returns the states to persist and the
    /// entities that asked to stop.
    fn apply_batch(&mut self, batch: Vec<(EntitySlot, Vec<TickEffect>)>) -> (r: (
        Vec<(EntitySlot, Vec<u8>)>,
        Vec<EntitySlot>,
    ))
        requires
            old(self).wf(),
        ensures
            final(self).wasm_spec() == old(self).wasm_spec(),
            final(self).wf(),
            final(self).fx_view(persist_view(r.0@), slots_of(r.1@)) == fx_run(
                old(self).fx_view(seq![], seq![]),
                flatten_batch(batch_view(batch@)),
                old(self).entities_spec(),
                old(self).timer_tick(),
                old(self).config_spec().tick_rate_hz,
            ),
            final(self).entities_spec() == old(self).entities_spec(),
            final(self).entity_seq() == old(self).entity_seq(),
            final(self).tick_spec() == old(self).tick_spec(),
            final(self).config_spec() == old(self).config_spec(),
            final(self).island_spec() == old(self).island_spec(),
            final(self).timer_tick() == old(self).timer_tick(),
            final(self).faults_spec() == old(self).faults_spec(),
            final(self).input_seqs_spec() == old(self).input_seqs_spec(),
            final(self).client_seqs_spec() == old(self).client_seqs_spec(),
            final(self).buffer_spec() == old(self).buffer_spec(),
            final(self).checkpointing_spec() == old(self).checkpointing_spec(),
            final(self).checkpoint_interval_spec() == old(self).checkpoint_interval_spec(),
            final(self).last_checkpoint_spec() == old(self).last_checkpoint_spec(),
    {
        let ghost ents = self.entities_spec();
        let ghost now = self.timer_tick();
        let ghost rate = self.config_spec().tick_rate_hz;
        let ghost init = self.fx_view(seq![], seq![]);
        let ghost bv = batch_view(batch@);
        let mut persist: Vec<(EntitySlot, Vec<u8>)> = Vec::new();
        let mut remove: Vec<EntitySlot> = Vec::new();
        let mut rest = batch;
        let n = rest.len();
        let mut i: usize = 0;
        proof {
            assert(persist_view(persist@) =~= Seq::<(EntitySlot, Seq<u8>)>::empty());
            assert(slots_of(remove@) =~= Seq::<u32>::empty());
            assert(bv.take(0) =~= Seq::<(EntitySlot, Seq<TickEffect>)>::empty());
        }
        while rest.len() > 0
            invariant
                self.wasm == old(self).wasm,
                self.wf(),
                i + rest@.len() == bv.len(),
                bv.len() == n,
                batch_view(rest@) == bv.skip(i as int),
                self.fx_view(persist_view(persist@), slots_of(remove@)) == fx_run(init, flatten_batch(bv.take(i as int)), ents, now, rate),
                self.entities_spec() == ents,
                self.entity_seq() == old(self).entity_seq(),
                self.timer_tick() == now,
                self.config_spec() == old(self).config_spec(),
                rate == self.config_spec().tick_rate_hz,
                self.tick_spec() == old(self).tick_spec(),
                self.island_spec() == old(self).island_spec(),
                self.faults_spec() == old(self).faults_spec(),
                self.input_seqs_spec() == old(self).input_seqs_spec(),
                self.client_seqs_spec() == old(self).client_seqs_spec(),
                self.buffer_spec() == old(self).buffer_spec(),
                self.checkpointing_spec() == old(self).checkpointing_spec(),
                self.checkpoint_interval_spec() == old(self).checkpoint_interval_spec(),
                self.last_checkpoint_spec() == old(self).last_checkpoint_spec(),
            decreases rest.len(),
        {
            let ghost before = rest@;
            let (source, effects) = rest.remove(0);
            proof {
                assert((source, effects@) == bv[i as int]) by {
                    assert(batch_view(before)[0] == bv.skip(i as int)[0]);
                }
                assert(rest@ =~= before.skip(1));
                assert forall|j: int| 0 <= j < rest@.len() implies batch_view(rest@)[j] == bv.skip(i + 1)[j] by {
                    assert(batch_view(before)[j + 1] == bv.skip(i as int)[j + 1]);
                }
                assert(batch_view(rest@) =~= bv.skip(i + 1));
                lemma_flatten_take(bv, i as int);
            }
            let ghost done = flatten_batch(bv.take(i as int));
            let ghost es = effects@;
            let ghost ops = es.map_values(|e: TickEffect| (source, e));
            let mut effs = effects;
            let m = effs.len();
            let mut j: usize = 0;
            proof {
                assert(ops.take(0) =~= Seq::<(EntitySlot, TickEffect)>::empty());
                assert(done + ops.take(0) =~= done);
            }
            while effs.len() > 0
                invariant
                    self.wasm == old(self).wasm,
                    self.wf(),
                    j + effs@.len() == es.len(),
                    es.len() == m,
                    effs@ == es.skip(j as int),
                    ops == es.map_values(|e: TickEffect| (source, e)),
                    self.fx_view(persist_view(persist@), slots_of(remove@)) == fx_run(init, done + ops.take(j as int), ents, now, rate),
                    self.entities_spec() == ents,
                    self.entity_seq() == old(self).entity_seq(),
                    self.timer_tick() == now,
                    self.config_spec() == old(self).config_spec(),
                    rate == self.config_spec().tick_rate_hz,
                    self.tick_spec() == old(self).tick_spec(),
                    self.island_spec() == old(self).island_spec(),
                    self.faults_spec() == old(self).faults_spec(),
                    self.input_seqs_spec() == old(self).input_seqs_spec(),
                    self.client_seqs_spec() == old(self).client_seqs_spec(),
                    self.buffer_spec() == old(self).buffer_spec(),
                    self.checkpointing_spec() == old(self).checkpointing_spec(),
                    self.checkpoint_interval_spec() == old(self).checkpoint_interval_spec(),
                    self.last_checkpoint_spec() == old(self).last_checkpoint_spec(),
                decreases effs.len(),
            {
                let ghost eb = effs@;
                let e = effs.remove(0);
                proof {
                    assert(e == es[j as int]) by {
                        assert(eb[0] == es.skip(j as int)[0]);
                    }
                    assert(effs@ =~= es.skip(j + 1));
                    assert(done + ops.take(j + 1) =~= (done + ops.take(j as int)).push((source, e)));
                    lemma_fx_run_push(init, done + ops.take(j as int), (source, e), ents, now, rate);
                }
                self.apply_effect(source, e, &mut persist, &mut remove);
                j = j + 1;
            }
            proof {
                assert(ops.take(j as int) =~= ops);
            }
            i = i + 1;
        }
        proof {
            assert(bv.take(i as int) =~= bv);
        }
        (persist, remove)
    }
}


impl<W: WasmExecutor> TickEngine<W> {
    /// Records each persisted state as its entity's checkpoint, reports the states to the
    /// bridge as one `Persist` effect, and removes the entities that asked to stop.
    fn finish_effects(&mut self, persist: Vec<(EntitySlot, Vec<u8>)>, remove: Vec<EntitySlot>)
        requires
            old(self).wf(),
        ensures
            final(self).wasm_spec() == old(self).wasm_spec(),
            final(self).wf(),
            final(self).entities_spec() == with_checkpoints(old(self).entities_spec(), persist_view(persist@)).remove_keys(
                slots_of(remove@).to_set(),
            ),
            final(self).timers_spec() == timers_without(old(self).timers_spec(), slots_of(remove@)),
            final(self).client_seqs_spec() == old(self).client_seqs_spec().remove_keys(slots_of(remove@).to_set()),
            persist@.len() > 0 ==> final(self).effects_spec() == old(self).effects_spec().push(
                BridgeEffect::Persist { entity_states: persist },
            ),
            persist@.len() == 0 ==> final(self).effects_spec() == old(self).effects_spec(),
            final(self).deferred_spec() == old(self).deferred_spec(),
            final(self).tick_spec() == old(self).tick_spec(),
            final(self).config_spec() == old(self).config_spec(),
            final(self).island_spec() == old(self).island_spec(),
            final(self).timer_tick() == old(self).timer_tick(),
            final(self).faults_spec() == old(self).faults_spec(),
            final(self).input_seqs_spec() == old(self).input_seqs_spec(),
            final(self).buffer_spec() == old(self).buffer_spec(),
            final(self).checkpointing_spec() == old(self).checkpointing_spec(),
            final(self).checkpoint_interval_spec() == old(self).checkpoint_interval_spec(),
            final(self).last_checkpoint_spec() == old(self).last_checkpoint_spec(),
    {
        let ghost e0 = self.entities_spec();
        let ghost pv = persist_view(persist@);
        let mut i: usize = 0;
        proof {
            assert(pv.take(0) =~= Seq::<(EntitySlot, Seq<u8>)>::empty());
        }
        while i < persist.len()
            invariant
                self.wasm == old(self).wasm,
                self.wf(),
                i <= persist@.len(),
                pv == persist_view(persist@),
                self.entities_spec() == with_checkpoints(e0, pv.take(i as int)),
                self.effects_spec() == old(self).effects_spec(),
                self.timers_spec() == old(self).timers_spec(),
                self.client_seqs_spec() == old(self).client_seqs_spec(),
                self.deferred_spec() == old(self).deferred_spec(),
                self.tick_spec() == old(self).tick_spec(),
                self.config_spec() == old(self).config_spec(),
                self.island_spec() == old(self).island_spec(),
                self.timer_tick() == old(self).timer_tick(),
                self.faults_spec() == old(self).faults_spec(),
                self.input_seqs_spec() == old(self).input_seqs_spec(),
                self.buffer_spec() == old(self).buffer_spec(),
                self.checkpointing_spec() == old(self).checkpointing_spec(),
                self.checkpoint_interval_spec() == old(self).checkpoint_interval_spec(),
                self.last_checkpoint_spec() == old(self).last_checkpoint_spec(),
            decreases persist.len() - i,
        {
            let slot = persist[i].0;
            proof {
                assert(pv.take(i + 1).drop_last() =~= pv.take(i as int));
                assert(pv.take(i + 1).last() == pv[i as int]);
            }
            let ghost old_s = self.entities@;
            match self.find_entity(slot.0) {
                Ok(j) => {
                    let copy = copy_bytes(persist[i].1.as_slice());
                    let mut e = self.entities.remove(j);
                    let ghost ev0 = e@;
                    proof {
                        lemma_index_of(old_s, entity_key(), j as int);
                    }
                    e.checkpoint_state = Some(copy);
                    self.entities.insert(j, e);
                    proof {
                        assert(self.entities@ =~= old_s.update(j as int, e));
                        lemma_update(old_s, entity_key(), j as int, e);
                        assert(e@ =~= EntityView { checkpoint_state: Some(pv[i as int].1), ..ev0 });
                        assert(entity_views(self.entities@) =~= entity_views(old_s).insert(slot.0, e@));
                    }
                },
                Err(_) => {},
            }
            i = i + 1;
        }
        proof {
            assert(pv.take(i as int) =~= pv);
        }
        if persist.len() > 0 {
            self.effects_out.push(BridgeEffect::Persist { entity_states: persist });
        }
        let ghost e1 = self.entities_spec();
        let ghost t0 = self.timers_spec();
        let ghost c0 = self.client_seqs_spec();
        let ghost out1 = self.effects_spec();
        let ghost ev = slots_of(remove@);
        let mut k: usize = 0;
        proof {
            assert(e1.remove_keys(ev.take(0).to_set()) =~= e1);
            assert(timers_without(t0, ev.take(0)) =~= t0);
            assert(c0.remove_keys(ev.take(0).to_set()) =~= c0);
        }
        while k < remove.len()
            invariant
                self.wasm == old(self).wasm,
                self.wf(),
                k <= remove@.len(),
                ev == slots_of(remove@),
                self.entities_spec() == e1.remove_keys(ev.take(k as int).to_set()),
                self.timers_spec() == timers_without(t0, ev.take(k as int)),
                self.client_seqs_spec() == c0.remove_keys(ev.take(k as int).to_set()),
                self.effects_spec() == out1,
                self.deferred_spec() == old(self).deferred_spec(),
                self.tick_spec() == old(self).tick_spec(),
                self.config_spec() == old(self).config_spec(),
                self.island_spec() == old(self).island_spec(),
                self.timer_tick() == old(self).timer_tick(),
                self.faults_spec() == old(self).faults_spec(),
                self.input_seqs_spec() == old(self).input_seqs_spec(),
                self.buffer_spec() == old(self).buffer_spec(),
                self.checkpointing_spec() == old(self).checkpointing_spec(),
                self.checkpoint_interval_spec() == old(self).checkpoint_interval_spec(),
                self.last_checkpoint_spec() == old(self).last_checkpoint_spec(),
            decreases remove.len() - k,
        {
            let slot = remove[k];
            self.remove_entity(&slot);
            proof {
                assert(ev.take(k + 1) =~= ev.take(k as int).push(slot.0));
                lemma_contains_push(ev.take(k as int), slot.0);
                assert(ev.take(k + 1).to_set() =~= ev.take(k as int).to_set().insert(slot.0));
                assert(self.entities_spec() =~= e1.remove_keys(ev.take(k + 1).to_set()));
                assert(self.timers_spec() =~= timers_without(t0, ev.take(k + 1)));
                assert(self.client_seqs_spec() =~= c0.remove_keys(ev.take(k + 1).to_set()));
            }
            k = k + 1;
        }
        proof {
            assert(ev.take(k as int) =~= ev);
        }
    }
}


// ---------------------------------------------------------------------------
// Snapshots and checkpoints
// ---------------------------------------------------------------------------

/// The entity a record restores: clean, with the recorded state as its initial state and
/// no checkpoint.
pub open spec fn restored(r: EntityRecord) -> EntityView {
    EntityView { slot: r.0, state: r.1, owner_session: r.2, dirty: false, init_state: r.1, checkpoint_state: None }
}

/// The entities after restoring each record in order (a later record of a slot wins).
pub open spec fn put_records(m: Map<u32, EntityView>, rs: Seq<EntityRecord>) -> Map<u32, EntityView>
    decreases rs.len(),
{
    if rs.len() == 0 {
        m
    } else {
        put_records(m, rs.drop_last()).insert(rs.last().0, restored(rs.last()))
    }
}

/// The buffer after recording each record in order.
pub open spec fn buffer_records(m: Map<u32, (Seq<u8>, Option<Seq<char>>)>, rs: Seq<EntityRecord>) -> Map<u32, (Seq<u8>, Option<Seq<char>>)>
    decreases rs.len(),
{
    if rs.len() == 0 {
        m
    } else {
        buffer_records(m, rs.drop_last()).insert(rs.last().0, (rs.last().1, rs.last().2))
    }
}

/// The buffer after copying in the current state of every dirty entity, in order.
pub open spec fn buffer_dirty(m: Map<u32, (Seq<u8>, Option<Seq<char>>)>, es: Seq<EntityState>) -> Map<u32, (Seq<u8>, Option<Seq<char>>)>
    decreases es.len(),
{
    if es.len() == 0 {
        m
    } else {
        let m2 = buffer_dirty(m, es.drop_last());
        let e = es.last();
        if e.dirty {
            m2.insert(e.slot.0, (e.state@, opt_session(e.owner_session)))
        } else {
            m2
        }
    }
}

/// The buffer after copying in the state of every dirty entity of `ents`.
pub open spec fn buffer_with(m: Map<u32, (Seq<u8>, Option<Seq<char>>)>, ents: Map<u32, EntityView>) -> Map<
    u32,
    (Seq<u8>, Option<Seq<char>>),
> {
    Map::new(
        |k: u32| m.contains_key(k) || (ents.contains_key(k) && ents[k].dirty),
        |k: u32| if ents.contains_key(k) && ents[k].dirty {
            (ents[k].state, ents[k].owner_session)
        } else {
            m[k]
        },
    )
}

proof fn lemma_buffer_dirty_map(m: Map<u32, (Seq<u8>, Option<Seq<char>>)>, es: Seq<EntityState>)
    requires
        ascending(es, entity_key()),
    ensures
        buffer_dirty(m, es) == buffer_with(m, entity_views(es)),
    decreases es.len(),
{
    if es.len() == 0 {
        assert(entity_views(es) =~= Map::<u32, EntityView>::empty());
        assert(buffer_with(m, entity_views(es)) =~= m);
    } else {
        let t = es.drop_last();
        let e = es.last();
        assert(ascending(t, entity_key()));
        lemma_buffer_dirty_map(m, t);
        assert(t.insert(t.len() as int, e) =~= es);
        assert forall|i: int| 0 <= i < t.len() implies entity_key()(#[trigger] t[i]) < entity_key()(e) by {
            assert(t[i] == es[i]);
        }
        lemma_insert(t, entity_key(), t.len() as int, e);
        assert(entity_views(es) =~= entity_views(t).insert(e.slot.0, e@));
        assert(buffer_dirty(m, es) =~= buffer_with(m, entity_views(es)));
    }
}

/// Copying in the dirty entities changes nothing when no entity is dirty.
proof fn lemma_buffer_dirty_none(m: Map<u32, (Seq<u8>, Option<Seq<char>>)>, es: Seq<EntityState>)
    requires
        forall|a: int| 0 <= a < es.len() ==> !(#[trigger] es[a]).dirty,
    ensures
        buffer_dirty(m, es) == m,
    decreases es.len(),
{
    if es.len() > 0 {
        let d = es.drop_last();
        assert forall|a: int| 0 <= a < d.len() implies !(#[trigger] d[a]).dirty by {
            assert(d[a] == es[a]);
        }
        lemma_buffer_dirty_none(m, d);
        assert(!es[es.len() - 1].dirty);
    }
}

/// Restoring records and then taking a checkpoint gives the records back: every restored
/// entity is clean, the restored checkpoint buffer holds exactly the restored slots (so a
/// checkpoint taken right after restoring keeps all of it), and each slot's buffer entry is
/// the state and owner of that slot's restored entity (the last record of the slot).
pub proof fn law_restore_then_snapshot(rs: Seq<EntityRecord>)
    ensures
        forall|k: u32| #[trigger] put_records(Map::empty(), rs).contains_key(k) ==> !put_records(
            Map::empty(),
            rs,
        )[k].dirty,
        buffer_records(Map::empty(), rs).restrict(put_records(Map::empty(), rs).dom()) == buffer_records(
            Map::empty(),
            rs,
        ),
        forall|k: u32| #[trigger] buffer_records(Map::empty(), rs).contains_key(k) ==> buffer_records(
            Map::empty(),
            rs,
        )[k] == (put_records(Map::empty(), rs)[k].state, put_records(Map::empty(), rs)[k].owner_session),
    decreases rs.len(),
{
    if rs.len() > 0 {
        law_restore_then_snapshot(rs.drop_last());
    }
    let e = put_records(Map::empty(), rs);
    let b = buffer_records(Map::empty(), rs);
    assert(b.dom() =~= e.dom()) by {
        lemma_records_same_keys(rs);
    }
    assert(b.restrict(e.dom()) =~= b);
}

/// Restoring records and recording them in the buffer touch the same slots.
proof fn lemma_records_same_keys(rs: Seq<EntityRecord>)
    ensures
        buffer_records(Map::empty(), rs).dom() == put_records(Map::empty(), rs).dom(),
    decreases rs.len(),
{
    if rs.len() > 0 {
        lemma_records_same_keys(rs.drop_last());
        assert(buffer_records(Map::empty(), rs).dom() =~= put_records(Map::empty(), rs).dom());
    }
}

pub open spec fn clean(v: EntityView) -> EntityView {
    EntityView { dirty: false, ..v }
}

/// Each entity as a checkpoint record.
pub open spec fn entity_records(es: Seq<EntityState>) -> Seq<EntityRecord> {
    es.map_values(|e: EntityState| (e.slot.0, e.state@, opt_session(e.owner_session)))
}

/// Records a passivation snapshot restores: at most `MAX_SNAPSHOT_ENTITY_STATE` bytes of state.
pub open spec fn small_record() -> spec_fn(EntityRecord) -> bool {
    |r: EntityRecord| r.1.len() <= MAX_SNAPSHOT_ENTITY_STATE
}

fn find_buffer(v: &Vec<CheckpointEntity>, slot: u32) -> (r: Result<usize, usize>)
    requires
        ascending(v@, record_key()),
    ensures
        r matches Ok(i) ==> i < v@.len() && v@[i as int].slot == slot,
        r matches Err(p) ==> p <= v@.len() && (forall|j: int| 0 <= j < p ==> (#[trigger] v@[j]).slot < slot) && (
        forall|j: int| p <= j < v@.len() ==> slot < (#[trigger] v@[j]).slot),
        r is Err <==> !buffer_map(v@).contains_key(slot),
{
    let mut i: usize = 0;
    while i < v.len()
        invariant
            i <= v@.len(),
            ascending(v@, record_key()),
            forall|j: int| 0 <= j < i ==> (#[trigger] v@[j]).slot < slot,
        decreases v.len() - i,
    {
        let k = v[i].slot;
        if k == slot {
            proof {
                lemma_index_of(v@, record_key(), i as int);
            }
            return Ok(i);
        }
        if k > slot {
            proof {
                assert forall|j: int| i <= j < v@.len() implies slot < (#[trigger] v@[j]).slot by {
                    if j > i {
                        assert(record_key()(v@[i as int]) < record_key()(v@[j]));
                    }
                }
                if has(v@, record_key(), slot) {
                    let j = choose|j: int| 0 <= j < v@.len() && record_key()(#[trigger] v@[j]) == slot;
                    assert(v@[j].slot == slot);
                }
            }
            return Err(i);
        }
        i = i + 1;
    }
    proof {
        if has(v@, record_key(), slot) {
            let j = choose|j: int| 0 <= j < v@.len() && record_key()(#[trigger] v@[j]) == slot;
            assert(v@[j].slot < slot);
        }
    }
    Err(i)
}

impl<W: WasmExecutor> TickEngine<W> {
    /// Stores a buffer entry under its slot, replacing one with that slot.
    fn put_buffer(&mut self, e: CheckpointEntity)
        requires
            old(self).wf(),
        ensures
            final(self).wasm_spec() == old(self).wasm_spec(),
            final(self).wf(),
            final(self).buffer_spec() == old(self).buffer_spec().insert(e.slot, (e.state@, opt_text(e.owner_session))),
            final(self).entities_spec() == old(self).entities_spec(),
            final(self).entity_seq() == old(self).entity_seq(),
            final(self).tick_spec() == old(self).tick_spec(),
            final(self).config_spec() == old(self).config_spec(),
            final(self).island_spec() == old(self).island_spec(),
            final(self).timers_spec() == old(self).timers_spec(),
            final(self).timer_tick() == old(self).timer_tick(),
            final(self).faults_spec() == old(self).faults_spec(),
            final(self).deferred_spec() == old(self).deferred_spec(),
            final(self).effects_spec() == old(self).effects_spec(),
            final(self).input_seqs_spec() == old(self).input_seqs_spec(),
            final(self).client_seqs_spec() == old(self).client_seqs_spec(),
            final(self).checkpointing_spec() == old(self).checkpointing_spec(),
            final(self).checkpoint_interval_spec() == old(self).checkpoint_interval_spec(),
            final(self).last_checkpoint_spec() == old(self).last_checkpoint_spec(),
    {
        let ghost old_s = self.snapshot_buffer@;
        let ghost ev = (e.state@, opt_text(e.owner_session));
        let k = e.slot;
        match find_buffer(&self.snapshot_buffer, k) {
            Ok(i) => {
                self.snapshot_buffer.set(i, e);
                proof {
                    lemma_update(old_s, record_key(), i as int, self.snapshot_buffer@[i as int]);
                    assert(self.snapshot_buffer@ == old_s.update(i as int, self.snapshot_buffer@[i as int]));
                }
            },
            Err(p) => {
                self.snapshot_buffer.insert(p, e);
                proof {
                    lemma_insert(old_s, record_key(), p as int, self.snapshot_buffer@[p as int]);
                    assert(self.snapshot_buffer@ == old_s.insert(p as int, self.snapshot_buffer@[p as int]));
                }
            },
        }
        proof {
            assert(buffer_map(self.snapshot_buffer@) =~= buffer_map(old_s).insert(k, ev));
        }
    }

    /// A checkpoint of the entities, copying only the entities that changed since the last
    /// one: the state of each dirty entity is copied into the checkpoint buffer and the
    /// entity marked clean; buffer entries of entities that no longer exist are dropped.
    /// The payload lists the buffer in ascending slot order.
    pub fn build_snapshot(&mut self) -> (payload: CheckpointPayload)
        requires
            old(self).wf(),
        ensures
            final(self).wasm_spec() == old(self).wasm_spec(),
            final(self).wf(),
            final(self).buffer_spec() == buffer_dirty(old(self).buffer_spec(), old(self).entity_seq()).restrict(
                old(self).entities_spec().dom(),
            ),
            (forall|k: u32| #[trigger] old(self).entities_spec().contains_key(k) ==> !old(self).entities_spec()[k].dirty)
                ==> final(self).buffer_spec() == old(self).buffer_spec().restrict(old(self).entities_spec().dom()),
            final(self).entities_spec() == old(self).entities_spec().map_values(|v: EntityView| clean(v)),
            ascending(payload.entities@, record_key()),
            buffer_map(payload.entities@) == final(self).buffer_spec(),
            records_of(payload.entities@) == final(self).buffer_records_spec(),
            final(self).tick_spec() == old(self).tick_spec(),
            final(self).config_spec() == old(self).config_spec(),
            final(self).island_spec() == old(self).island_spec(),
            final(self).timers_spec() == old(self).timers_spec(),
            final(self).timer_tick() == old(self).timer_tick(),
            final(self).faults_spec() == old(self).faults_spec(),
            final(self).deferred_spec() == old(self).deferred_spec(),
            final(self).effects_spec() == old(self).effects_spec(),
            final(self).input_seqs_spec() == old(self).input_seqs_spec(),
            final(self).client_seqs_spec() == old(self).client_seqs_spec(),
            final(self).checkpointing_spec() == old(self).checkpointing_spec(),
            final(self).checkpoint_interval_spec() == old(self).checkpoint_interval_spec(),
            final(self).last_checkpoint_spec() == old(self).last_checkpoint_spec(),
    {
        let ghost es0 = self.entities@;
        let ghost b0 = self.buffer_spec();
        let n = self.entities.len();
        let mut i: usize = 0;
        proof {
            assert(es0.take(0) =~= Seq::<EntityState>::empty());
        }
        while i < n
            invariant
                self.wasm == old(self).wasm,
                self.wf(),
                i <= n,
                n == es0.len(),
                self.entities@.len() == n,
                forall|j: int| 0 <= j < i ==> (#[trigger] self.entities@[j])@ == clean(es0[j]@),
                forall|j: int| i <= j < n ==> #[trigger] self.entities@[j] == es0[j],
                self.buffer_spec() == buffer_dirty(b0, es0.take(i as int)),
                self.tick_spec() == old(self).tick_spec(),
                self.config_spec() == old(self).config_spec(),
                self.island_spec() == old(self).island_spec(),
                self.timers_spec() == old(self).timers_spec(),
                self.timer_tick() == old(self).timer_tick(),
                self.faults_spec() == old(self).faults_spec(),
                self.deferred_spec() == old(self).deferred_spec(),
                self.effects_spec() == old(self).effects_spec(),
                self.input_seqs_spec() == old(self).input_seqs_spec(),
                self.client_seqs_spec() == old(self).client_seqs_spec(),
                self.checkpointing_spec() == old(self).checkpointing_spec(),
                self.checkpoint_interval_spec() == old(self).checkpoint_interval_spec(),
                self.last_checkpoint_spec() == old(self).last_checkpoint_spec(),
            decreases n - i,
        {
            proof {
                assert(es0.take(i + 1).drop_last() =~= es0.take(i as int));
                assert(es0.take(i + 1).last() == es0[i as int]);
            }
            if self.entities[i].dirty {
                let entry = CheckpointEntity {
                    slot: self.entities[i].slot.0,
                    state: copy_bytes(self.entities[i].state.as_slice()),
                    owner_session: match &self.entities[i].owner_session {
                        Some(sid) => Some(String::from_str(sid.as_str())),
                        None => None,
                    },
                };
                self.put_buffer(entry);
                let ghost s1 = self.entities@;
                let mut e = self.entities.remove(i);
                e.dirty = false;
                self.entities.insert(i, e);
                proof {
                    assert(self.entities@ =~= s1.update(i as int, e));
                    lemma_update(s1, entity_key(), i as int, e);
                    assert(e@ =~= clean(es0[i as int]@));
                }
            } else {
                proof {
                    assert(self.entities@[i as int]@ =~= clean(es0[i as int]@));
                }
            }
            i = i + 1;
        }
        proof {
            assert(es0.take(n as int) =~= es0);
            self.lemma_clean_map(es0);
            if forall|k: u32| #[trigger] entity_views(es0).contains_key(k) ==> !entity_views(es0)[k].dirty {
                assert forall|a: int| 0 <= a < es0.len() implies !(#[trigger] es0[a]).dirty by {
                    lemma_index_of(es0, entity_key(), a);
                    assert(entity_views(es0).contains_key(es0[a].slot.0));
                }
                lemma_buffer_dirty_none(b0, es0);
            }
        }
        self.retain_live_buffer();
        let mut entities: Vec<CheckpointEntity> = Vec::new();
        let mut j: usize = 0;
        while j < self.snapshot_buffer.len()
            invariant
                self.wasm == old(self).wasm,
                j <= self.snapshot_buffer@.len(),
                entities@.len() == j,
                forall|a: int| 0 <= a < j ==> (#[trigger] entities@[a]).slot == self.snapshot_buffer@[a].slot
                    && entities@[a].state@ == self.snapshot_buffer@[a].state@ && opt_text(entities@[a].owner_session)
                    == opt_text(self.snapshot_buffer@[a].owner_session),
            decreases self.snapshot_buffer.len() - j,
        {
            let b = &self.snapshot_buffer[j];
            entities.push(
                CheckpointEntity { slot: b.slot, state: copy_bytes(b.state.as_slice()), owner_session: copy_opt_text(&b.owner_session) },
            );
            j = j + 1;
        }
        proof {
            let s = self.snapshot_buffer@;
            let t = entities@;
            assert forall|a: int, c: int| 0 <= a < c < t.len() implies record_key()(#[trigger] t[a]) < record_key()(#[trigger] t[c]) by {
                assert(record_key()(s[a]) < record_key()(s[c]));
            }
            assert forall|k: u32| #[trigger] buffer_map(t).contains_key(k) == buffer_map(s).contains_key(k) by {
                if has(t, record_key(), k) {
                    let a = choose|a: int| 0 <= a < t.len() && record_key()(#[trigger] t[a]) == k;
                    assert(record_key()(s[a]) == k);
                }
                if has(s, record_key(), k) {
                    let a = choose|a: int| 0 <= a < s.len() && record_key()(#[trigger] s[a]) == k;
                    assert(record_key()(t[a]) == k);
                }
            }
            assert forall|k: u32| #[trigger] buffer_map(t).contains_key(k) implies buffer_map(t)[k] == buffer_map(s)[k] by {
                let a = choose|a: int| 0 <= a < t.len() && record_key()(#[trigger] t[a]) == k;
                lemma_index_of(t, record_key(), a);
                assert(record_key()(s[a]) == k);
                lemma_index_of(s, record_key(), a);
            }
            assert(buffer_map(t) =~= buffer_map(s));
            assert(records_of(t) =~= records_of(s));
        }
        CheckpointPayload { entities }
    }

    /// Entity views keep their slots when every entity is marked clean.
    proof fn lemma_clean_map(&self, es0: Seq<EntityState>)
        requires
            ascending(es0, entity_key()),
            self.entities@.len() == es0.len(),
            forall|j: int| 0 <= j < es0.len() ==> (#[trigger] self.entities@[j])@ == clean(es0[j]@),
        ensures
            self.entities_spec() == entity_views(es0).map_values(|v: EntityView| clean(v)),
    {
        let s = self.entities@;
        assert forall|j: int| 0 <= j < s.len() implies entity_key()(#[trigger] s[j]) == entity_key()(es0[j]) by {
            assert(s[j]@.slot == es0[j]@.slot);
        }
        let target = entity_views(es0).map_values(|v: EntityView| clean(v));
        assert forall|k: u32| #[trigger] self.entities_spec().contains_key(k) == target.contains_key(k) by {
            if has(s, entity_key(), k) {
                let a = choose|a: int| 0 <= a < s.len() && entity_key()(#[trigger] s[a]) == k;
                assert(entity_key()(es0[a]) == k);
            }
            if has(es0, entity_key(), k) {
                let a = choose|a: int| 0 <= a < es0.len() && entity_key()(#[trigger] es0[a]) == k;
                assert(entity_key()(s[a]) == k);
            }
        }
        assert forall|k: u32| #[trigger] target.contains_key(k) implies self.entities_spec()[k] == target[k] by {
            let a = choose|a: int| 0 <= a < es0.len() && entity_key()(#[trigger] es0[a]) == k;
            lemma_index_of(es0, entity_key(), a);
            assert(entity_key()(s[a]) == k);
            assert forall|x: int, y: int| 0 <= x < y < s.len() implies entity_key()(#[trigger] s[x]) < entity_key()(#[trigger] s[y]) by {
                assert(entity_key()(es0[x]) < entity_key()(es0[y]));
            }
            lemma_index_of(s, entity_key(), a);
        }
        assert(self.entities_spec() =~= target);
    }

    /// Drops buffer entries whose entity no longer exists.
    fn retain_live_buffer(&mut self)
        requires
            old(self).wf(),
        ensures
            final(self).wasm_spec() == old(self).wasm_spec(),
            final(self).wf(),
            final(self).buffer_spec() == old(self).buffer_spec().restrict(old(self).entities_spec().dom()),
            final(self).entities_spec() == old(self).entities_spec(),
            final(self).entity_seq() == old(self).entity_seq(),
            final(self).tick_spec() == old(self).tick_spec(),
            final(self).config_spec() == old(self).config_spec(),
            final(self).island_spec() == old(self).island_spec(),
            final(self).timers_spec() == old(self).timers_spec(),
            final(self).timer_tick() == old(self).timer_tick(),
            final(self).faults_spec() == old(self).faults_spec(),
            final(self).deferred_spec() == old(self).deferred_spec(),
            final(self).effects_spec() == old(self).effects_spec(),
            final(self).input_seqs_spec() == old(self).input_seqs_spec(),
            final(self).client_seqs_spec() == old(self).client_seqs_spec(),
            final(self).checkpointing_spec() == old(self).checkpointing_spec(),
            final(self).checkpoint_interval_spec() == old(self).checkpoint_interval_spec(),
            final(self).last_checkpoint_spec() == old(self).last_checkpoint_spec(),
    {
        let ghost b0 = self.buffer_spec();
        let ghost live = self.entities_spec().dom();
        let mut i: usize = 0;
        while i < self.snapshot_buffer.len()
            invariant
                self.wasm == old(self).wasm,
                self.wf(),
                i <= self.snapshot_buffer@.len(),
                live == self.entities_spec().dom(),
                forall|j: int| 0 <= j < i ==> live.contains(#[trigger] self.snapshot_buffer@[j].slot),
                forall|k: u32| #[trigger] self.buffer_spec().contains_key(k) ==> b0.contains_key(k) && self.buffer_spec()[k] == b0[k],
                forall|k: u32| #[trigger] b0.contains_key(k) && live.contains(k) ==> self.buffer_spec().contains_key(k),
                self.entities_spec() == old(self).entities_spec(),
                self.entity_seq() == old(self).entity_seq(),
                self.tick_spec() == old(self).tick_spec(),
                self.config_spec() == old(self).config_spec(),
                self.island_spec() == old(self).island_spec(),
                self.timers_spec() == old(self).timers_spec(),
                self.timer_tick() == old(self).timer_tick(),
                self.faults_spec() == old(self).faults_spec(),
                self.deferred_spec() == old(self).deferred_spec(),
                self.effects_spec() == old(self).effects_spec(),
                self.input_seqs_spec() == old(self).input_seqs_spec(),
                self.client_seqs_spec() == old(self).client_seqs_spec(),
                self.checkpointing_spec() == old(self).checkpointing_spec(),
                self.checkpoint_interval_spec() == old(self).checkpoint_interval_spec(),
                self.last_checkpoint_spec() == old(self).last_checkpoint_spec(),
            decreases self.snapshot_buffer.len() - i,
        {
            let slot = self.snapshot_buffer[i].slot;
            let present = match self.find_entity(slot) {
                Ok(_) => true,
                Err(_) => false,
            };
            if present {
                i = i + 1;
            } else {
                let ghost s = self.snapshot_buffer@;
                let ghost bm = self.buffer_spec();
                assert(forall|k: u32| #[trigger] bm.contains_key(k) ==> b0.contains_key(k) && bm[k] == b0[k]);
                self.snapshot_buffer.remove(i);
                proof {
                    lemma_remove(s, record_key(), i as int);
                    assert(buffer_map(self.snapshot_buffer@) =~= buffer_map(s).remove(slot));
                    assert forall|k: u32| #[trigger] self.buffer_spec().contains_key(k) implies b0.contains_key(k)
                        && self.buffer_spec()[k] == b0[k] by {
                        assert(bm.contains_key(k));
                    }
                    assert forall|j: int| 0 <= j < i implies live.contains(#[trigger] self.snapshot_buffer@[j].slot) by {
                        assert(self.snapshot_buffer@[j] == s[j]);
                    }
                }
            }
        }
        proof {
            let s = self.snapshot_buffer@;
            assert forall|k: u32| #[trigger] self.buffer_spec().contains_key(k) implies live.contains(k) by {
                let a = choose|a: int| 0 <= a < s.len() && record_key()(#[trigger] s[a]) == k;
                assert(live.contains(s[a].slot));
            }
            assert(self.buffer_spec() =~= b0.restrict(live));
        }
    }
}


proof fn lemma_put_records_push(m: Map<u32, EntityView>, rs: Seq<EntityRecord>, r: EntityRecord)
    ensures
        put_records(m, rs.push(r)) == put_records(m, rs).insert(r.0, restored(r)),
{
    assert(rs.push(r).drop_last() =~= rs);
}

proof fn lemma_buffer_records_push(m: Map<u32, (Seq<u8>, Option<Seq<char>>)>, rs: Seq<EntityRecord>, r: EntityRecord)
    ensures
        buffer_records(m, rs.push(r)) == buffer_records(m, rs).insert(r.0, (r.1, r.2)),
{
    assert(rs.push(r).drop_last() =~= rs);
}

impl<W: WasmExecutor> TickEngine<W> {
    /// Restores the engine from a decoded checkpoint at `tick`: the checkpoint's entities
    /// (clean, with their checkpointed state as initial state) and checkpoint buffer
    /// replace the old ones, and all transient state (deferred sends, timers, faults,
    /// input tracking, pending effects) is cleared.
    pub fn restore_from_checkpoint(&mut self, tick: u64, payload: &CheckpointPayload)
        requires
            old(self).wf(),
        ensures
            final(self).wf(),
            final(self).tick_spec() == tick,
            final(self).entities_spec() == put_records(Map::empty(), records_of(payload.entities@)),
            final(self).buffer_spec() == buffer_records(Map::empty(), records_of(payload.entities@)),
            final(self).deferred_spec() == Seq::<DeferredSend>::empty(),
            final(self).timers_spec() == Map::<(u32, Seq<char>), u64>::empty(),
            final(self).timer_tick() == 0,
            final(self).faults_spec() == Map::<u32, FaultEntry>::empty(),
            final(self).input_seqs_spec() == Seq::<(Seq<char>, u32)>::empty(),
            final(self).effects_spec() == Seq::<BridgeEffect>::empty(),
            final(self).last_checkpoint_spec() == tick,
            final(self).client_seqs_spec() == old(self).client_seqs_spec(),
            final(self).config_spec() == old(self).config_spec(),
            final(self).island_spec() == old(self).island_spec(),
            final(self).checkpointing_spec() == old(self).checkpointing_spec(),
            final(self).checkpoint_interval_spec() == old(self).checkpoint_interval_spec(),
    {
        self.tick = tick;
        self.entities = Vec::new();
        self.snapshot_buffer = Vec::new();
        self.deferred_sends = Vec::new();
        self.timers = TimerManager::new(self.config.tick_rate_hz);
        self.fault_tracker = FaultTracker::new();
        self.last_input_seq = Vec::new();
        self.effects_out = Vec::new();
        self.last_checkpoint_tick = tick;
        let ghost rs = records_of(payload.entities@);
        proof {
            assert(self.entities_spec() =~= Map::<u32, EntityView>::empty());
            assert(self.buffer_spec() =~= Map::<u32, (Seq<u8>, Option<Seq<char>>)>::empty());
            assert(self.input_seqs_spec() =~= Seq::<(Seq<char>, u32)>::empty());
            assert(rs.take(0) =~= Seq::<EntityRecord>::empty());
        }
        let mut i: usize = 0;
        while i < payload.entities.len()
            invariant
                self.wf(),
                i <= payload.entities@.len(),
                rs == records_of(payload.entities@),
                self.entities_spec() == put_records(Map::empty(), rs.take(i as int)),
                self.buffer_spec() == buffer_records(Map::empty(), rs.take(i as int)),
                self.tick_spec() == tick,
                self.last_checkpoint_spec() == tick,
                self.deferred_spec() == Seq::<DeferredSend>::empty(),
                self.timers_spec() == Map::<(u32, Seq<char>), u64>::empty(),
                self.timer_tick() == 0,
                self.faults_spec() == Map::<u32, FaultEntry>::empty(),
                self.input_seqs_spec() == Seq::<(Seq<char>, u32)>::empty(),
                self.effects_spec() == Seq::<BridgeEffect>::empty(),
                self.client_seqs_spec() == old(self).client_seqs_spec(),
                self.config_spec() == old(self).config_spec(),
                self.island_spec() == old(self).island_spec(),
                self.checkpointing_spec() == old(self).checkpointing_spec(),
                self.checkpoint_interval_spec() == old(self).checkpoint_interval_spec(),
            decreases payload.entities.len() - i,
        {
            let pe = &payload.entities[i];
            let ghost r = rs[i as int];
            proof {
                assert(rs.take(i + 1) =~= rs.take(i as int).push(r));
                lemma_put_records_push(Map::empty(), rs.take(i as int), r);
                lemma_buffer_records_push(Map::empty(), rs.take(i as int), r);
            }
            self.put_buffer(
                CheckpointEntity { slot: pe.slot, state: copy_bytes(pe.state.as_slice()), owner_session: copy_opt_text(&pe.owner_session) },
            );
            let owner = match &pe.owner_session {
                Some(o) => Some(SessionId::new(o.as_str())),
                None => None,
            };
            let e = EntityState {
                slot: EntitySlot(pe.slot),
                state: copy_bytes(pe.state.as_slice()),
                owner_session: owner,
                dirty: false,
                init_state: copy_bytes(pe.state.as_slice()),
                checkpoint_state: None,
            };
            proof {
                assert(e@ =~= restored(r));
            }
            self.put_entity(e);
            i = i + 1;
        }
        proof {
            assert(rs.take(i as int) =~= rs);
        }
    }

    /// The passivation snapshot: the island, the tick, and every entity's slot, state and
    /// owner, in ascending slot order, bitcode-encoded.
    pub fn passivation_snapshot(&self) -> (snap: IslandSnapshot)
        requires
            self.wf(),
        ensures
            snap.island_id@ == self.island_spec(),
            snap.tick == self.tick_spec(),
            snap.state@ == bitcode_records(entity_records(self.entity_seq())),
            bitcode_records_of(snap.state@) == Some(entity_records(self.entity_seq())),
    {
        let mut entries: Vec<(u32, Vec<u8>, Option<String>)> = Vec::new();
        let mut i: usize = 0;
        while i < self.entities.len()
            invariant
                i <= self.entities@.len(),
                tuple_records(entries@) == entity_records(self.entities@).take(i as int),
            decreases self.entities.len() - i,
        {
            let e = &self.entities[i];
            let t = (
                e.slot.0,
                copy_bytes(e.state.as_slice()),
                match &e.owner_session {
                    Some(sid) => Some(String::from_str(sid.as_str())),
                    None => None,
                },
            );
            proof {
                assert(tuple_records(entries@.push(t)) =~= tuple_records(entries@).push((t.0, t.1@, opt_text(t.2))));
                assert(entity_records(self.entities@).take(i + 1) =~= entity_records(self.entities@).take(i as int).push(
                    entity_records(self.entities@)[i as int],
                ));
            }
            entries.push(t);
            i = i + 1;
        }
        proof {
            assert(entity_records(self.entities@).take(i as int) =~= entity_records(self.entities@));
        }
        let state = encode_records(&entries);
        IslandSnapshot { island_id: IslandId::new(self.island_id.as_str()), tick: self.tick, state }
    }

    /// Restores entity states from a passivation snapshot, resuming at its tick. A snapshot
    /// that does not decode, or lists more than `MAX_SNAPSHOT_ENTITIES` entities, restores
    /// no entity; entity states over `MAX_SNAPSHOT_ENTITY_STATE` bytes are skipped. Restored
    /// entities are clean, with their state as initial state and no checkpoint.
    pub fn restore_from_snapshot(&mut self, snapshot: &IslandSnapshot)
        requires
            old(self).wf(),
        ensures
            final(self).wf(),
            final(self).tick_spec() == snapshot.tick,
            match bitcode_records_of(snapshot.state@) {
                None => final(self).entities_spec() == old(self).entities_spec(),
                Some(rs) => if rs.len() > MAX_SNAPSHOT_ENTITIES {
                    final(self).entities_spec() == old(self).entities_spec()
                } else {
                    final(self).entities_spec() == put_records(old(self).entities_spec(), rs.filter(small_record()))
                },
            },
            final(self).config_spec() == old(self).config_spec(),
            final(self).island_spec() == old(self).island_spec(),
            final(self).timers_spec() == old(self).timers_spec(),
            final(self).timer_tick() == old(self).timer_tick(),
            final(self).faults_spec() == old(self).faults_spec(),
            final(self).deferred_spec() == old(self).deferred_spec(),
            final(self).effects_spec() == old(self).effects_spec(),
            final(self).input_seqs_spec() == old(self).input_seqs_spec(),
            final(self).client_seqs_spec() == old(self).client_seqs_spec(),
            final(self).buffer_spec() == old(self).buffer_spec(),
            final(self).checkpointing_spec() == old(self).checkpointing_spec(),
            final(self).checkpoint_interval_spec() == old(self).checkpoint_interval_spec(),
            final(self).last_checkpoint_spec() == old(self).last_checkpoint_spec(),
    {
        self.tick = snapshot.tick;
        let entries = match decode_records(snapshot.state.as_slice()) {
            Ok(v) => v,
            Err(_) => {
                return ;
            },
        };
        if entries.len() > MAX_SNAPSHOT_ENTITIES {
            return ;
        }
        let ghost rs = tuple_records(entries@);
        let ghost e0 = self.entities_spec();
        proof {
            assert(rs.take(0) =~= Seq::<EntityRecord>::empty());
            assert(rs.take(0).filter(small_record()) =~= Seq::<EntityRecord>::empty()) by {
                reveal(Seq::filter);
            }
        }
        let mut i: usize = 0;
        while i < entries.len()
            invariant
                self.wf(),
                i <= entries@.len(),
                rs == tuple_records(entries@),
                self.entities_spec() == put_records(e0, rs.take(i as int).filter(small_record())),
                self.tick_spec() == snapshot.tick,
                self.config_spec() == old(self).config_spec(),
                self.island_spec() == old(self).island_spec(),
                self.timers_spec() == old(self).timers_spec(),
                self.timer_tick() == old(self).timer_tick(),
                self.faults_spec() == old(self).faults_spec(),
                self.deferred_spec() == old(self).deferred_spec(),
                self.effects_spec() == old(self).effects_spec(),
                self.input_seqs_spec() == old(self).input_seqs_spec(),
                self.client_seqs_spec() == old(self).client_seqs_spec(),
                self.buffer_spec() == old(self).buffer_spec(),
                self.checkpointing_spec() == old(self).checkpointing_spec(),
                self.checkpoint_interval_spec() == old(self).checkpoint_interval_spec(),
                self.last_checkpoint_spec() == old(self).last_checkpoint_spec(),
            decreases entries.len() - i,
        {
            let ghost r = rs[i as int];
            proof {
                assert(rs.take(i + 1) =~= rs.take(i as int).push(r));
                lemma_filter_push(rs.take(i as int), small_record(), r);
            }
            let t = &entries[i];
            if t.1.len() <= MAX_SNAPSHOT_ENTITY_STATE {
                let owner = match &t.2 {
                    Some(o) => Some(SessionId::new(o.as_str())),
                    None => None,
                };
                let e = EntityState {
                    slot: EntitySlot(t.0),
                    state: copy_bytes(t.1.as_slice()),
                    owner_session: owner,
                    dirty: false,
                    init_state: copy_bytes(t.1.as_slice()),
                    checkpoint_state: None,
                };
                proof {
                    assert(e@ =~= restored(r));
                    lemma_put_records_push(e0, rs.take(i as int).filter(small_record()), r);
                }
                self.put_entity(e);
            }
            i = i + 1;
        }
        proof {
            assert(rs.take(i as int) =~= rs);
        }
    }
}

/// Restoring a passivation snapshot into an island with no entities gives back every
/// entity's slot, state and owner, clean, with its state as initial state and no
/// checkpoint, when there are at most `MAX_SNAPSHOT_ENTITIES` entities of at most
/// `MAX_SNAPSHOT_ENTITY_STATE` bytes each.
pub proof fn law_passivation_roundtrip(es: Seq<EntityState>)
    requires
        ascending(es, entity_key()),
        es.len() <= MAX_SNAPSHOT_ENTITIES,
        forall|i: int| 0 <= i < es.len() ==> (#[trigger] es[i]).state@.len() <= MAX_SNAPSHOT_ENTITY_STATE,
    ensures
        entity_records(es).len() <= MAX_SNAPSHOT_ENTITIES,
        put_records(Map::empty(), entity_records(es).filter(small_record())) == entity_views(es).map_values(
            |v: EntityView| restored((v.slot, v.state, v.owner_session)),
        ),
    decreases es.len(),
{
    let rs = entity_records(es);
    assert forall|i: int| 0 <= i < rs.len() implies small_record()(#[trigger] rs[i]) by {
        assert(rs[i].1 == es[i].state@);
    }
    lemma_filter_all(rs, small_record());
    if es.len() == 0 {
        assert(entity_views(es).map_values(|v: EntityView| restored((v.slot, v.state, v.owner_session))) =~= Map::<u32, EntityView>::empty());
        assert(rs =~= Seq::<EntityRecord>::empty());
    } else {
        let d = es.drop_last();
        let x = es.last();
        assert forall|i: int, j: int| 0 <= i < j < d.len() implies entity_key()(#[trigger] d[i]) < entity_key()(#[trigger] d[j]) by {
            assert(d[i] == es[i] && d[j] == es[j]);
        }
        law_passivation_roundtrip(d);
        let rd = entity_records(d);
        lemma_filter_all(rd, small_record());
        assert(rs =~= rd.push((x.slot.0, x.state@, opt_session(x.owner_session))));
        lemma_put_records_push(Map::empty(), rd, (x.slot.0, x.state@, opt_session(x.owner_session)));
        assert(es =~= d.insert(d.len() as int, x));
        assert forall|i: int| 0 <= i < d.len() implies entity_key()(#[trigger] d[i]) < entity_key()(x) by {
            assert(d[i] == es[i]);
        }
        lemma_insert(d, entity_key(), d.len() as int, x);
        let f = |v: EntityView| restored((v.slot, v.state, v.owner_session));
        assert(entity_views(es) =~= entity_views(d).insert(x.slot.0, x@));
        assert(entity_views(es).map_values(f) =~= entity_views(d).map_values(f).insert(x.slot.0, f(x@)));
        assert(f(x@) =~= restored((x.slot.0, x.state@, opt_session(x.owner_session))));
    }
}

pub(crate) proof fn lemma_filter_all<A>(s: Seq<A>, p: spec_fn(A) -> bool)
    requires
        forall|i: int| 0 <= i < s.len() ==> p(#[trigger] s[i]),
    ensures
        s.filter(p) == s,
    decreases s.len(),
{
    reveal(Seq::filter);
    if s.len() > 0 {
        lemma_filter_all(s.drop_last(), p);
        assert(p(s[s.len() - 1]));
        assert(s.drop_last().push(s.last()) =~= s);
    } else {
        assert(s.filter(p) =~= s);
    }
}

// ---------------------------------------------------------------------------
// The tick
// ---------------------------------------------------------------------------

pub open spec fn has_persist(effects: Seq<BridgeEffect>) -> bool {
    exists|i: int| 0 <= i < effects.len() && (#[trigger] effects[i]) is Persist
}

/// The parts of the engine's state one tick of simulation changes.
pub struct TickStep {
    pub ents: Map<u32, EntityView>,
    pub faults: Map<u32, FaultEntry>,
    pub client: Map<u32, u32>,
    pub timers: Map<(u32, Seq<char>), u64>,
    pub deferred: Seq<DeferredSend>,
    /// Outward effects, before the one that reports persisted states.
    pub out: Seq<BridgeEffect>,
    /// Persisted entity states, reported in one `Persist` effect after `out` when any.
    pub persist: Seq<(EntitySlot, Seq<u8>)>,
}

/// Whether `fired` names, once each, exactly the timers of `timers` due at `tick`.
pub open spec fn fires_due(timers: Map<(u32, Seq<char>), u64>, tick: u64, fired: Seq<(EntitySlot, String)>) -> bool {
    &&& fired_keys(fired).no_duplicates()
    &&& forall|k: (u32, Seq<char>)| #[trigger] fired_keys(fired).contains(k) <==> (timers.contains_key(k)
        && timers[k] <= tick)
}

/// The timers left once those due at `tick` fired.
pub open spec fn timers_after(timers: Map<(u32, Seq<char>), u64>, tick: u64) -> Map<(u32, Seq<char>), u64> {
    timers.restrict(timers.dom().filter(|k: (u32, Seq<char>)| timers[k] > tick))
}

/// Phases 4 and 5 of a tick at `tick`: from entities `ents`, fault records `faults`,
/// client input numbers `client` and the timers left after firing, with no deferred send
/// and no outward effect pending, the queue `q` is delivered with handler outcomes `os`,
/// faulty entities are evicted, and the handlers' effects are applied.
pub open spec fn tick_step(
    ents: Map<u32, EntityView>,
    faults: Map<u32, FaultEntry>,
    client: Map<u32, u32>,
    timers: Map<(u32, Seq<char>), u64>,
    q: Seq<Addressed>,
    os: Seq<Outcome>,
    tick: u64,
    rate: u8,
) -> TickStep {
    let fin = simulate(sim_start(ents, faults, client, seq![]), q, os, tick);
    let ents4 = fin.ents.remove_keys(fin.evict.to_set());
    let fx = fx_run(
        FxView {
            deferred: seq![],
            out: fin.out + evicted_effects(fin.evict),
            timers: timers_without(timers, fin.evict),
            persist: seq![],
            remove: seq![],
        },
        flatten_batch(fin.batch),
        ents4,
        tick,
        rate,
    );
    TickStep {
        ents: with_checkpoints(ents4, fx.persist).remove_keys(fx.remove.to_set()),
        faults: fin.faults,
        client: fin.client.remove_keys(fx.remove.to_set()),
        timers: timers_without(fx.timers, fx.remove),
        deferred: fx.deferred,
        out: fx.out,
        persist: fx.persist,
    }
}

/// Whether `effects` are `out`, followed by one `Persist` effect of `persist` when that
/// is not empty.
pub open spec fn effects_reported(
    effects: Seq<BridgeEffect>,
    out: Seq<BridgeEffect>,
    persist: Seq<(EntitySlot, Seq<u8>)>,
) -> bool {
    &&& persist.len() == 0 ==> effects == out
    &&& persist.len() > 0 ==> (effects.len() == out.len() + 1 && effects.take(out.len() as int) == out
        && (effects.last() matches BridgeEffect::Persist { entity_states } && persist_view(entity_states@)
        == persist))
}

/// What one tick at the tick number of `pre` does (phases 1 to 5, then a checkpoint when one
/// is due), given the inputs and bridge messages received since the last tick: `post` is
/// the engine after it (its tick number aside) and `checkpoint` what was handed to the
/// writer. Some order of the due timers, a message queue grouped from the tick's messages
/// and one handler outcome per message account for the result.
pub open spec fn tick_outcome<W: WasmExecutor>(
    pre: TickEngine<W>,
    post: TickEngine<W>,
    inputs: Seq<ClientInput>,
    bridge: Seq<BridgeMessage>,
    checkpoint: Option<Vec<u8>>,
) -> bool {
    &&& post.timer_tick() == pre.tick_spec()
    &&& post.input_seqs_spec() == fresh_inputs(pre.input_seqs_spec(), inputs).1
    &&& post.config_spec() == pre.config_spec()
    &&& post.island_spec() == pre.island_spec()
    &&& post.checkpointing_spec() == pre.checkpointing_spec()
    &&& post.checkpoint_interval_spec() == pre.checkpoint_interval_spec()
    &&& exists|fired: Seq<(EntitySlot, String)>, q: Seq<Addressed>, os: Seq<Outcome>, ws: Seq<W>|
        #![trigger tick_step(pre.entities_spec(), pre.faults_spec(), pre.client_seqs_spec(), timers_after(pre.timers_spec(), pre.tick_spec()), q, os, pre.tick_spec(), pre.config_spec().tick_rate_hz), fires_due(pre.timers_spec(), pre.tick_spec(), fired), answered(sim_start(pre.entities_spec(), pre.faults_spec(), pre.client_seqs_spec(), seq![]), q, os, ws, pre.tick_spec())]
        {
            let t = tick_step(
                pre.entities_spec(),
                pre.faults_spec(),
                pre.client_seqs_spec(),
                timers_after(pre.timers_spec(), pre.tick_spec()),
                q,
                os,
                pre.tick_spec(),
                pre.config_spec().tick_rate_hz,
            );
            let due = pre.checkpointing_spec() && (has_persist(post.effects_spec()) || (
            pre.checkpoint_interval_spec() > 0 && pre.tick_spec() >= pre.last_checkpoint_spec()
                + pre.checkpoint_interval_spec()));
            &&& fires_due(pre.timers_spec(), pre.tick_spec(), fired)
            &&& queued(q, tick_messages(fired, bridge, fresh_inputs(pre.input_seqs_spec(), inputs).0, pre.deferred_spec()))
            &&& os.len() == q.len()
            &&& answered(sim_start(pre.entities_spec(), pre.faults_spec(), pre.client_seqs_spec(), seq![]), q, os, ws, pre.tick_spec())
            &&& ws[0] == pre.wasm_spec()
            &&& post.wasm_spec() == ws[q.len() as int]
            &&& post.faults_spec() == t.faults
            &&& post.client_seqs_spec() == t.client
            &&& post.timers_spec() == t.timers
            &&& post.deferred_spec() == t.deferred
            &&& effects_reported(post.effects_spec(), t.out, t.persist)
            &&& (checkpoint is Some <==> due)
            &&& due ==> post.entities_spec() == t.ents.map_values(|v: EntityView| clean(v))
                && post.buffer_spec() == buffer_with(pre.buffer_spec(), t.ents).restrict(t.ents.dom())
                && post.last_checkpoint_spec() == pre.tick_spec()
                && (checkpoint matches Some(d) && exists|nonce: u64| d@ == checkpoint_bytes(
                pre.tick_spec(),
                nonce,
                post.buffer_records_spec(),
            ))
            &&& !due ==> post.entities_spec() == t.ents && post.last_checkpoint_spec()
                == pre.last_checkpoint_spec() && post.buffer_spec() == pre.buffer_spec()
        }
}

/// The checkpoints among `cps`, in order.
pub open spec fn produced(cps: Seq<Option<Vec<u8>>>) -> Seq<Vec<u8>>
    decreases cps.len(),
{
    if cps.len() == 0 {
        Seq::empty()
    } else {
        match cps.last() {
            Some(d) => produced(cps.drop_last()).push(d),
            None => produced(cps.drop_last()),
        }
    }
}

/// A command for the engine from its island's manager.
pub enum EngineCommand {
    Drain,
    Stop,
    /// Stop, handing back a passivation snapshot.
    Passivate,
    AddEntity { slot: EntitySlot, initial_state: Vec<u8>, owner: Option<SessionId> },
    RemoveEntity { slot: EntitySlot },
}

/// What the engine's loop does after a command.
pub enum CommandOutcome {
    Continue,
    Stop,
    Passivated(IslandSnapshot),
}

impl<W: WasmExecutor> TickEngine<W> {
    /// Checkpoints are written from now on, every `interval_secs` seconds of ticks (never
    /// periodically when 0) and whenever an entity persists.
    pub fn enable_checkpoints(&mut self, interval_secs: u32)
        requires
            old(self).wf(),
        ensures
            final(self).wf(),
            final(self).checkpointing_spec(),
            final(self).checkpoint_interval_spec() == interval_secs as u64 * old(self).config_spec().tick_rate_hz as u64,
            final(self).entities_spec() == old(self).entities_spec(),
            final(self).tick_spec() == old(self).tick_spec(),
            final(self).last_checkpoint_spec() == old(self).last_checkpoint_spec(),
            final(self).config_spec() == old(self).config_spec(),
    {
        assert((interval_secs as u64) * (self.config.tick_rate_hz as u64) <= 0xFFFF_FFFF * 255) by (nonlinear_arith)
            requires
                interval_secs <= 0xFFFF_FFFF,
                self.config.tick_rate_hz <= 255,
        ;
        self.checkpoint_interval_ticks = (interval_secs as u64) * (self.config.tick_rate_hz as u64);
        self.checkpointing = true;
    }

    fn persist_pending(&self) -> (b: bool)
        ensures
            b == has_persist(self.effects_spec()),
    {
        let mut i: usize = 0;
        while i < self.effects_out.len()
            invariant
                i <= self.effects_out@.len(),
                forall|j: int| 0 <= j < i ==> !((#[trigger] self.effects_out@[j]) is Persist),
            decreases self.effects_out.len() - i,
        {
            match &self.effects_out[i] {
                BridgeEffect::Persist { .. } => {
                    return true;
                },
                _ => {},
            }
            i = i + 1;
        }
        false
    }

    /// A checkpoint is due when checkpoints are on and an entity persisted this tick or
    /// the checkpoint interval has passed since the last one.
    pub fn checkpoint_due(&self) -> (due: bool)
        ensures
            due == (self.checkpointing_spec() && (has_persist(self.effects_spec()) || (self.checkpoint_interval_spec() > 0
                && self.tick_spec() >= self.last_checkpoint_spec() + self.checkpoint_interval_spec()))),
    {
        if !self.checkpointing {
            return false;
        }
        let periodic_due = self.checkpoint_interval_ticks > 0 && self.tick as u128 >= self.last_checkpoint_tick as u128
            + self.checkpoint_interval_ticks as u128;
        self.persist_pending() || periodic_due
    }

    /// A checkpoint of the current tick for the writer (none when checkpoints are off);
    /// the checkpoint tick is recorded.
    pub fn write_checkpoint(&mut self) -> (data: Option<Vec<u8>>)
        requires
            old(self).wf(),
        ensures
            final(self).wasm_spec() == old(self).wasm_spec(),
            final(self).wf(),
            !old(self).checkpointing_spec() ==> data is None && *final(self) == *old(self),
            old(self).checkpointing_spec() ==> (data matches Some(d) && exists|nonce: u64| d@ == checkpoint_bytes(
                old(self).tick_spec(),
                nonce,
                final(self).buffer_records_spec(),
            )) && final(self).last_checkpoint_spec() == old(self).tick_spec() && final(self).buffer_spec()
                == buffer_dirty(old(self).buffer_spec(), old(self).entity_seq()).restrict(old(self).entities_spec().dom())
                && final(self).entities_spec() == old(self).entities_spec().map_values(|v: EntityView| clean(v)),
            final(self).tick_spec() == old(self).tick_spec(),
            final(self).config_spec() == old(self).config_spec(),
            final(self).island_spec() == old(self).island_spec(),
            final(self).timers_spec() == old(self).timers_spec(),
            final(self).timer_tick() == old(self).timer_tick(),
            final(self).faults_spec() == old(self).faults_spec(),
            final(self).deferred_spec() == old(self).deferred_spec(),
            final(self).effects_spec() == old(self).effects_spec(),
            final(self).input_seqs_spec() == old(self).input_seqs_spec(),
            final(self).client_seqs_spec() == old(self).client_seqs_spec(),
            final(self).checkpointing_spec() == old(self).checkpointing_spec(),
            final(self).checkpoint_interval_spec() == old(self).checkpoint_interval_spec(),
    {
        if !self.checkpointing {
            return None;
        }
        let payload = self.build_snapshot();
        let data = encode_checkpoint(self.tick, &payload);
        self.last_checkpoint_tick = self.tick;
        proof {
            let n = choose|nonce: u64| data@ == checkpoint_bytes(self.tick, nonce, records_of(payload.entities@));
            assert(data@ == checkpoint_bytes(old(self).tick_spec(), n, self.buffer_records_spec()));
        }
        Some(data)
    }

    /// The checkpoint buffer's records, in ascending slot order.
    pub closed spec fn buffer_records_spec(&self) -> Seq<EntityRecord> {
        records_of(self.snapshot_buffer@)
    }

    /// The final checkpoint before the island stops (none when checkpoints are off); the
    /// caller waits until the writer acknowledges it.
    pub fn write_final_checkpoint(&mut self) -> (data: Option<Vec<u8>>)
        requires
            old(self).wf(),
        ensures
            final(self).wf(),
            !old(self).checkpointing_spec() ==> data is None,
            old(self).checkpointing_spec() ==> (data matches Some(d) && exists|nonce: u64| d@ == checkpoint_bytes(
                old(self).tick_spec(),
                nonce,
                final(self).buffer_records_spec(),
            )),
            final(self).tick_spec() == old(self).tick_spec(),
            final(self).last_checkpoint_spec() == old(self).last_checkpoint_spec(),
    {
        if !self.checkpointing {
            return None;
        }
        let payload = self.build_snapshot();
        Some(encode_checkpoint(self.tick, &payload))
    }

    /// Phase 5: applies the handlers' effects in order (see `fx_step`), records the
    /// persisted states as checkpoints and reports them in one `Persist` effect, then
    /// removes the entities that asked to stop.
    fn phase5_batch_effects(&mut self, batch: Vec<(EntitySlot, Vec<TickEffect>)>)
        requires
            old(self).wf(),
        ensures
            final(self).wasm_spec() == old(self).wasm_spec(),
            final(self).wf(),
            ({
                let fx = fx_run(
                    old(self).fx_view(seq![], seq![]),
                    flatten_batch(batch_view(batch@)),
                    old(self).entities_spec(),
                    old(self).timer_tick(),
                    old(self).config_spec().tick_rate_hz,
                );
                &&& final(self).deferred_spec() == fx.deferred
                &&& final(self).timers_spec() == timers_without(fx.timers, fx.remove)
                &&& final(self).entities_spec() == with_checkpoints(old(self).entities_spec(), fx.persist).remove_keys(
                    fx.remove.to_set(),
                )
                &&& final(self).client_seqs_spec() == old(self).client_seqs_spec().remove_keys(fx.remove.to_set())
                &&& fx.persist.len() == 0 ==> final(self).effects_spec() == fx.out
                &&& fx.persist.len() > 0 ==> (final(self).effects_spec().len() == fx.out.len() + 1
                    && final(self).effects_spec().take(fx.out.len() as int) == fx.out
                    && (final(self).effects_spec().last() matches BridgeEffect::Persist { entity_states }
                    && persist_view(entity_states@) == fx.persist))
            }),
            final(self).tick_spec() == old(self).tick_spec(),
            final(self).config_spec() == old(self).config_spec(),
            final(self).island_spec() == old(self).island_spec(),
            final(self).timer_tick() == old(self).timer_tick(),
            final(self).faults_spec() == old(self).faults_spec(),
            final(self).input_seqs_spec() == old(self).input_seqs_spec(),
            final(self).buffer_spec() == old(self).buffer_spec(),
            final(self).checkpointing_spec() == old(self).checkpointing_spec(),
            final(self).checkpoint_interval_spec() == old(self).checkpoint_interval_spec(),
            final(self).last_checkpoint_spec() == old(self).last_checkpoint_spec(),
    {
        let (persist, remove) = self.apply_batch(batch);
        let ghost out1 = self.effects_spec();
        self.finish_effects(persist, remove);
        proof {
            if persist@.len() > 0 {
                assert(self.effects_spec().take(out1.len() as int) =~= out1);
            }
        }
    }

    /// Runs one tick at the current tick number: phases 1 to 5 on the inputs and bridge
    /// messages received since the last tick, then a checkpoint when one is due (returned
    /// for the writer). Outward effects are gathered for `take_effects`.
    pub fn execute_tick(&mut self, inputs: Vec<ClientInput>, bridge: Vec<BridgeMessage>) -> (checkpoint: Option<Vec<u8>>)
        requires
            old(self).wf(),
            old(self).tick_spec() < TICK_LIMIT,
        ensures
            final(self).wf(),
            final(self).tick_spec() == old(self).tick_spec(),
            tick_outcome(*old(self), *final(self), inputs@, bridge@, checkpoint),
    {
        self.effects_out = Vec::new();
        self.timers.set_current_tick(self.tick);
        let kept = self.phase1_drain_inputs(inputs);
        let ghost timers1 = self.timers_spec();
        let fired = self.timers.fire_elapsed(self.tick);
        let ghost fired_s = fired@;
        proof {
            assert(self.timers_spec() =~= timers_after(timers1, self.tick));
        }
        let queue = self.phase3_build_queues(fired, bridge, kept);
        let ghost q = queue@;
        let ghost ents3 = self.entities_spec();
        let ghost timers3 = self.timers_spec();
        assert(self.effects_spec() =~= Seq::<BridgeEffect>::empty());
        let ghost w3 = self.wasm_spec();
        let batch = self.phase4_simulate(queue);
        let ghost (os, ws) = choose|os: Seq<Outcome>, ws: Seq<W>|
            #![trigger simulate(sim_start(ents3, old(self).faults_spec(), old(self).client_seqs_spec(), seq![]), q, os, old(self).tick_spec()), ws.len()]
            os.len() == q.len() && {
                &&& answered(sim_start(ents3, old(self).faults_spec(), old(self).client_seqs_spec(), seq![]), q, os, ws, old(self).tick_spec())
                &&& ws[0] == w3
                &&& self.wasm_spec() == ws[q.len() as int]
            } && {
                let fin = simulate(sim_start(ents3, old(self).faults_spec(), old(self).client_seqs_spec(), seq![]), q, os, old(self).tick_spec());
                &&& batch_view(batch@) == fin.batch
                &&& self.faults_spec() == fin.faults
                &&& self.client_seqs_spec() == fin.client
                &&& self.entities_spec() == fin.ents.remove_keys(fin.evict.to_set())
                &&& self.effects_spec() == fin.out + evicted_effects(fin.evict)
                &&& self.timers_spec() == timers_without(timers3, fin.evict)
            };
        self.phase5_batch_effects(batch);
        let ghost t = tick_step(
            old(self).entities_spec(),
            old(self).faults_spec(),
            old(self).client_seqs_spec(),
            timers_after(old(self).timers_spec(), old(self).tick_spec()),
            q,
            os,
            old(self).tick_spec(),
            old(self).config_spec().tick_rate_hz,
        );
        proof {
            assert(effects_reported(self.effects_spec(), t.out, t.persist));
        }
        let ghost post5 = *self;
        proof {
            lemma_buffer_dirty_map(post5.buffer_spec(), post5.entity_seq());
        }
        let checkpoint = if self.checkpoint_due() {
            self.write_checkpoint()
        } else {
            None
        };
        proof {
            assert(w3 == old(self).wasm_spec());
            assert(self.wasm_spec() == post5.wasm_spec());
            assert(post5.wasm_spec() == ws[q.len() as int]);
            assert(fires_due(old(self).timers_spec(), old(self).tick_spec(), fired_s));
            assert(self.effects_spec() == post5.effects_spec());
            assert({
                let t = tick_step(
                    old(self).entities_spec(),
                    old(self).faults_spec(),
                    old(self).client_seqs_spec(),
                    timers_after(old(self).timers_spec(), old(self).tick_spec()),
                    q,
                    os,
                    old(self).tick_spec(),
                    old(self).config_spec().tick_rate_hz,
                );
                let due = old(self).checkpointing_spec() && (has_persist(self.effects_spec()) || (
                old(self).checkpoint_interval_spec() > 0 && old(self).tick_spec() >= old(self).last_checkpoint_spec()
                    + old(self).checkpoint_interval_spec()));
                &&& fires_due(old(self).timers_spec(), old(self).tick_spec(), fired_s)
                &&& queued(q, tick_messages(fired_s, bridge@, fresh_inputs(old(self).input_seqs_spec(), inputs@).0, old(self).deferred_spec()))
                &&& os.len() == q.len()
                &&& answered(sim_start(old(self).entities_spec(), old(self).faults_spec(), old(self).client_seqs_spec(), seq![]), q, os, ws, old(self).tick_spec())
                &&& ws[0] == old(self).wasm_spec()
                &&& self.wasm_spec() == ws[q.len() as int]
                &&& self.faults_spec() == t.faults
                &&& self.client_seqs_spec() == t.client
                &&& self.timers_spec() == t.timers
                &&& self.deferred_spec() == t.deferred
                &&& effects_reported(self.effects_spec(), t.out, t.persist)
                &&& (checkpoint is Some <==> due)
                &&& due ==> self.entities_spec() == t.ents.map_values(|v: EntityView| clean(v))
                    && self.buffer_spec() == buffer_with(old(self).buffer_spec(), t.ents).restrict(t.ents.dom())
                    && self.last_checkpoint_spec() == old(self).tick_spec()
                    && (checkpoint matches Some(d) && exists|nonce: u64| d@ == checkpoint_bytes(
                    old(self).tick_spec(),
                    nonce,
                    self.buffer_records_spec(),
                ))
                &&& !due ==> self.entities_spec() == t.ents && self.last_checkpoint_spec()
                    == old(self).last_checkpoint_spec() && self.buffer_spec() == old(self).buffer_spec()
            });
        }
        checkpoint
    }

    /// Runs one tick and advances the tick number.
    pub fn tick(&mut self, inputs: Vec<ClientInput>, bridge: Vec<BridgeMessage>) -> (checkpoint: Option<Vec<u8>>)
        requires
            old(self).wf(),
            old(self).tick_spec() < TICK_LIMIT,
        ensures
            final(self).wf(),
            final(self).tick_spec() == old(self).tick_spec() + 1,
            tick_outcome(*old(self), *final(self), inputs@, bridge@, checkpoint),
    {
        let ghost i = inputs@;
        let ghost b = bridge@;
        let checkpoint = self.execute_tick(inputs, bridge);
        let ghost mid = *self;
        self.tick = self.tick + 1;
        proof {
            assert(self.entities_spec() == mid.entities_spec());
            assert(self.faults_spec() == mid.faults_spec());
            assert(self.client_seqs_spec() == mid.client_seqs_spec());
            assert(self.timers_spec() == mid.timers_spec());
            assert(self.deferred_spec() == mid.deferred_spec());
            assert(self.effects_spec() == mid.effects_spec());
            assert(self.buffer_spec() == mid.buffer_spec());
            assert(self.buffer_records_spec() == mid.buffer_records_spec());
            assert(self.last_checkpoint_spec() == mid.last_checkpoint_spec());
            assert(self.timer_tick() == mid.timer_tick());
            assert(self.input_seqs_spec() == mid.input_seqs_spec());
        }
        checkpoint
    }

    /// Runs `n` ticks with no input; returns the checkpoints they produced, in order.
    pub fn tick_n(&mut self, n: u32) -> (checkpoints: Vec<Vec<u8>>)
        requires
            old(self).wf(),
            old(self).tick_spec() + n <= TICK_LIMIT,
        ensures
            final(self).wf(),
            final(self).tick_spec() == old(self).tick_spec() + n,
            exists|es: Seq<TickEngine<W>>, cps: Seq<Option<Vec<u8>>>|
                #![trigger es.len(), cps.len()]
                {
                    &&& es.len() == n + 1
                    &&& cps.len() == n
                    &&& es[0] == *old(self)
                    &&& es[n as int] == *final(self)
                    &&& forall|i: int| 0 <= i < n ==> #[trigger] tick_outcome(es[i], es[i + 1], seq![], seq![], cps[i])
                        && es[i + 1].tick_spec() == es[i].tick_spec() + 1
                    &&& checkpoints@ == produced(cps)
                },
    {
        let mut checkpoints: Vec<Vec<u8>> = Vec::new();
        let mut k: u32 = 0;
        let ghost mut es: Seq<TickEngine<W>> = seq![*self];
        let ghost mut cps: Seq<Option<Vec<u8>>> = seq![];
        while k < n
            invariant
                self.wf(),
                k <= n,
                self.tick_spec() == old(self).tick_spec() + k,
                old(self).tick_spec() + n <= TICK_LIMIT,
                es.len() == k + 1,
                cps.len() == k,
                es[0] == *old(self),
                es[k as int] == *self,
                forall|i: int| 0 <= i < k ==> #[trigger] tick_outcome(es[i], es[i + 1], seq![], seq![], cps[i])
                    && es[i + 1].tick_spec() == es[i].tick_spec() + 1,
                checkpoints@ == produced(cps),
            decreases n - k,
        {
            let ghost pre = *self;
            let none_in: Vec<ClientInput> = Vec::new();
            let none_br: Vec<BridgeMessage> = Vec::new();
            assert(none_in@ =~= seq![]);
            assert(none_br@ =~= seq![]);
            let c = self.tick(none_in, none_br);
            let ghost cg = c;
            proof {
                assert(tick_outcome(pre, *self, seq![], seq![], cg));
                let es2 = es.push(*self);
                let cps2 = cps.push(cg);
                assert forall|i: int| 0 <= i < k + 1 implies #[trigger] tick_outcome(es2[i], es2[i + 1], seq![], seq![], cps2[i])
                    && es2[i + 1].tick_spec() == es2[i].tick_spec() + 1 by {
                    if i < k {
                        assert(es2[i] == es[i] && es2[i + 1] == es[i + 1] && cps2[i] == cps[i]);
                    }
                }
                assert(cps2.drop_last() =~= cps);
                es = es2;
                cps = cps2;
            }
            match c {
                Some(d) => checkpoints.push(d),
                None => {},
            }
            k = k + 1;
        }
        checkpoints
    }

    /// Applies a command from the island's manager: entities are added and removed in
    /// place; `Drain` and `Stop` end the loop, and `Passivate` ends it with a snapshot.
    pub fn handle_command(&mut self, cmd: EngineCommand) -> (r: CommandOutcome)
        requires
            old(self).wf(),
        ensures
            final(self).wf(),
            cmd matches EngineCommand::AddEntity { slot, initial_state, owner } ==> r is Continue
                && final(self).entities_spec() == old(self).entities_spec().insert(
                slot.0,
                EntityView {
                    slot: slot.0,
                    state: initial_state@,
                    owner_session: opt_session(owner),
                    dirty: true,
                    init_state: initial_state@,
                    checkpoint_state: None,
                },
            ),
            cmd matches EngineCommand::RemoveEntity { slot } ==> r is Continue && final(self).entities_spec()
                == old(self).entities_spec().remove(slot.0),
            (cmd is Drain || cmd is Stop) ==> r is Stop && final(self).entities_spec() == old(self).entities_spec(),
            cmd is Passivate ==> (r matches CommandOutcome::Passivated(snap) && snap.tick == old(self).tick_spec()
                && snap.island_id@ == old(self).island_spec() && bitcode_records_of(snap.state@) == Some(
                entity_records(old(self).entity_seq()),
            )) && final(self).entities_spec() == old(self).entities_spec(),
            final(self).tick_spec() == old(self).tick_spec(),
            final(self).config_spec() == old(self).config_spec(),
            final(self).island_spec() == old(self).island_spec(),
    {
        match cmd {
            EngineCommand::Drain => CommandOutcome::Stop,
            EngineCommand::Stop => CommandOutcome::Stop,
            EngineCommand::Passivate => CommandOutcome::Passivated(self.passivation_snapshot()),
            EngineCommand::AddEntity { slot, initial_state, owner } => {
                self.add_entity(slot, initial_state, owner);
                CommandOutcome::Continue
            },
            EngineCommand::RemoveEntity { slot } => {
                self.remove_entity(&slot);
                CommandOutcome::Continue
            },
        }
    }
}

/// Whether another per-tick snapshot subscriber may be added to the `current` ones.
pub fn admits_snapshot_subscriber(current: usize) -> (b: bool)
    ensures
        b == (current < MAX_SNAPSHOT_SUBSCRIBERS),
{
    current < MAX_SNAPSHOT_SUBSCRIBERS
}

// ---------------------------------------------------------------------------
// Fixed-timestep pacing
// ---------------------------------------------------------------------------

/// Below this many nanoseconds a sleep is not worth the scheduler's overhead.
pub const MIN_SLEEP_NANOS: u64 = 500_000;

/// The fixed-timestep accumulator of an island's loop, in nanoseconds.
pub struct TickPacer {
    period_ns: u64,
    max_catchup: u32,
    accumulator_ns: u64,
}

impl TickPacer {
    pub closed spec fn period(&self) -> u64 {
        self.period_ns
    }

    pub closed spec fn catchup(&self) -> u32 {
        self.max_catchup
    }

    pub closed spec fn accumulated(&self) -> u64 {
        self.accumulator_ns
    }

    pub closed spec fn wf(&self) -> bool {
        self.period_ns <= 1_000_000_000
    }

    /// A pacer for `tick_rate_hz` ticks a second (the period rounded down to whole
    /// nanoseconds), catching up at most `max_catchup` ticks.
    pub fn new(tick_rate_hz: u8, max_catchup: u32) -> (p: TickPacer)
        requires
            tick_rate_hz > 0,
        ensures
            p.wf(),
            p.period() == 1_000_000_000int / (tick_rate_hz as int),
            p.catchup() == max_catchup,
            p.accumulated() == 0,
    {
        TickPacer { period_ns: 1_000_000_000 / (tick_rate_hz as u64), max_catchup, accumulator_ns: 0 }
    }

    pub fn period_ns(&self) -> (p: u64)
        ensures
            p == self.period(),
    {
        self.period_ns
    }

    /// Adds a frame's elapsed time, capped at `max_catchup` periods; true when capped
    /// (a tick overrun).
    pub fn begin_frame(&mut self, frame_ns: u64) -> (capped: bool)
        requires
            old(self).wf(),
        ensures
            final(self).wf(),
            ({
                let cap = old(self).period() * old(self).catchup();
                let sum = old(self).accumulated() + frame_ns;
                &&& capped == (sum > cap)
                &&& final(self).accumulated() == (if sum > cap { cap } else { sum })
            }),
            final(self).period() == old(self).period(),
            final(self).catchup() == old(self).catchup(),
    {
        assert(self.period_ns as u128 * self.max_catchup as u128 <= 1_000_000_000 * 0xFFFF_FFFF) by (nonlinear_arith)
            requires
                self.period_ns <= 1_000_000_000,
                self.max_catchup <= 0xFFFF_FFFF,
        ;
        let cap: u128 = self.period_ns as u128 * self.max_catchup as u128;
        let sum: u128 = self.accumulator_ns as u128 + frame_ns as u128;
        if sum > cap {
            self.accumulator_ns = cap as u64;
            true
        } else {
            self.accumulator_ns = sum as u64;
            false
        }
    }

    /// Takes one period off the accumulator when a whole period has built up: a tick is
    /// due.
    pub fn take_tick(&mut self) -> (due: bool)
        requires
            old(self).wf(),
        ensures
            final(self).wf(),
            due == (old(self).accumulated() >= old(self).period()),
            due ==> final(self).accumulated() == old(self).accumulated() - old(self).period(),
            !due ==> final(self).accumulated() == old(self).accumulated(),
            final(self).period() == old(self).period(),
            final(self).catchup() == old(self).catchup(),
    {
        if self.accumulator_ns >= self.period_ns {
            self.accumulator_ns = self.accumulator_ns - self.period_ns;
            true
        } else {
            false
        }
    }

    /// How long to sleep until the next tick is due, when that is long enough to be worth
    /// a sleep.
    pub fn sleep_ns(&self) -> (s: Option<u64>)
        ensures
            self.accumulated() < self.period() && self.period() - self.accumulated() > MIN_SLEEP_NANOS ==> s
                == Some((self.period() - self.accumulated()) as u64),
            !(self.accumulated() < self.period() && self.period() - self.accumulated() > MIN_SLEEP_NANOS) ==> s is None,
    {
        if self.accumulator_ns < self.period_ns && self.period_ns - self.accumulator_ns > MIN_SLEEP_NANOS {
            Some(self.period_ns - self.accumulator_ns)
        } else {
            None
        }
    }
}

} // verus!
