//! Scripted clients for load and determinism tests: each bot decides, every tick, which
//! inputs to send, and a harness delivers them to a tick engine.
use vstd::prelude::*;
use crate::testing::TestHarness;
use crate::tick::engine::TICK_LIMIT;
use crate::tick::types::{ClientInput, SessionId, WasmExecutor};
use crate::text::{decimal, decimal_chars};
use crate::types::EntitySlot;
use crate::wire::{le32, le64, push_le32, push_le64};

verus! {

#[derive(Debug, Clone)]
pub enum BotAction {
    SendInput { entity: u32, payload: Vec<u8> },
}

/// What a bot does each tick, given the tick number and every entity's `(slot, state)`.
pub trait BotBehavior {
    fn on_tick(&mut self, tick: u64, entity_states: &[(u32, Vec<u8>)]) -> Vec<BotAction>;
}

/// A bot that sends nothing.
pub struct IdleBot;

impl BotBehavior for IdleBot {
    fn on_tick(&mut self, _tick: u64, _entity_states: &[(u32, Vec<u8>)]) -> (actions: Vec<BotAction>)
        ensures
            actions@.len() == 0,
    {
        Vec::new()
    }
}

/// One step of the xorshift64 generator.
pub open spec fn xorshift(s: u64) -> u64 {
    let a = s ^ (s << 13u64);
    let b = a ^ (a >> 7u64);
    b ^ (b << 17u64)
}

/// A bot that sends one pseudo-random 8-byte input a tick to its entity, from a seeded
/// xorshift64 generator.
pub struct RandomWalkBot {
    state: u64,
    entity: u32,
}

impl RandomWalkBot {
    pub closed spec fn state_spec(&self) -> u64 {
        self.state
    }

    pub closed spec fn entity_spec(&self) -> u32 {
        self.entity
    }

    pub fn new(rng_seed: u64, entity: u32) -> (b: RandomWalkBot)
        ensures
            b.state_spec() == rng_seed,
            b.entity_spec() == entity,
    {
        RandomWalkBot { state: rng_seed, entity }
    }

    fn next_u64(&mut self) -> (v: u64)
        ensures
            v == xorshift(old(self).state_spec()),
            final(self).state_spec() == v,
            final(self).entity_spec() == old(self).entity_spec(),
    {
        let mut s = self.state;
        s = s ^ (s << 13u64);
        s = s ^ (s >> 7u64);
        s = s ^ (s << 17u64);
        self.state = s;
        s
    }
}

impl BotBehavior for RandomWalkBot {
    fn on_tick(&mut self, _tick: u64, _entity_states: &[(u32, Vec<u8>)]) -> (actions: Vec<BotAction>)
        ensures
            final(self).state_spec() == xorshift(old(self).state_spec()),
            final(self).entity_spec() == old(self).entity_spec(),
            actions@.len() == 1,
            actions@[0] matches BotAction::SendInput { entity, payload } && entity == old(self).entity_spec()
                && payload@ == le64(xorshift(old(self).state_spec())),
    {
        let val = self.next_u64();
        let mut payload: Vec<u8> = Vec::new();
        push_le64(&mut payload, val);
        assert(payload@ =~= le64(val));
        let mut actions: Vec<BotAction> = Vec::new();
        actions.push(BotAction::SendInput { entity: self.entity, payload });
        actions
    }
}

/// A bot that sends `inputs_per_tick` inputs a tick to its entity, each the tick number
/// (8 bytes) and the input's index (4 bytes), little-endian.
pub struct StressBot {
    pub inputs_per_tick: u32,
    entity: u32,
}

impl StressBot {
    pub closed spec fn entity_spec(&self) -> u32 {
        self.entity
    }

    pub closed spec fn per_tick_spec(&self) -> u32 {
        self.inputs_per_tick
    }

    pub fn new(inputs_per_tick: u32, entity: u32) -> (b: StressBot)
        ensures
            b.per_tick_spec() == inputs_per_tick,
            b.entity_spec() == entity,
    {
        StressBot { inputs_per_tick, entity }
    }
}

impl BotBehavior for StressBot {
    fn on_tick(&mut self, tick: u64, _entity_states: &[(u32, Vec<u8>)]) -> (actions: Vec<BotAction>)
        ensures
            actions@.len() == old(self).per_tick_spec(),
            forall|i: int| 0 <= i < actions@.len() ==> (#[trigger] actions@[i] matches BotAction::SendInput {
                entity,
                payload,
            } && entity == old(self).entity_spec() && payload@ == le64(tick) + le32(i as u32)),
            final(self).per_tick_spec() == old(self).per_tick_spec(),
            final(self).entity_spec() == old(self).entity_spec(),
    {
        let mut actions: Vec<BotAction> = Vec::new();
        let mut i: u32 = 0;
        while i < self.inputs_per_tick
            invariant
                i <= self.inputs_per_tick,
                actions@.len() == i,
                forall|k: int| 0 <= k < i ==> (#[trigger] actions@[k] matches BotAction::SendInput {
                    entity,
                    payload,
                } && entity == self.entity && payload@ == le64(tick) + le32(k as u32)),
            decreases self.inputs_per_tick - i,
        {
            let mut payload: Vec<u8> = Vec::new();
            push_le64(&mut payload, tick);
            push_le32(&mut payload, i);
            assert(payload@ =~= le64(tick) + le32(i));
            actions.push(BotAction::SendInput { entity: self.entity, payload });
            i = i + 1;
        }
        actions
    }
}

/// How much the bots did.
#[derive(Debug, Clone, Copy, PartialEq, Eq, Structural)]
pub struct BotMetrics {
    pub total_inputs: u64,
    pub ticks_run: u64,
}

/// The session name of the bot at `index`: "bot-" and the index in decimal.
pub open spec fn bot_session(index: u64) -> Seq<char> {
    "bot-"@ + decimal_chars(index as nat)
}

fn bot_session_id(index: usize) -> (s: SessionId)
    ensures
        s@ == bot_session(index as u64),
{
    let mut name = String::from_str("bot-");
    name.append(decimal(index as u64).as_str());
    SessionId::from_string(name)
}

/// Bots driving a test harness: every tick each bot, in order, sees the entities' states
/// and its inputs are queued (numbered on from the last), then the tick runs.
pub struct BotHarness<W: WasmExecutor, B: BotBehavior> {
    bots: Vec<B>,
    harness: TestHarness<W>,
    metrics: BotMetrics,
    input_seq: u32,
}

impl<W: WasmExecutor, B: BotBehavior> BotHarness<W, B> {
    pub closed spec fn harness_spec(&self) -> TestHarness<W> {
        self.harness
    }

    pub closed spec fn metrics_spec(&self) -> BotMetrics {
        self.metrics
    }

    pub closed spec fn bot_count(&self) -> nat {
        self.bots@.len()
    }

    pub fn new(harness: TestHarness<W>, bots: Vec<B>) -> (h: BotHarness<W, B>)
        ensures
            h.harness_spec() == harness,
            h.metrics_spec() == (BotMetrics { total_inputs: 0, ticks_run: 0 }),
            h.bot_count() == bots@.len(),
    {
        BotHarness { bots, harness, metrics: BotMetrics { total_inputs: 0, ticks_run: 0 }, input_seq: 0 }
    }

    /// Every entity's `(slot, state)`, in ascending slot order.
    fn entity_states(&self) -> (states: Vec<(u32, Vec<u8>)>)
        requires
            self.harness.wf(),
        ensures
            ({
                let ents = self.harness.engine_spec().entities_spec();
                &&& states@.len() == ents.len()
                &&& forall|i: int, j: int| 0 <= i < j < states@.len() ==> (#[trigger] states@[i]).0 < (#[trigger] states@[j]).0
                &&& forall|i: int| 0 <= i < states@.len() ==> ents.contains_key((#[trigger] states@[i]).0)
                    && states@[i].1@ == ents[states@[i].0].state
                &&& forall|k: u32| #[trigger] ents.contains_key(k) ==> exists|i: int| 0 <= i < states@.len() && states@[i].0 == k
            }),
    {
        let slots = self.harness.entity_slots();
        let ghost ents = self.harness.engine_spec().entities_spec();
        let mut states: Vec<(u32, Vec<u8>)> = Vec::new();
        let mut i: usize = 0;
        while i < slots.len()
            invariant
                self.harness.wf(),
                ents == self.harness.engine_spec().entities_spec(),
                i <= slots@.len(),
                slots@.len() == ents.len(),
                forall|a: int, b: int| 0 <= a < b < slots@.len() ==> (#[trigger] slots@[a]).0 < (#[trigger] slots@[b]).0,
                forall|k: u32| #[trigger] ents.contains_key(k) <==> exists|a: int| 0 <= a < slots@.len() && slots@[a].0 == k,
                states@.len() == i,
                forall|a: int| 0 <= a < i ==> (#[trigger] states@[a]).0 == slots@[a].0 && ents.contains_key(states@[a].0)
                    && states@[a].1@ == ents[states@[a].0].state,
            decreases slots.len() - i,
        {
            let slot = slots[i];
            proof {
                assert(ents.contains_key(slot.0));
            }
            match self.harness.get_entity_state(&slot) {
                Some(s) => states.push((slot.0, crate::checkpoint::codec::copy_bytes(s))),
                None => {},
            }
            i = i + 1;
        }
        proof {
            assert forall|a: int, b: int| 0 <= a < b < states@.len() implies (#[trigger] states@[a]).0 < (#[trigger] states@[b]).0 by {
                assert(states@[a].0 == slots@[a].0 && states@[b].0 == slots@[b].0);
            }
            assert forall|k: u32| #[trigger] ents.contains_key(k) implies exists|a: int| 0 <= a < states@.len() && states@[a].0 == k by {
                let a = choose|a: int| 0 <= a < slots@.len() && slots@[a].0 == k;
                assert(states@[a].0 == slots@[a].0);
            }
        }
        states
    }

    /// Runs `ticks` ticks of bot actions.
    pub fn run(&mut self, ticks: u32)
        requires
            old(self).harness_spec().wf(),
            old(self).harness_spec().engine_spec().tick_spec() + ticks <= TICK_LIMIT,
            old(self).metrics_spec().ticks_run + ticks <= u64::MAX,
        ensures
            final(self).harness_spec().wf(),
            final(self).harness_spec().engine_spec().tick_spec() == old(self).harness_spec().engine_spec().tick_spec()
                + ticks,
            final(self).metrics_spec().ticks_run == old(self).metrics_spec().ticks_run + ticks,
            final(self).metrics_spec().total_inputs >= old(self).metrics_spec().total_inputs,
            final(self).bot_count() == old(self).bot_count(),
    {
        let mut t: u32 = 0;
        while t < ticks
            invariant
                self.harness.wf(),
                t <= ticks,
                self.harness.engine_spec().tick_spec() == old(self).harness_spec().engine_spec().tick_spec() + t,
                old(self).harness_spec().engine_spec().tick_spec() + ticks <= TICK_LIMIT,
                self.metrics.ticks_run == old(self).metrics_spec().ticks_run + t,
                old(self).metrics_spec().ticks_run + ticks <= u64::MAX,
                self.metrics.total_inputs >= old(self).metrics_spec().total_inputs,
                self.bots@.len() == old(self).bot_count(),
            decreases ticks - t,
        {
            let tick = self.harness.current_tick();
            let states = self.entity_states();
            let mut rest: Vec<B> = Vec::new();
            std::mem::swap(&mut rest, &mut self.bots);
            let n_bots: usize = rest.len();
            let ghost nbots: nat = n_bots as nat;
            let mut done: Vec<B> = Vec::new();
            let mut idx: usize = 0;
            while rest.len() > 0
                invariant
                    self.harness.wf(),
                    self.harness.engine_spec().tick_spec() == old(self).harness_spec().engine_spec().tick_spec() + t,
                    done@.len() + rest@.len() == nbots,
                    nbots <= usize::MAX,
                    idx == done@.len(),
                    self.metrics.total_inputs >= old(self).metrics_spec().total_inputs,
                    self.metrics.ticks_run == old(self).metrics_spec().ticks_run + t,
                decreases rest@.len(),
            {
                let mut bot = rest.remove(0);
                let actions = bot.on_tick(tick, states.as_slice());
                let mut a: usize = 0;
                while a < actions.len()
                    invariant
                        self.harness.wf(),
                        self.harness.engine_spec().tick_spec() == old(self).harness_spec().engine_spec().tick_spec() + t,
                        self.metrics.total_inputs >= old(self).metrics_spec().total_inputs,
                        self.metrics.ticks_run == old(self).metrics_spec().ticks_run + t,
                    decreases actions.len() - a,
                {
                    match &actions[a] {
                        BotAction::SendInput { entity, payload } => {
                            self.input_seq = self.input_seq.wrapping_add(1);
                            let input = ClientInput {
                                session_id: bot_session_id(idx),
                                entity_slot: EntitySlot(*entity),
                                input_seq: self.input_seq,
                                payload: crate::checkpoint::codec::copy_bytes(payload.as_slice()),
                            };
                            self.harness.send_input(input);
                            if self.metrics.total_inputs < u64::MAX {
                                self.metrics.total_inputs = self.metrics.total_inputs + 1;
                            }
                        },
                    }
                    a = a + 1;
                }
                done.push(bot);
                idx = idx + 1;
            }
            self.bots = done;
            self.harness.tick();
            self.metrics.ticks_run = self.metrics.ticks_run + 1;
            t = t + 1;
        }
    }

    pub fn metrics(&self) -> (m: BotMetrics)
        ensures
            m == self.metrics_spec(),
    {
        self.metrics
    }

    pub fn harness(&self) -> (h: &TestHarness<W>)
        ensures
            *h == self.harness_spec(),
    {
        &self.harness
    }
}

} // verus!
