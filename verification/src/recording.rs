//! Recording of an island's ticks, and their replay to detect nondeterminism.
//!
//! A recording lists the initial entities and, per tick, the inputs delivered and a
//! checksum of chosen entities' states afterwards. Replaying runs the same inputs on a
//! fresh engine and compares the checksums. Files are read and written by the caller.
use vstd::prelude::*;
use crate::checkpoint::codec::copy_bytes;
use crate::text::{decimal, decimal_chars};
use crate::tick::engine::{tick_outcome, TickEngine, TICK_LIMIT};
use crate::tick::types::{
    BridgeEffect, BridgeMessage, ClientInput, DeferredSend, EntityView, SessionId, TickEngineConfig, WasmExecutor,
};
use crate::tick::fault::FaultEntry;
use crate::types::{EntitySlot, IslandId};

verus! {

pub const RECORDING_FORMAT_VERSION: u16 = 1;

#[derive(Debug, Clone)]
pub struct RecordedInput {
    pub entity_slot: u32,
    pub session_id: String,
    pub input_seq: u32,
    pub payload: Vec<u8>,
}

/// The input a recorded one stands for.
pub fn client_input_of(r: &RecordedInput) -> (c: ClientInput)
    ensures
        c.entity_slot.0 == r.entity_slot,
        c.session_id@ == r.session_id@,
        c.input_seq == r.input_seq,
        c.payload@ == r.payload@,
{
    ClientInput {
        session_id: SessionId::from_string(r.session_id.clone()),
        entity_slot: EntitySlot(r.entity_slot),
        input_seq: r.input_seq,
        payload: copy_bytes(r.payload.as_slice()),
    }
}

/// An outward effect as recorded: persisted states are recorded by their number only.
#[derive(Debug, Clone)]
pub enum RecordedEffect {
    SendRemote { target: String, payload: Vec<u8> },
    Persist { entity_count: u32 },
    EmitTelemetry { event: String },
    RequestRemote { source_entity: u32, target: String, payload: Vec<u8> },
    FireAndForget { target: String, payload: Vec<u8> },
    BridgeReply { correlation_id: [u8; 16], payload: Vec<u8> },
    EntityEvicted { entity: u32 },
    ZoneTransferRequest { player_id: String, source_entity: u32, target_zone: String },
}

/// The record of an effect.
pub fn record_effect(effect: &BridgeEffect) -> (r: RecordedEffect)
    ensures
        match (*effect, r) {
            (BridgeEffect::SendRemote { target: t1, payload: p1 }, RecordedEffect::SendRemote { target, payload }) =>
                target@ == t1@ && payload@ == p1@,
            (BridgeEffect::Persist { entity_states }, RecordedEffect::Persist { entity_count }) => entity_count
                == entity_states@.len() as u32,
            (BridgeEffect::EmitTelemetry { event: e1 }, RecordedEffect::EmitTelemetry { event }) => event@ == e1@,
            (
                BridgeEffect::RequestRemote { source_entity: s1, target: t1, payload: p1 },
                RecordedEffect::RequestRemote { source_entity, target, payload },
            ) => source_entity == s1.0 && target@ == t1@ && payload@ == p1@,
            (BridgeEffect::FireAndForget { target: t1, payload: p1 }, RecordedEffect::FireAndForget { target, payload }) =>
                target@ == t1@ && payload@ == p1@,
            (
                BridgeEffect::BridgeReply { correlation_id: c1, payload: p1 },
                RecordedEffect::BridgeReply { correlation_id, payload },
            ) => correlation_id == c1 && payload@ == p1@,
            (BridgeEffect::EntityEvicted { entity: e1 }, RecordedEffect::EntityEvicted { entity }) => entity == e1.0,
            (
                BridgeEffect::ZoneTransferRequest { player_id: p1, source_entity: s1, target_zone: z1, .. },
                RecordedEffect::ZoneTransferRequest { player_id, source_entity, target_zone },
            ) => player_id@ == p1@ && source_entity == s1.0 && target_zone@ == z1@,
            _ => false,
        },
{
    match effect {
        BridgeEffect::SendRemote { target, payload } => RecordedEffect::SendRemote {
            target: target.clone(),
            payload: copy_bytes(payload.as_slice()),
        },
        BridgeEffect::Persist { entity_states } => {
            #[verifier::truncate]
            let n: u32 = entity_states.len() as u32;
            RecordedEffect::Persist { entity_count: n }
        },
        BridgeEffect::EmitTelemetry { event } => RecordedEffect::EmitTelemetry { event: event.clone() },
        BridgeEffect::RequestRemote { source_entity, target, payload } => RecordedEffect::RequestRemote {
            source_entity: source_entity.0,
            target: target.clone(),
            payload: copy_bytes(payload.as_slice()),
        },
        BridgeEffect::FireAndForget { target, payload } => RecordedEffect::FireAndForget {
            target: target.clone(),
            payload: copy_bytes(payload.as_slice()),
        },
        BridgeEffect::BridgeReply { correlation_id, payload } => RecordedEffect::BridgeReply {
            correlation_id: *correlation_id,
            payload: copy_bytes(payload.as_slice()),
        },
        BridgeEffect::EntityEvicted { entity } => RecordedEffect::EntityEvicted { entity: entity.0 },
        BridgeEffect::ZoneTransferRequest { player_id, source_entity, target_zone, .. } =>
            RecordedEffect::ZoneTransferRequest {
                player_id: player_id.clone(),
                source_entity: source_entity.0,
                target_zone: String::from_str(target_zone.as_str()),
            },
    }
}

#[derive(Debug, Clone)]
pub struct TickRecord {
    pub tick_number: u64,
    pub inputs: Vec<RecordedInput>,
    pub effects: Vec<RecordedEffect>,
    pub entity_checksums: Vec<(u32, u64)>,
}

#[derive(Debug, Clone)]
pub struct IslandRecording {
    pub format_version: u16,
    pub tick_rate_hz: u8,
    pub initial_entities: Vec<(u32, Vec<u8>)>,
    pub tick_records: Vec<TickRecord>,
}

/// Accepts a recording of the current format; otherwise says which version it has.
pub fn check_format_version(version: u16) -> (r: Result<(), String>)
    ensures
        version == RECORDING_FORMAT_VERSION ==> r is Ok,
        version != RECORDING_FORMAT_VERSION ==> (r matches Err(msg) && msg@
            == "unsupported recording format version: expected "@ + decimal_chars(RECORDING_FORMAT_VERSION as nat)
            + ", got "@ + decimal_chars(version as nat)),
{
    if version == RECORDING_FORMAT_VERSION {
        Ok(())
    } else {
        let mut s = String::from_str("unsupported recording format version: expected ");
        s.append(decimal(RECORDING_FORMAT_VERSION as u64).as_str());
        s.append(", got ");
        s.append(decimal(version as u64).as_str());
        Err(s)
    }
}

/// Where a replay first departed from the recording.
#[derive(Debug)]
pub struct Divergence {
    pub tick: u64,
    pub entity: u32,
    pub expected: u64,
    pub actual: u64,
}

/// Whether `(entity, expected)` is among the checksums of a record of tick `tick`.
pub open spec fn recorded_checksum(records: Seq<TickRecord>, tick: u64, entity: u32, expected: u64) -> bool {
    exists|i: int| 0 <= i < records.len() && #[trigger] records[i].tick_number == tick && records[i].entity_checksums@.contains(
        (entity, expected),
    )
}

/// The entities that adding `initial` one by one to an empty engine leaves: each
/// fresh, dirty, owned by nobody.
pub open spec fn initial_entities(initial: Seq<(u32, Vec<u8>)>) -> Map<u32, EntityView>
    decreases initial.len(),
{
    if initial.len() == 0 {
        Map::empty()
    } else {
        let (slot, state) = initial.last();
        initial_entities(initial.drop_last()).insert(
            slot,
            EntityView {
                slot,
                state: state@,
                owner_session: None,
                dirty: true,
                init_state: state@,
                checkpoint_state: None,
            },
        )
    }
}

/// Whether `e` is the engine a replay starts from: tick 0, the recording's rate, the
/// initial entities, and nothing else pending.
pub open spec fn replay_start<W: WasmExecutor>(e: TickEngine<W>, recording: IslandRecording) -> bool {
    &&& e.wf()
    &&& e.tick_spec() == 0
    &&& e.island_spec() == "test-island"@
    &&& e.config_spec() == TickEngineConfig { tick_rate_hz: recording.tick_rate_hz, max_catchup_ticks: 3 }
    &&& e.entities_spec() == initial_entities(recording.initial_entities@)
    &&& e.timers_spec() == Map::<(u32, Seq<char>), u64>::empty()
    &&& e.faults_spec() == Map::<u32, FaultEntry>::empty()
    &&& e.deferred_spec() == Seq::<DeferredSend>::empty()
    &&& e.effects_spec() == Seq::<BridgeEffect>::empty()
    &&& e.input_seqs_spec() == Seq::<(Seq<char>, u32)>::empty()
    &&& e.client_seqs_spec() == Map::<u32, u32>::empty()
    &&& e.buffer_spec() == Map::<u32, (Seq<u8>, Option<Seq<char>>)>::empty()
    &&& !e.checkpointing_spec()
}

/// Whether `cs` are the inputs that the recorded `rs` stand for, in order.
pub open spec fn inputs_of_record(cs: Seq<ClientInput>, rs: Seq<RecordedInput>) -> bool {
    &&& cs.len() == rs.len()
    &&& forall|k: int|
        0 <= k < cs.len() ==> {
            &&& (#[trigger] cs[k]).entity_slot.0 == rs[k].entity_slot
            &&& cs[k].session_id@ == rs[k].session_id@
            &&& cs[k].input_seq == rs[k].input_seq
            &&& cs[k].payload@ == rs[k].payload@
        }
}

/// Whether the first `n` checksums recorded in `record`, of entities that exist in `e`,
/// are ones that `checksum_fn` gives for those entities' states.
pub open spec fn checksums_hold_upto<W: WasmExecutor, F: Fn(&[u8]) -> u64>(
    e: TickEngine<W>,
    record: TickRecord,
    checksum_fn: F,
    n: int,
) -> bool {
    forall|c: int|
        0 <= c < n && e.entities_spec().contains_key((#[trigger] record.entity_checksums@[c]).0)
            ==> exists|st: &[u8]|
            st@ == e.entities_spec()[record.entity_checksums@[c].0].state && #[trigger] checksum_fn.ensures(
                (st,),
                record.entity_checksums@[c].1,
            )
}

/// Whether every checksum recorded in `record` of an entity that exists in `e` is one
/// that `checksum_fn` gives for that entity's state.
pub open spec fn checksums_hold<W: WasmExecutor, F: Fn(&[u8]) -> u64>(
    e: TickEngine<W>,
    record: TickRecord,
    checksum_fn: F,
) -> bool {
    checksums_hold_upto(e, record, checksum_fn, record.entity_checksums@.len() as int)
}

/// Whether `es` are the engines of a replay of the first `n` records, `es[0]` the start
/// and `es[j + 1]` what tick `j` left, run on the inputs `ins[j]` of record `j` and
/// producing checkpoint `cps[j]`.
pub open spec fn replayed<W: WasmExecutor>(
    recording: IslandRecording,
    es: Seq<TickEngine<W>>,
    ins: Seq<Seq<ClientInput>>,
    cps: Seq<Option<Vec<u8>>>,
    n: int,
) -> bool {
    let recs = recording.tick_records@;
    &&& 0 <= n <= recs.len()
    &&& es.len() == n + 1
    &&& ins.len() == n
    &&& cps.len() == n
    &&& replay_start(es[0], recording)
    &&& forall|j: int|
        0 <= j < n ==> {
            &&& inputs_of_record(#[trigger] ins[j], recs[j].inputs@)
            &&& tick_outcome(es[j], es[j + 1], ins[j], seq![], cps[j])
            &&& es[j + 1].tick_spec() == es[j].tick_spec() + 1
        }
}

/// Whether the replay `es` matched every record before record `n`.
pub open spec fn matched_before<W: WasmExecutor, F: Fn(&[u8]) -> u64>(
    recording: IslandRecording,
    checksum_fn: F,
    es: Seq<TickEngine<W>>,
    n: int,
) -> bool {
    forall|j: int| 0 <= j < n ==> #[trigger] checksums_hold(es[j + 1], recording.tick_records@[j], checksum_fn)
}

/// Whether `d` is the first divergence of the replay `es`: it is checksum `c` of record
/// `i`, every earlier record and every earlier checksum of record `i` matched, and the
/// entity's state after tick `i` has checksum `d.actual`, not the recorded `d.expected`.
pub open spec fn first_divergence<W: WasmExecutor, F: Fn(&[u8]) -> u64>(
    recording: IslandRecording,
    checksum_fn: F,
    es: Seq<TickEngine<W>>,
    ins: Seq<Seq<ClientInput>>,
    cps: Seq<Option<Vec<u8>>>,
    i: int,
    c: int,
    d: Divergence,
) -> bool {
    let recs = recording.tick_records@;
    &&& 0 <= i < recs.len()
    &&& replayed(recording, es, ins, cps, i + 1)
    &&& matched_before(recording, checksum_fn, es, i)
    &&& 0 <= c < recs[i].entity_checksums@.len()
    &&& checksums_hold_upto(es[i + 1], recs[i], checksum_fn, c)
    &&& recs[i].entity_checksums@[c] == (d.entity, d.expected)
    &&& d.tick == recs[i].tick_number
    &&& es[i + 1].entities_spec().contains_key(d.entity)
    &&& exists|st: &[u8]|
        st@ == es[i + 1].entities_spec()[d.entity].state && #[trigger] checksum_fn.ensures((st,), d.actual)
    &&& d.actual != d.expected
}

/// Whether `d` is the first divergence of some replay of `recording`.
pub open spec fn diverged<W: WasmExecutor, F: Fn(&[u8]) -> u64>(
    recording: IslandRecording,
    checksum_fn: F,
    d: Divergence,
) -> bool {
    exists|es: Seq<TickEngine<W>>, ins: Seq<Seq<ClientInput>>, cps: Seq<Option<Vec<u8>>>, i: int, c: int|
        #[trigger] first_divergence(recording, checksum_fn, es, ins, cps, i, c, d)
}

/// Replays `recording` on a fresh engine running `wasm`: the initial entities are added,
/// then each record's inputs are run in one tick, after which every recorded checksum of
/// an entity that still exists is compared with `checksum_fn` of its state. The first
/// mismatch is reported; `Ok` means every tick of the replay matched its record.
pub fn replay<W: WasmExecutor, F: Fn(&[u8]) -> u64>(recording: &IslandRecording, wasm: W, checksum_fn: F) -> (r: Result<
    (),
    Divergence,
>)
    requires
        recording.tick_records@.len() <= TICK_LIMIT,
        forall|s: &[u8]| #[trigger] checksum_fn.requires((s,)),
    ensures
        r matches Err(d) ==> diverged::<W, F>(*recording, checksum_fn, d),
        r is Ok ==> exists|es: Seq<TickEngine<W>>, ins: Seq<Seq<ClientInput>>, cps: Seq<Option<Vec<u8>>>|
            #[trigger] replayed(*recording, es, ins, cps, recording.tick_records@.len() as int)
                && matched_before(*recording, checksum_fn, es, recording.tick_records@.len() as int),
{
    let config = TickEngineConfig { tick_rate_hz: recording.tick_rate_hz, max_catchup_ticks: 3 };
    let mut engine = TickEngine::new(IslandId::new("test-island"), config, wasm);
    let ghost initial = recording.initial_entities@;
    let mut k: usize = 0;
    while k < recording.initial_entities.len()
        invariant
            initial == recording.initial_entities@,
            k <= initial.len(),
            engine.wf(),
            engine.tick_spec() == 0,
            engine.island_spec() == "test-island"@,
            engine.config_spec() == config,
            config == (TickEngineConfig { tick_rate_hz: recording.tick_rate_hz, max_catchup_ticks: 3 }),
            engine.entities_spec() == initial_entities(initial.take(k as int)),
            engine.timers_spec() == Map::<(u32, Seq<char>), u64>::empty(),
            engine.faults_spec() == Map::<u32, FaultEntry>::empty(),
            engine.deferred_spec() == Seq::<DeferredSend>::empty(),
            engine.effects_spec() == Seq::<BridgeEffect>::empty(),
            engine.input_seqs_spec() == Seq::<(Seq<char>, u32)>::empty(),
            engine.client_seqs_spec() == Map::<u32, u32>::empty(),
            engine.buffer_spec() == Map::<u32, (Seq<u8>, Option<Seq<char>>)>::empty(),
            !engine.checkpointing_spec(),
        decreases recording.initial_entities.len() - k,
    {
        let (slot, state) = &recording.initial_entities[k];
        proof {
            assert(initial.take(k as int + 1).drop_last() =~= initial.take(k as int));
            assert(initial.take(k as int + 1).last() == initial[k as int]);
        }
        engine.add_entity(EntitySlot(*slot), copy_bytes(state.as_slice()), None);
        proof {
            assert(engine.client_seqs_spec() =~= Map::<u32, u32>::empty());
        }
        k = k + 1;
    }
    proof {
        assert(initial.take(k as int) =~= initial);
        assert(replay_start(engine, *recording));
    }
    let records = &recording.tick_records;
    let ghost recs = records@;
    let ghost mut es: Seq<TickEngine<W>> = seq![engine];
    let ghost mut ins: Seq<Seq<ClientInput>> = seq![];
    let ghost mut cps: Seq<Option<Vec<u8>>> = seq![];
    let mut i: usize = 0;
    while i < records.len()
        invariant
            engine.wf(),
            engine.tick_spec() == i,
            i <= records@.len(),
            records@.len() <= TICK_LIMIT,
            records == &recording.tick_records,
            recs == records@,
            forall|s: &[u8]| #[trigger] checksum_fn.requires((s,)),
            es[i as int] == engine,
            replayed(*recording, es, ins, cps, i as int),
            matched_before(*recording, checksum_fn, es, i as int),
        decreases records.len() - i,
    {
        let record = &records[i];
        let mut inputs: Vec<ClientInput> = Vec::new();
        let mut j: usize = 0;
        while j < record.inputs.len()
            invariant
                j <= record.inputs@.len(),
                inputs_of_record(inputs@, record.inputs@.take(j as int)),
            decreases record.inputs.len() - j,
        {
            let c = client_input_of(&record.inputs[j]);
            let ghost before = inputs@;
            inputs.push(c);
            proof {
                assert forall|k: int| 0 <= k < inputs@.len() implies {
                    &&& (#[trigger] inputs@[k]).entity_slot.0 == record.inputs@.take(j as int + 1)[k].entity_slot
                    &&& inputs@[k].session_id@ == record.inputs@.take(j as int + 1)[k].session_id@
                    &&& inputs@[k].input_seq == record.inputs@.take(j as int + 1)[k].input_seq
                    &&& inputs@[k].payload@ == record.inputs@.take(j as int + 1)[k].payload@
                } by {
                    if k < j {
                        assert(inputs@[k] == before[k]);
                        assert(record.inputs@.take(j as int + 1)[k] == record.inputs@.take(j as int)[k]);
                    }
                }
            }
            j = j + 1;
        }
        proof {
            assert(record.inputs@.take(j as int) =~= record.inputs@);
        }
        let ghost in_i = inputs@;
        let ghost es0 = es;
        let ghost ins0 = ins;
        let ghost cps0 = cps;
        let none: Vec<BridgeMessage> = Vec::new();
        let checkpoint = engine.tick(inputs, none);
        proof {
            assert(none@ =~= seq![]);
            es = es.push(engine);
            ins = ins.push(in_i);
            cps = cps.push(checkpoint);
            assert forall|j2: int|
                0 <= j2 < i + 1 implies {
                    &&& inputs_of_record(#[trigger] ins[j2], recs[j2].inputs@)
                    &&& tick_outcome(es[j2], es[j2 + 1], ins[j2], seq![], cps[j2])
                    &&& es[j2 + 1].tick_spec() == es[j2].tick_spec() + 1
                } by {
                if j2 < i {
                    assert(ins[j2] == ins0[j2]);
                    assert(es[j2] == es0[j2] && es[j2 + 1] == es0[j2 + 1]);
                    assert(cps[j2] == cps0[j2]);
                }
            }
            assert(replayed(*recording, es, ins, cps, i + 1));
            assert forall|j2: int| 0 <= j2 < i implies #[trigger] checksums_hold(
                es[j2 + 1],
                recording.tick_records@[j2],
                checksum_fn,
            ) by {
                assert(es[j2 + 1] == es0[j2 + 1]);
            }
        }
        let mut c: usize = 0;
        while c < record.entity_checksums.len()
            invariant
                engine.wf(),
                engine.tick_spec() == i + 1,
                i < records@.len(),
                record == &records@[i as int],
                records == &recording.tick_records,
                recs == records@,
                forall|s: &[u8]| #[trigger] checksum_fn.requires((s,)),
                c <= record.entity_checksums@.len(),
                es[i as int + 1] == engine,
                replayed(*recording, es, ins, cps, i as int + 1),
                matched_before(*recording, checksum_fn, es, i as int),
                checksums_hold_upto(engine, *record, checksum_fn, c as int),
            decreases record.entity_checksums.len() - c,
        {
            let (slot, expected) = record.entity_checksums[c];
            match engine.get_entity_state(&EntitySlot(slot)) {
                Some(state) => {
                    let actual = checksum_fn(state);
                    if actual != expected {
                        let d = Divergence { tick: record.tick_number, entity: slot, expected, actual };
                        proof {
                            assert(record.entity_checksums@[c as int] == (slot, expected));
                            assert(checksum_fn.ensures((state,), actual));
                            assert(first_divergence(*recording, checksum_fn, es, ins, cps, i as int, c as int, d));
                            assert(diverged::<W, F>(*recording, checksum_fn, d));
                        }
                        return Err(d);
                    }
                    proof {
                        assert(record.entity_checksums@[c as int] == (slot, expected));
                        assert(checksum_fn.ensures((state,), record.entity_checksums@[c as int].1));
                    }
                },
                None => {
                    proof {
                        assert(record.entity_checksums@[c as int] == (slot, expected));
                    }
                },
            }
            c = c + 1;
        }
        proof {
            assert(checksums_hold(es[i as int + 1], recs[i as int], checksum_fn));
        }
        i = i + 1;
    }
    proof {
        assert(replayed(*recording, es, ins, cps, recording.tick_records@.len() as int));
    }
    Ok(())
}

} // verus!
