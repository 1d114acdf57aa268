use quanta_realtime_server::recording::{
    check_format_version, client_input_of, record_effect, replay, IslandRecording, RecordedEffect, RecordedInput,
    TickRecord, RECORDING_FORMAT_VERSION,
};
use quanta_realtime_server::testing::{IncrementWasm, TestHarnessBuilder};
use quanta_realtime_server::tick::types::{
    BridgeEffect, ClientInput, HandleResult, NoopWasmExecutor, SessionId, TickMessage, WasmExecutor, WasmTrap,
};
use quanta_realtime_server::types::EntitySlot;

/// A deterministic executor that counts the messages it handled.
struct CountingWasm {
    counter: u32,
}

impl WasmExecutor for CountingWasm {
    fn call_handle_message(
        &mut self,
        _entity: EntitySlot,
        _state: &[u8],
        _message: &TickMessage,
    ) -> Result<HandleResult, WasmTrap> {
        self.counter += 1;
        Ok(HandleResult { state: self.counter.to_le_bytes().to_vec(), effects: vec![] })
    }
}

/// FNV-1a, 64-bit.
fn checksum(data: &[u8]) -> u64 {
    let mut h: u64 = 0xcbf2_9ce4_8422_2325;
    for b in data {
        h ^= *b as u64;
        h = h.wrapping_mul(0x0000_0100_0000_01b3);
    }
    h
}

#[test]
fn builder_defaults_produce_working_harness() {
    let mut harness = TestHarnessBuilder::new().build();
    assert_eq!(harness.current_tick(), 0);
    harness.tick();
    assert_eq!(harness.current_tick(), 1);
}

#[test]
fn deterministic_ticks_same_inputs_same_outputs() {
    let mut results = Vec::new();
    for _ in 0..2 {
        let mut harness = TestHarnessBuilder::new().build_with(CountingWasm { counter: 0 });
        harness.add_entity(EntitySlot(1), vec![0], None);
        for seq in 1..=100 {
            harness.send_input(ClientInput {
                session_id: SessionId::new("p1"),
                entity_slot: EntitySlot(1),
                input_seq: seq,
                payload: vec![],
            });
            harness.tick();
        }
        let state = harness.get_entity_state(&EntitySlot(1)).unwrap().to_vec();
        results.push(state);
    }
    assert_eq!(results[0], results[1], "deterministic: same inputs → same state");
    assert_eq!(results[0], 100u32.to_le_bytes().to_vec());
}

#[test]
fn tick_n_advances_correctly() {
    let mut harness = TestHarnessBuilder::new().build();
    harness.tick_n(10);
    assert_eq!(harness.current_tick(), 10);
    assert_eq!(harness.last_completed_tick(), 9);
}

#[test]
fn custom_tick_rate() {
    let harness = TestHarnessBuilder::new().tick_rate(60).build();
    assert_eq!(harness.current_tick(), 0);
    assert_eq!(harness.engine().current_tick(), 0);
}

#[test]
fn increment_wasm_bumps_first_byte_and_traps_on_empty() {
    let mut w = IncrementWasm;
    let msg = TickMessage::Bridge { payload: vec![] };
    let r = w.call_handle_message(EntitySlot(1), &[255, 7], &msg).unwrap();
    assert_eq!(r.state, vec![0, 7]);
    assert!(matches!(w.call_handle_message(EntitySlot(1), &[], &msg), Err(WasmTrap::OutOfBounds)));
}

#[test]
fn record_and_replay_no_divergence() {
    let mut harness = TestHarnessBuilder::new().build_with(IncrementWasm);
    harness.add_entity(EntitySlot(1), vec![0], None);
    let initial_entities = vec![(1u32, vec![0u8])];

    let mut tick_records = Vec::new();
    for seq in 1..=5 {
        let input = RecordedInput { entity_slot: 1, session_id: "p1".into(), input_seq: seq, payload: vec![] };
        harness.send_input(client_input_of(&input));
        harness.tick();

        let state = harness.get_entity_state(&EntitySlot(1)).unwrap();
        let sum = checksum(state);
        let effects: Vec<RecordedEffect> = harness.take_effects().iter().map(record_effect).collect();

        tick_records.push(TickRecord {
            tick_number: harness.last_completed_tick(),
            inputs: vec![input],
            effects,
            entity_checksums: vec![(1, sum)],
        });
    }

    let recording = IslandRecording {
        format_version: RECORDING_FORMAT_VERSION,
        tick_rate_hz: 20,
        initial_entities,
        tick_records,
    };
    replay(&recording, IncrementWasm, checksum).expect("replay should match");
}

#[test]
fn replay_detects_divergence() {
    let initial_entities = vec![(1u32, vec![0u8])];
    let mut harness = TestHarnessBuilder::new().build_with(IncrementWasm);
    harness.add_entity(EntitySlot(1), vec![0], None);
    harness.send_input(ClientInput {
        session_id: SessionId::new("p1"),
        entity_slot: EntitySlot(1),
        input_seq: 1,
        payload: vec![],
    });
    harness.tick();
    let state = harness.get_entity_state(&EntitySlot(1)).unwrap();
    let sum = checksum(state);

    let recording = IslandRecording {
        format_version: RECORDING_FORMAT_VERSION,
        tick_rate_hz: 20,
        initial_entities,
        tick_records: vec![TickRecord {
            tick_number: 0,
            inputs: vec![RecordedInput { entity_slot: 1, session_id: "p1".into(), input_seq: 1, payload: vec![] }],
            effects: vec![],
            entity_checksums: vec![(1, sum)],
        }],
    };

    let div = replay(&recording, NoopWasmExecutor, checksum).expect_err("replay should diverge");
    assert_eq!(div.tick, 0);
    assert_eq!(div.entity, 1);
    assert_eq!(div.expected, sum);
    assert_eq!(div.actual, checksum(&[0]));
}

#[test]
fn load_rejects_unknown_format_version() {
    assert!(check_format_version(RECORDING_FORMAT_VERSION).is_ok());
    let err = check_format_version(999).unwrap_err();
    assert!(err.contains("unsupported recording format version"));
    assert_eq!(err, "unsupported recording format version: expected 1, got 999");
}

#[test]
fn persist_effects_are_recorded_by_count() {
    let e = BridgeEffect::Persist { entity_states: vec![(EntitySlot(1), vec![1]), (EntitySlot(2), vec![])] };
    assert!(matches!(record_effect(&e), RecordedEffect::Persist { entity_count: 2 }));
    let e = BridgeEffect::EntityEvicted { entity: EntitySlot(4) };
    assert!(matches!(record_effect(&e), RecordedEffect::EntityEvicted { entity: 4 }));
}
