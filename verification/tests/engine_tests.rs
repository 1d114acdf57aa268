use quanta_realtime_server::checkpoint::codec::{decode_checkpoint, CheckpointEntity, CheckpointPayload};
use quanta_realtime_server::tick::engine::{
    admits_snapshot_subscriber, route_effects, CommandOutcome, EngineCommand, TickEngine, TickPacer,
};
use quanta_realtime_server::tick::fault::ActorHealthState;
use quanta_realtime_server::tick::types::{
    BridgeEffect, BridgeMessage, BridgeMessageKind, ClientInput, HandleResult, NoopWasmExecutor, SessionId,
    TickEffect, TickEngineConfig, TickMessage, WasmExecutor, WasmTrap,
};
use quanta_realtime_server::types::{EntitySlot, IslandId};

/// Appends what each message carries to the entity's state. An input of `[0xFF]` traps;
/// an input of `[1]` also sends `[9]` to entity 2; an input of `[2]` persists; a bridge
/// request is answered with the state.
struct Recorder;

impl WasmExecutor for Recorder {
    fn call_handle_message(
        &mut self,
        _entity: EntitySlot,
        state: &[u8],
        message: &TickMessage,
    ) -> Result<HandleResult, WasmTrap> {
        let mut next = state.to_vec();
        let mut effects = Vec::new();
        match message {
            TickMessage::Input { payload, .. } => {
                if payload.as_slice() == [0xFF] {
                    return Err(WasmTrap::OutOfBounds);
                }
                if payload.as_slice() == [1] {
                    effects.push(TickEffect::Send { target: EntitySlot(2), payload: vec![9] });
                }
                if payload.as_slice() == [2] {
                    effects.push(TickEffect::Persist);
                }
                next.extend_from_slice(payload);
            }
            TickMessage::Deferred { payload, .. } => next.extend_from_slice(payload),
            TickMessage::Bridge { payload } => next.extend_from_slice(payload),
            TickMessage::Timer { .. } => next.push(7),
            TickMessage::BridgeRequest { payload, .. } => {
                next.extend_from_slice(payload);
                effects.push(TickEffect::Reply(next.clone()));
            }
            TickMessage::SagaFailed { .. } => next.push(0xEE),
        }
        Ok(HandleResult { state: next, effects })
    }
}

fn engine() -> TickEngine<Recorder> {
    let mut e = TickEngine::new(IslandId::from("island"), TickEngineConfig::default_config(), Recorder);
    e.add_entity(EntitySlot(1), vec![0], Some(SessionId::new("s1")));
    e.add_entity(EntitySlot(2), vec![0], None);
    e
}

fn input(slot: u32, seq: u32, payload: Vec<u8>) -> ClientInput {
    ClientInput { session_id: SessionId::new("s1"), entity_slot: EntitySlot(slot), input_seq: seq, payload }
}

#[test]
fn input_reaches_entity_and_tick_advances() {
    let mut e = engine();
    assert_eq!(e.current_tick(), 0);
    e.tick(vec![input(1, 1, vec![5])], vec![]);
    assert_eq!(e.current_tick(), 1);
    assert_eq!(e.get_entity_state(&EntitySlot(1)), Some(&[0u8, 5][..]));
    assert_eq!(e.get_entity_state(&EntitySlot(2)), Some(&[0u8][..]));
}

#[test]
fn stale_input_sequence_is_dropped() {
    let mut e = engine();
    e.tick(vec![input(1, 3, vec![5]), input(1, 2, vec![6]), input(1, 3, vec![7])], vec![]);
    assert_eq!(e.get_entity_state(&EntitySlot(1)), Some(&[0u8, 5][..]));
    e.tick(vec![input(1, 3, vec![8]), input(1, 4, vec![9])], vec![]);
    assert_eq!(e.get_entity_state(&EntitySlot(1)), Some(&[0u8, 5, 9][..]));
}

#[test]
fn send_is_delivered_on_the_next_tick() {
    let mut e = engine();
    e.tick(vec![input(1, 1, vec![1])], vec![]);
    assert_eq!(e.deferred_send_count(), 1);
    assert_eq!(e.get_entity_state(&EntitySlot(2)), Some(&[0u8][..]));
    e.tick(vec![], vec![]);
    assert_eq!(e.get_entity_state(&EntitySlot(2)), Some(&[0u8, 9][..]));
    assert_eq!(e.deferred_send_count(), 0);
}

#[test]
fn trap_quarantines_and_keeps_state() {
    let mut e = engine();
    e.tick(vec![input(1, 1, vec![0xFF])], vec![]);
    assert_eq!(e.get_entity_state(&EntitySlot(1)), Some(&[0u8][..]));
    assert_eq!(
        e.fault_state(&EntitySlot(1)),
        ActorHealthState::Quarantined { consecutive_faults: 1, resume_at_tick: 1 }
    );
    assert_eq!(e.fault_state(&EntitySlot(2)), ActorHealthState::Healthy);
}

#[test]
fn timer_fires_into_entity() {
    let mut e = engine();
    e.set_timer(EntitySlot(1), "t".into(), 50);
    e.tick(vec![], vec![]);
    assert_eq!(e.get_entity_state(&EntitySlot(1)), Some(&[0u8][..]));
    e.tick(vec![], vec![]);
    assert_eq!(e.get_entity_state(&EntitySlot(1)), Some(&[0u8, 7][..]));
    assert!(!e.cancel_timer(&EntitySlot(1), "t"));
}

#[test]
fn bridge_request_is_answered() {
    let mut e = engine();
    let cid = [3u8; 16];
    e.tick(
        vec![],
        vec![BridgeMessage {
            target_entity: EntitySlot(2),
            kind: BridgeMessageKind::Request { correlation_id: cid },
            payload: vec![4],
        }],
    );
    assert_eq!(e.get_entity_state(&EntitySlot(2)), Some(&[0u8, 4][..]));
    let effects = e.take_effects();
    assert!(effects.iter().any(|f| matches!(f, BridgeEffect::BridgeReply { correlation_id, payload }
        if *correlation_id == cid && payload == &vec![0u8, 4])));
}

#[test]
fn persist_triggers_checkpoint() {
    let mut e = engine();
    e.enable_checkpoints(0);
    assert!(e.tick(vec![], vec![]).is_none());
    let data = e.tick(vec![input(1, 1, vec![2])], vec![]).expect("checkpoint");
    let (tick, payload) = decode_checkpoint(&data).unwrap();
    assert_eq!(tick, 1);
    assert_eq!(payload.entities.len(), 2);
    assert_eq!(payload.entities[0].slot, 1);
    assert_eq!(payload.entities[0].state, vec![0, 2]);
    assert_eq!(payload.entities[0].owner_session.as_deref(), Some("s1"));
}

#[test]
fn no_checkpoint_without_enabling() {
    let mut e = engine();
    assert!(e.tick(vec![input(1, 1, vec![2])], vec![]).is_none());
    assert!(e.tick_n(5).is_empty());
    assert_eq!(e.current_tick(), 6);
}

#[test]
fn passivation_snapshot_restores_entities() {
    let mut e = engine();
    e.tick(vec![input(1, 1, vec![5])], vec![]);
    let snap = match e.handle_command(EngineCommand::Passivate) {
        CommandOutcome::Passivated(s) => s,
        _ => panic!("expected a snapshot"),
    };
    assert_eq!(snap.tick, 1);
    let mut fresh = TickEngine::new(IslandId::from("island"), TickEngineConfig::default_config(), Recorder);
    fresh.restore_from_snapshot(&snap);
    assert_eq!(fresh.current_tick(), 1);
    assert_eq!(fresh.entity_slots(), vec![EntitySlot(1), EntitySlot(2)]);
    assert_eq!(fresh.get_entity_state(&EntitySlot(1)), Some(&[0u8, 5][..]));
}

#[test]
fn commands_add_and_remove_entities() {
    let mut e = TickEngine::new(IslandId::from("i"), TickEngineConfig::default_config(), NoopWasmExecutor);
    assert!(matches!(
        e.handle_command(EngineCommand::AddEntity { slot: EntitySlot(4), initial_state: vec![1], owner: None }),
        CommandOutcome::Continue
    ));
    assert_eq!(e.entity_count(), 1);
    assert!(matches!(e.handle_command(EngineCommand::RemoveEntity { slot: EntitySlot(4) }), CommandOutcome::Continue));
    assert_eq!(e.entity_count(), 0);
    assert!(matches!(e.handle_command(EngineCommand::Stop), CommandOutcome::Stop));
    assert!(matches!(e.handle_command(EngineCommand::Drain), CommandOutcome::Stop));
}

#[test]
fn replies_become_bridge_replies() {
    let (replies, kept) = route_effects(
        vec![TickEffect::Reply(vec![1]), TickEffect::StopSelf, TickEffect::Reply(vec![2])],
        Some([5u8; 16]),
    );
    assert_eq!(kept.len(), 1);
    assert!(matches!(kept[0], TickEffect::StopSelf));
    assert_eq!(replies.len(), 2);
}

#[test]
fn snapshot_subscribers_are_bounded() {
    assert!(admits_snapshot_subscriber(0));
    assert!(!admits_snapshot_subscriber(usize::MAX));
}

#[test]
fn pacer_accumulates_and_caps() {
    let mut p = TickPacer::new(20, 3);
    assert_eq!(p.period_ns(), 50_000_000);
    assert!(!p.begin_frame(120_000_000));
    assert!(p.take_tick());
    assert!(p.take_tick());
    assert!(!p.take_tick());
    assert_eq!(p.sleep_ns(), Some(30_000_000));
    assert!(p.begin_frame(1_000_000_000));
    let mut n = 0;
    while p.take_tick() {
        n += 1;
    }
    assert_eq!(n, 3);
}

#[test]
fn wasm_trap_text() {
    assert_eq!(WasmTrap::StackOverflow.to_string(), "stack overflow");
}

#[test]
fn restore_then_snapshot_gives_the_entities_back_by_slot() {
    let payload = CheckpointPayload {
        entities: vec![
            CheckpointEntity { slot: 9, state: vec![9], owner_session: None },
            CheckpointEntity { slot: 2, state: vec![2, 2], owner_session: Some("s".to_string()) },
            CheckpointEntity { slot: 9, state: vec![9, 9], owner_session: None },
        ],
    };
    let mut e = TickEngine::new(IslandId::from("i"), TickEngineConfig::default_config(), NoopWasmExecutor);
    e.restore_from_checkpoint(40, &payload);
    let snap = e.build_snapshot();
    assert_eq!(
        snap.entities,
        vec![
            CheckpointEntity { slot: 2, state: vec![2, 2], owner_session: Some("s".to_string()) },
            CheckpointEntity { slot: 9, state: vec![9, 9], owner_session: None },
        ]
    );
}
