use quanta_realtime_server::command::{ActivationError, ClientConnectedError, LifecycleError, RegisterClientError};
use quanta_realtime_server::config::ServerConfig;
use quanta_realtime_server::island::handle::ThreadModel;
use quanta_realtime_server::manager::{BridgeRoute, IslandManager, PassivationOutcome, SlotAllocator};
use quanta_realtime_server::types::{EntitySlot, IslandId, IslandManifest, IslandSnapshot};
use quanta_realtime_server::zone_transfer::ZoneTransferConfig;

fn manifest(id: &str, entities: u32) -> IslandManifest {
    IslandManifest {
        island_id: IslandId::from(id),
        entity_count: entities,
        wasm_module: "game.wasm".into(),
        initial_state: vec![],
    }
}

#[test]
fn activate_spawns_and_refuses_duplicates() {
    let mut m = IslandManager::new(ServerConfig::default());
    let spawn = m.handle_activate(manifest("a", 10), false, 0).unwrap();
    assert_eq!(spawn.thread_model, ThreadModel::Pooled);
    assert_eq!(spawn.tick_rate_hz, 20);
    assert!(spawn.snapshot.is_none());
    let big = m.handle_activate(manifest("b", 100), false, 0).unwrap();
    assert_eq!(big.thread_model, ThreadModel::Dedicated);
    assert_eq!(
        m.handle_activate(manifest("a", 10), false, 0).unwrap_err(),
        ActivationError::DuplicateIsland(IslandId::from("a"))
    );
    let metrics = m.collect_metrics();
    assert_eq!(metrics.active_islands, 2);
    assert_eq!(metrics.total_entities, 110);
}

#[test]
fn activate_refused_at_capacity() {
    let mut config = ServerConfig::default();
    config.max_islands = 1;
    let mut m = IslandManager::new(config);
    m.handle_activate(manifest("a", 1), false, 0).unwrap();
    let err = m.handle_activate(manifest("b", 1), false, 0).unwrap_err();
    assert_eq!(err, ActivationError::AtCapacity { max: 1 });
    assert_eq!(err.to_string(), "server at capacity (1 islands)");
}

#[test]
fn drain_and_stop_lifecycle() {
    let mut m = IslandManager::new(ServerConfig::default());
    m.handle_activate(manifest("a", 1), false, 0).unwrap();
    m.handle_drain(&IslandId::from("a")).unwrap();
    assert_eq!(
        m.handle_drain(&IslandId::from("a")).unwrap_err(),
        LifecycleError::NotFound(IslandId::from("a"))
    );
    assert_eq!(m.collect_metrics().total_islands, 0);
    m.handle_activate(manifest("b", 1), false, 0).unwrap();
    m.handle_stop(&IslandId::from("b")).unwrap();
    assert!(m.handle_stop(&IslandId::from("b")).is_err());
    assert_eq!(LifecycleError::NotFound(IslandId::from("x")).to_string(), "island not found: x");
}

#[test]
fn register_clients_get_distinct_slots_and_release_them() {
    let mut m = IslandManager::new(ServerConfig::default());
    m.handle_activate(manifest("a", 1), false, 0).unwrap();
    let id = IslandId::from("a");
    let (s1, c1) = m.handle_register_client(&id, 11).unwrap();
    let (s2, _) = m.handle_register_client(&id, 12).unwrap();
    assert_eq!(m.client_registry_len(), 2);
    assert_ne!(s1, s2);
    assert_eq!(c1.0 as u32, s1.0);
    let (slot, _) = m.handle_deregister_client(&id, 11).unwrap();
    assert_eq!(slot, s1);
    assert!(m.handle_deregister_client(&id, 11).is_none());
    assert_eq!(m.client_registry_len(), 1, "a deregistered session leaves no entry behind");
    let (s3, _) = m.handle_register_client(&id, 13).unwrap();
    assert_eq!(s3, s1);
    assert_eq!(
        m.handle_register_client(&IslandId::from("nope"), 1).unwrap_err(),
        RegisterClientError::IslandNotFound(IslandId::from("nope"))
    );
}

#[test]
fn register_refused_on_draining_island() {
    let mut m = IslandManager::new(ServerConfig::default());
    m.handle_activate(manifest("a", 1), false, 0).unwrap();
    assert!(m.begin_passivation(&IslandId::from("a")));
    assert_eq!(
        m.handle_register_client(&IslandId::from("a"), 1).unwrap_err(),
        RegisterClientError::IslandNotRunning(IslandId::from("a"))
    );
}

#[test]
fn client_connections_counted() {
    let mut m = IslandManager::new(ServerConfig::default());
    assert_eq!(m.handle_client_connected(1).unwrap(), 1);
    assert_eq!(m.handle_client_connected(2).unwrap(), 2);
    m.handle_client_disconnected(1);
    assert_eq!(m.collect_metrics().connected_clients, 1);
    assert_eq!(
        ClientConnectedError::AtCapacity { max: 4096 }.to_string(),
        "server at client capacity (4096)"
    );
}

#[test]
fn passivation_then_bridge_message_reactivates() {
    let mut m = IslandManager::new(ServerConfig::default());
    m.handle_activate(manifest("a", 3), true, 0).unwrap();
    let id = IslandId::from("a");
    assert!(m.due_for_passivation(29_999).is_empty());
    assert_eq!(m.due_for_passivation(30_000), vec![IslandId::from("a")]);
    assert!(m.begin_passivation(&id));
    assert!(!m.begin_passivation(&id));
    let snap = IslandSnapshot { island_id: IslandId::from("a"), tick: 9, state: vec![1, 2] };
    m.finish_passivation(&id, PassivationOutcome::Snapshot(snap));
    assert_eq!(m.collect_metrics().total_islands, 0);
    match m.handle_bridge_message(&id, 40_000).unwrap() {
        BridgeRoute::Reactivate(spawn) => {
            let s = spawn.snapshot.expect("snapshot");
            assert_eq!(s.tick, 9);
            assert_eq!(s.state, vec![1, 2]);
            assert_eq!(spawn.manifest.entity_count, 3);
        }
        BridgeRoute::Deliver => panic!("expected reactivation"),
    }
    assert!(matches!(m.handle_bridge_message(&id, 40_001).unwrap(), BridgeRoute::Deliver));
}

#[test]
fn players_keep_island_awake() {
    let mut m = IslandManager::new(ServerConfig::default());
    m.handle_activate(manifest("a", 1), true, 0).unwrap();
    let id = IslandId::from("a");
    m.handle_player_joined(&id).unwrap();
    assert!(m.due_for_passivation(100_000).is_empty());
    m.handle_player_left(&id, 100_000).unwrap();
    // The last player left: passivation after the 10 s grace period.
    assert!(m.due_for_passivation(109_999).is_empty());
    assert_eq!(m.due_for_passivation(110_000).len(), 1);
}

#[test]
fn zone_transfer_between_islands() {
    let mut config = ServerConfig::default();
    config.zone_transfer = Some(ZoneTransferConfig::for_testing());
    let mut m = IslandManager::new(config);
    m.handle_activate(manifest("a", 1), false, 0).unwrap();
    m.handle_activate(manifest("b", 1), false, 0).unwrap();
    let now = 1_000_000;
    // The signed fields' bitcode encoding, as the server process makes it.
    let ttl = ZoneTransferConfig::for_testing().token_ttl_ms;
    let pos = [f32::from_bits(1), f32::from_bits(2), f32::from_bits(3)];
    let payload = bitcode::encode(&(
        "p1".to_string(),
        "a".to_string(),
        "b".to_string(),
        pos,
        [0.0f32; 3],
        Vec::<(String, u32, Vec<u8>)>::new(),
        now,
        ttl,
    ));
    let token = m
        .handle_prepare_zone_transfer(
            "p1".into(),
            &IslandId::from("a"),
            &IslandId::from("b"),
            [1, 2, 3],
            [0, 0, 0],
            vec![],
            now,
            &payload,
        )
        .unwrap();
    let player = m.handle_accept_zone_transfer(&token, &payload, &IslandId::from("b"), now + 10, &[]).unwrap();
    assert_eq!(player.player_id, "p1");
    assert_eq!(player.position_bits, [1, 2, 3]);
    assert!(m.handle_accept_zone_transfer(&token, &payload, &IslandId::from("b"), now + 20, &[]).is_err());
    assert!(m.check_zone_transfer_timeouts(now + 4_000).is_empty());
    assert_eq!(m.check_zone_transfer_timeouts(now + 6_000), vec!["p1".to_string()]);
}

#[test]
fn slot_allocator_reuses_released_slots() {
    let mut a = SlotAllocator::new();
    let s0 = a.allocate().unwrap();
    let s1 = a.allocate().unwrap();
    assert_eq!((s0, s1), (0, 1));
    a.release(s0);
    assert_eq!(a.allocate(), Some(0));
    assert_eq!(a.allocate(), Some(2));
    let _ = EntitySlot(s1);
}
