use quanta_realtime_server::bridge_rpc::{
    correlation_id_from, same_correlation_id, BridgeRpcConfig, D2rCoalescer, R2dBatcher, RequestError,
    RequestReplyMap,
};
use quanta_realtime_server::effect_io::coalesce_effect_batch;
use quanta_realtime_server::tick::types::BridgeEffect;
use quanta_realtime_server::types::EntitySlot;

#[test]
fn request_reply_insert_and_resolve() {
    let mut map = RequestReplyMap::new(1024);
    let cid = map.next_correlation_id();
    map.insert(cid, EntitySlot(1), 200).unwrap();

    assert_eq!(map.pending_count(), 1);
    let entity = map.resolve(&cid);
    assert_eq!(entity, Some(EntitySlot(1)));
    assert_eq!(map.pending_count(), 0);
}

#[test]
fn request_reply_resolve_unknown_returns_none() {
    let mut map = RequestReplyMap::new(1024);
    let entity = map.resolve(&[0; 16]);
    assert_eq!(entity, None);
}

#[test]
fn request_reply_expired_cleanup() {
    let mut map = RequestReplyMap::new(1024);
    let cid = [42u8; 16];
    map.insert_at(cid, EntitySlot(5), 0, 1_000).unwrap();

    let expired = map.remove_expired_at(1_001);
    assert_eq!(expired.len(), 1);
    assert_eq!(expired[0], (cid, EntitySlot(5)));
    assert_eq!(map.pending_count(), 0);
}

#[test]
fn request_reply_keeps_unexpired() {
    let mut map = RequestReplyMap::new(1024);
    map.insert_at([1u8; 16], EntitySlot(1), 100, 1_000).unwrap();
    map.insert_at([2u8; 16], EntitySlot(2), 500, 1_000).unwrap();
    let expired = map.remove_expired_at(1_100);
    assert_eq!(expired, vec![([1u8; 16], EntitySlot(1))]);
    assert_eq!(map.pending_count(), 1);
    assert_eq!(map.resolve(&[2u8; 16]), Some(EntitySlot(2)));
}

#[test]
fn request_reply_same_id_replaces() {
    let mut map = RequestReplyMap::new(1024);
    map.insert_at([7u8; 16], EntitySlot(1), 100, 0).unwrap();
    map.insert_at([7u8; 16], EntitySlot(9), 100, 0).unwrap();
    assert_eq!(map.pending_count(), 1);
    assert_eq!(map.resolve(&[7u8; 16]), Some(EntitySlot(9)));
}

#[test]
fn correlation_id_has_random_component() {
    let mut map = RequestReplyMap::new(1024);
    let id1 = map.next_correlation_id();
    let id2 = map.next_correlation_id();
    assert_ne!(id1, id2);
    assert_ne!(id1[8..], id2[8..]);
}

#[test]
fn correlation_id_layout() {
    let id = correlation_id_from(0x0102_0304_0506_0708, 0x1_0009, 0x1112_1314_1516_1718);
    assert_eq!(&id[..6], &[3, 4, 5, 6, 7, 8]);
    assert_eq!(&id[6..8], &[0, 9]);
    assert_eq!(&id[8..], &0x1112_1314_1516_1718u64.to_le_bytes());
    assert!(same_correlation_id(&id, &id));
    assert!(!same_correlation_id(&id, &[0u8; 16]));
}

#[test]
fn request_reply_at_capacity() {
    let mut map = RequestReplyMap::new(2);
    let cid1 = map.next_correlation_id();
    let cid2 = map.next_correlation_id();
    let cid3 = map.next_correlation_id();

    map.insert_at(cid1, EntitySlot(1), 10_000, 0).unwrap();
    map.insert_at(cid2, EntitySlot(2), 10_000, 0).unwrap();

    let err = map.insert_at(cid3, EntitySlot(3), 10_000, 0);
    assert_eq!(err.unwrap_err(), RequestError::AtCapacity);
}

#[test]
fn request_error_text() {
    assert_eq!(RequestError::Timeout.to_string(), "request timed out");
    assert_eq!(RequestError::NoResponders.to_string(), "no responders on target subject");
    assert_eq!(RequestError::AtCapacity.to_string(), "pending request map at capacity");
}

// Message type codes as the bridge protocol numbers them.
const ENTITY_COMMAND: u8 = 1;
const STATE_SYNC: u8 = 2;

#[test]
fn per_message_type_timeout_override() {
    let mut config = BridgeRpcConfig::default_config();
    config.timeout_overrides.push((ENTITY_COMMAND, 100));

    assert_eq!(config.r2d_timeout_for(ENTITY_COMMAND), 100);
    assert_eq!(config.r2d_timeout_for(STATE_SYNC), 200);
    assert_eq!(config.d2r_timeout_for(STATE_SYNC), 500);
}

#[test]
fn later_override_wins() {
    let mut config = BridgeRpcConfig::default_config();
    config.timeout_overrides.push((ENTITY_COMMAND, 100));
    config.timeout_overrides.push((ENTITY_COMMAND, 300));
    assert_eq!(config.d2r_timeout_for(ENTITY_COMMAND), 300);
    assert_eq!(config.max_pending, 1024);
    assert!(config.coalesce_d2r_ms.is_none());
}

#[test]
fn coalescer_three_messages_within_10ms_merged_to_one() {
    let mut coalescer = D2rCoalescer::new(10);
    coalescer.submit_at("island_a".into(), EntitySlot(1), b"v1".to_vec(), 0);
    coalescer.submit_at("island_a".into(), EntitySlot(1), b"v2".to_vec(), 0);
    coalescer.submit_at("island_a".into(), EntitySlot(1), b"v3".to_vec(), 0);

    assert_eq!(coalescer.pending_count(), 1, "3 messages to same key coalesced");

    let ready = coalescer.drain_ready_at(15);
    assert_eq!(ready.len(), 1);
    assert_eq!(ready[0].2, b"v3", "latest payload wins");
}

#[test]
fn coalescer_distinct_keys_kept_separate() {
    let mut coalescer = D2rCoalescer::new(5);
    assert!(coalescer.submit_at("island_a".into(), EntitySlot(1), b"a1".to_vec(), 0));
    assert!(coalescer.submit_at("island_a".into(), EntitySlot(2), b"a2".to_vec(), 0));
    assert!(coalescer.submit_at("island_b".into(), EntitySlot(1), b"b1".to_vec(), 0));
    assert!(!coalescer.submit_at("island_b".into(), EntitySlot(1), b"b2".to_vec(), 0));

    assert_eq!(coalescer.pending_count(), 3);
    assert_eq!(coalescer.drain_ready_at(10).len(), 3);
    assert_eq!(coalescer.pending_count(), 0);
}

#[test]
fn coalescer_respects_window() {
    let mut coalescer = D2rCoalescer::new(100);
    coalescer.submit_at("island".into(), EntitySlot(1), b"data".to_vec(), 1_000);
    assert!(coalescer.drain_ready_at(1_000).is_empty());
    assert_eq!(coalescer.pending_count(), 1);
    assert!(coalescer.drain_ready_at(1_099).is_empty());
    let ready = coalescer.drain_ready_at(1_100);
    assert_eq!(ready, vec![("island".to_string(), EntitySlot(1), b"data".to_vec())]);
}

#[test]
fn batch_coalesces_persist() {
    let batch = vec![
        BridgeEffect::Persist { entity_states: vec![(EntitySlot(1), vec![1])] },
        BridgeEffect::EmitTelemetry { event: "mid".into() },
        BridgeEffect::Persist { entity_states: vec![(EntitySlot(2), vec![2])] },
    ];
    let effects = coalesce_effect_batch(batch);
    assert_eq!(effects.len(), 2);
    let persist_count = effects.iter().filter(|e| matches!(e, BridgeEffect::Persist { .. })).count();
    assert_eq!(persist_count, 1);
    for e in &effects {
        if let BridgeEffect::Persist { entity_states } = e {
            assert_eq!(entity_states.len(), 2);
            assert_eq!(entity_states[0], (EntitySlot(1), vec![1]));
            assert_eq!(entity_states[1], (EntitySlot(2), vec![2]));
        }
    }
    assert!(matches!(&effects[0], BridgeEffect::EmitTelemetry { event } if event == "mid"));
}

#[test]
fn batch_without_persist_is_unchanged() {
    let batch = vec![
        BridgeEffect::EmitTelemetry { event: "a".into() },
        BridgeEffect::EntityEvicted { entity: EntitySlot(3) },
    ];
    let effects = coalesce_effect_batch(batch);
    assert_eq!(effects.len(), 2);
    assert!(matches!(&effects[1], BridgeEffect::EntityEvicted { entity } if *entity == EntitySlot(3)));
}

/// The bridge message types these tests push.
#[derive(Debug, Clone, Copy, PartialEq, Eq)]
enum BridgeMsgType {
    EntityCommand,
    StateSync,
    Heartbeat,
}

#[test]
fn batcher_groups_by_target() {
    let mut batcher = R2dBatcher::new();
    batcher.push("type_a".into(), BridgeMsgType::EntityCommand, b"p1", None);
    batcher.push("type_a".into(), BridgeMsgType::EntityCommand, b"p2", None);
    batcher.push("type_b".into(), BridgeMsgType::StateSync, b"p3", None);

    assert_eq!(batcher.target_count(), 2);
    assert_eq!(batcher.message_count(), 3);

    let batches = batcher.flush();
    assert_eq!(batches.len(), 2);
    assert_eq!(batcher.message_count(), 0);
}

#[test]
fn batcher_five_messages_one_publish() {
    let mut batcher = R2dBatcher::new();
    for i in 0..5u8 {
        batcher.push("target".into(), BridgeMsgType::EntityCommand, &[i], None);
    }

    let batches = batcher.flush();
    assert_eq!(batches.len(), 1, "5 messages to same target → 1 batch");

    let (target, frames) = &batches[0];
    assert_eq!(target, "target");
    assert_eq!(frames.len(), 5, "batch contains 5 frames");
    for (i, f) in frames.iter().enumerate() {
        assert_eq!(f.payload, vec![i as u8]);
        assert_eq!(f.sequence, i as u64 + 1);
        assert_eq!(f.msg_type, BridgeMsgType::EntityCommand);
    }
}

#[test]
fn batcher_flush_clears_state() {
    let mut batcher = R2dBatcher::new();
    batcher.push("t".into(), BridgeMsgType::Heartbeat, b"", None);
    assert_eq!(batcher.flush().len(), 1);
    assert!(batcher.flush().is_empty());
}

#[test]
fn batcher_push_at_keeps_timestamp_and_sequence_goes_on() {
    let mut batcher = R2dBatcher::new();
    batcher.push_at("a".into(), BridgeMsgType::StateSync, b"x", Some([7u8; 16]), 1234);
    let first = batcher.flush();
    assert_eq!(first[0].1[0].timestamp_ms, 1234);
    assert_eq!(first[0].1[0].correlation_id, Some([7u8; 16]));
    batcher.push_at("a".into(), BridgeMsgType::StateSync, b"y", None, 1235);
    let second = batcher.flush();
    assert_eq!(second[0].1[0].sequence, 2);
}

#[test]
fn clock_versions_record_and_release() {
    let mut map = RequestReplyMap::new(8);
    let cid = map.next_correlation_id();
    map.insert(cid, EntitySlot(3), 60_000).unwrap();
    assert!(map.remove_expired().is_empty(), "a minute-long request is still live");
    assert_eq!(map.pending_count(), 1);

    let mut coalescer = D2rCoalescer::new(0);
    assert!(coalescer.submit("island".into(), EntitySlot(1), b"now".to_vec()));
    let ready = coalescer.drain_ready();
    assert_eq!(ready.len(), 1, "a zero window releases at once");
    assert_eq!(ready[0].2, b"now");
}
