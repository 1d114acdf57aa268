use quanta_realtime_server::sync::{
    decode_baseline_ack, decode_initial_state, encode_baseline_ack, encode_initial_state, initial_state_stream_bytes,
    split_for_ramping, BandwidthRampConfig, BaselineAck, EntityPayload, InitialStateMessage, SyncError,
    FLAG_INCLUDES_SCHEMA, HEADER_SIZE,
};

fn make_entities(count: usize) -> Vec<EntityPayload> {
    (0..count)
        .map(|i| EntityPayload { entity_slot: i as u32, state: vec![(i & 0xFF) as u8; 8] })
        .collect()
}

#[test]
fn roundtrip_200_entities_no_schema() {
    let msg = InitialStateMessage {
        baseline_tick: 12345,
        flags: 0,
        schema_version: 3,
        compiled_schema: None,
        entities: make_entities(200),
    };
    let bytes = encode_initial_state(&msg);
    let decoded = decode_initial_state(&bytes).unwrap();
    assert_eq!(msg, decoded);
}

#[test]
fn roundtrip_with_schema() {
    let schema = vec![0xDE, 0xAD, 0xBE, 0xEF, 0x01, 0x02];
    let msg = InitialStateMessage {
        baseline_tick: 99,
        flags: FLAG_INCLUDES_SCHEMA,
        schema_version: 1,
        compiled_schema: Some(schema),
        entities: make_entities(5),
    };
    let bytes = encode_initial_state(&msg);
    let decoded = decode_initial_state(&bytes).unwrap();
    assert_eq!(msg, decoded);
}

#[test]
fn roundtrip_empty_entities() {
    let msg = InitialStateMessage {
        baseline_tick: 0,
        flags: 0,
        schema_version: 0,
        compiled_schema: None,
        entities: vec![],
    };
    let bytes = encode_initial_state(&msg);
    let decoded = decode_initial_state(&bytes).unwrap();
    assert_eq!(msg, decoded);
}

#[test]
fn truncated_header_returns_error() {
    let err = decode_initial_state(&[0u8; 5]).unwrap_err();
    assert_eq!(err, SyncError::TruncatedInput { expected: HEADER_SIZE, got: 5 });
}

#[test]
fn truncated_entity_state_returns_error() {
    let msg = InitialStateMessage {
        baseline_tick: 1,
        flags: 0,
        schema_version: 1,
        compiled_schema: None,
        entities: make_entities(1),
    };
    let mut bytes = encode_initial_state(&msg);
    bytes.truncate(bytes.len() - 2);
    let err = decode_initial_state(&bytes).unwrap_err();
    assert!(matches!(err, SyncError::TruncatedInput { .. }));
}

#[test]
fn initial_state_golden_header() {
    let msg = InitialStateMessage {
        baseline_tick: 258,
        flags: 0,
        schema_version: 7,
        compiled_schema: None,
        entities: vec![EntityPayload { entity_slot: 3, state: vec![0xAA] }],
    };
    let bytes = encode_initial_state(&msg);
    assert_eq!(
        bytes,
        vec![0, 0, 0, 0, 0, 0, 1, 2, 0, 7, 0, 0, 0, 1, 0, 0, 0, 3, 0, 0, 0, 1, 0xAA]
    );
}

#[test]
fn too_many_entities_rejected() {
    let mut bytes = vec![0u8; 10];
    bytes.extend_from_slice(&10_001u32.to_be_bytes());
    assert_eq!(
        decode_initial_state(&bytes).unwrap_err(),
        SyncError::EntityCountExceeded { count: 10_001, max: 10_000 }
    );
}

#[test]
fn sync_error_text() {
    assert_eq!(
        SyncError::TruncatedInput { expected: 14, got: 5 }.to_string(),
        "truncated input: expected 14 bytes, got 5"
    );
    assert_eq!(SyncError::Timeout.to_string(), "sync timed out");
}

#[test]
fn baseline_ack_roundtrip() {
    let ack = BaselineAck { baseline_tick: 42_000 };
    let bytes = encode_baseline_ack(&ack);
    let decoded = decode_baseline_ack(&bytes).unwrap();
    assert_eq!(ack, decoded);
}

#[test]
fn baseline_ack_is_length_prefixed() {
    let bytes = encode_baseline_ack(&BaselineAck { baseline_tick: 7 });
    let len = u32::from_be_bytes([bytes[0], bytes[1], bytes[2], bytes[3]]) as usize;
    assert_eq!(bytes.len(), 4 + len);
    assert!(len > 0);
}

#[test]
fn baseline_ack_truncated_returns_error() {
    let err = decode_baseline_ack(&[0u8; 2]).unwrap_err();
    assert!(matches!(err, SyncError::TruncatedInput { .. }));
}

#[test]
fn baseline_ack_short_body_returns_error() {
    let err = decode_baseline_ack(&[0, 0, 0, 9, 1]).unwrap_err();
    assert_eq!(err, SyncError::TruncatedInput { expected: 13, got: 5 });
}

#[test]
fn split_for_ramping_all_immediate() {
    let entities = make_entities(150);
    let config = BandwidthRampConfig::default_config();
    let (immediate, deferred) = split_for_ramping(entities, &config);
    assert_eq!(immediate.len(), 150);
    assert!(deferred.is_empty());
}

#[test]
fn split_for_ramping_splits_at_limit() {
    let entities = make_entities(300);
    let config = BandwidthRampConfig::default_config();
    let (immediate, deferred) = split_for_ramping(entities, &config);
    assert_eq!(immediate.len(), 200);
    assert_eq!(deferred.len(), 100);
    assert_eq!(immediate[0].entity_slot, 0);
    assert_eq!(immediate[199].entity_slot, 199);
    assert_eq!(deferred[0].entity_slot, 200);
    assert_eq!(deferred[99].entity_slot, 299);
}

#[test]
fn split_for_ramping_exact_limit() {
    let entities = make_entities(200);
    let config = BandwidthRampConfig::default_config();
    let (immediate, deferred) = split_for_ramping(entities, &config);
    assert_eq!(immediate.len(), 200);
    assert!(deferred.is_empty());
}

#[test]
fn bandwidth_ramp_config_defaults() {
    let config = BandwidthRampConfig::default_config();
    assert_eq!(config.ramp_duration_ms, 500);
    assert_eq!(config.immediate_entity_limit, 200);
}

#[test]
fn typical_200_entity_message_size() {
    let msg = InitialStateMessage {
        baseline_tick: 100,
        flags: 0,
        schema_version: 1,
        compiled_schema: None,
        entities: make_entities(200),
    };
    let bytes = encode_initial_state(&msg);
    assert!(bytes.len() < 65_536, "message should fit in a single burst");
}

#[test]
fn stream_bytes_are_length_prefixed_message() {
    let msg = InitialStateMessage {
        baseline_tick: 77,
        flags: 0,
        schema_version: 1,
        compiled_schema: None,
        entities: make_entities(3),
    };
    let body = encode_initial_state(&msg);
    let framed = initial_state_stream_bytes(&msg);
    assert_eq!(&framed[..4], &(body.len() as u32).to_be_bytes());
    assert_eq!(&framed[4..], &body[..]);
    let decoded = decode_initial_state(&framed[4..]).unwrap();
    let ack = decode_baseline_ack(&encode_baseline_ack(&BaselineAck { baseline_tick: decoded.baseline_tick })).unwrap();
    assert_eq!(ack.baseline_tick, 77);
}

#[test]
fn baseline_ack_payload_is_bitcode_of_the_tick() {
    let buf = encode_baseline_ack(&BaselineAck { baseline_tick: 0x0102_0304_0506_0708 });
    let expected = bitcode::encode(&0x0102_0304_0506_0708u64);
    assert_eq!(&buf[..4], &(expected.len() as u32).to_be_bytes());
    assert_eq!(&buf[4..], &expected[..]);
    let framed = (0u32).to_be_bytes().to_vec();
    assert!(matches!(decode_baseline_ack(&framed), Err(SyncError::InvalidPayload(_))), "no bytes decode no tick");
}

#[test]
fn decoded_message_reencodes_to_the_bytes_read() {
    let mut bytes: Vec<u8> = vec![0, 0, 0, 0, 0, 0, 0, 7, 0x01, 3];
    bytes.extend_from_slice(&[0, 0, 0, 2, 0xAA, 0xBB]);
    bytes.extend_from_slice(&[0, 0, 0, 1]);
    bytes.extend_from_slice(&[0, 0, 0, 5, 0, 0, 0, 3, 1, 2, 3]);
    let read = bytes.len();
    bytes.extend_from_slice(&[9, 9, 9]);
    let msg = decode_initial_state(&bytes).unwrap();
    assert_eq!(msg.baseline_tick, 7);
    assert_eq!(msg.compiled_schema, Some(vec![0xAA, 0xBB]));
    assert_eq!(msg.entities.len(), 1);
    assert_eq!(encode_initial_state(&msg), bytes[..read].to_vec());
}
