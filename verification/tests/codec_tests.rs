use quanta_realtime_server::checkpoint::codec::{
    decode_checkpoint, decode_checkpoint_header, encode_checkpoint, encode_checkpoint_header,
    encode_checkpoint_with_nonce, CheckpointCodecError, CheckpointEntity, CheckpointPayload,
    CHECKPOINT_HEADER_SIZE,
};
use quanta_realtime_server::checkpoint::writer::{after_write, coalesce_requests, CheckpointSnapshot};
use quanta_realtime_server::delta_envelope::{
    encode_delta_datagram, parse_delta_datagram, DeltaParseError, DELTA_HEADER_LEN, FLAG_FULL_STATE,
};

#[test]
fn header_roundtrip() {
    let header = encode_checkpoint_header(42, 1, 99, 1000);
    assert_eq!(header.len(), CHECKPOINT_HEADER_SIZE);

    let (js_seq, ver, nonce, tick, rest) = decode_checkpoint_header(&header).unwrap();
    assert_eq!(js_seq, 42);
    assert_eq!(ver, 1);
    assert_eq!(nonce, 99);
    assert_eq!(tick, 1000);
    assert!(rest.is_empty());
}

#[test]
fn header_golden_bytes() {
    let expected: [u8; 26] = [
        0, 0, 0, 0, 0, 0, 0, 42, // js_seq = 42
        0, 1, // state_version = 1
        0, 0, 0, 0, 0, 0, 0, 99, // nonce = 99
        0, 0, 0, 0, 0, 0, 3, 232, // checkpoint_tick = 1000
    ];
    assert_eq!(encode_checkpoint_header(42, 1, 99, 1000), expected);
}

#[test]
fn header_truncated() {
    let err = decode_checkpoint_header(&[0u8; 25]).unwrap_err();
    assert_eq!(err, CheckpointCodecError::TruncatedInput { expected: 26, got: 25 });
}

fn sample_payload() -> CheckpointPayload {
    CheckpointPayload {
        entities: vec![
            CheckpointEntity { slot: 0, state: vec![1, 2, 3], owner_session: Some("player1".into()) },
            CheckpointEntity { slot: 5, state: vec![10, 20], owner_session: None },
        ],
    }
}

#[test]
fn full_checkpoint_roundtrip() {
    let payload = sample_payload();
    let encoded = encode_checkpoint(42, &payload);
    let (tick, decoded) = decode_checkpoint(&encoded).unwrap();
    assert_eq!(tick, 42);
    assert_eq!(decoded, payload);
}

#[test]
fn checkpoint_with_nonce_carries_header_fields() {
    let payload = sample_payload();
    let encoded = encode_checkpoint_with_nonce(7, &payload, 0xABCD);
    let (js_seq, ver, nonce, tick, rest) = decode_checkpoint_header(&encoded).unwrap();
    assert_eq!((js_seq, ver, nonce, tick), (0, 1, 0xABCD, 7));
    assert!(!rest.is_empty());
    let (tick, decoded) = decode_checkpoint(&encoded).unwrap();
    assert_eq!(tick, 7);
    assert_eq!(decoded, payload);
}

#[test]
fn checkpoint_with_wrong_version_rejected() {
    let mut encoded = encode_checkpoint_with_nonce(7, &sample_payload(), 1);
    encoded[9] = 2;
    match decode_checkpoint(&encoded) {
        Err(CheckpointCodecError::UnsupportedVersion { expected, got }) => {
            assert_eq!((expected, got), (1, 2))
        }
        other => panic!("unexpected {other:?}"),
    }
}

#[test]
fn checkpoint_with_garbage_payload_rejected() {
    let mut bytes = encode_checkpoint_header(0, 1, 0, 3).to_vec();
    bytes.extend_from_slice(&[0xFF; 3]);
    assert!(matches!(decode_checkpoint(&bytes), Err(CheckpointCodecError::InvalidPayload(_))));
}

#[test]
fn codec_error_text() {
    let e = CheckpointCodecError::TruncatedInput { expected: 26, got: 3 };
    assert_eq!(e.to_string(), "truncated checkpoint: expected at least 26 bytes, got 3");
}

#[test]
fn writer_keeps_latest_request_and_snapshot() {
    assert!(coalesce_requests(vec![]).is_none());
    let latest = coalesce_requests(vec![(1, vec![1]), (2, vec![2]), (3, vec![3])]).unwrap();
    assert_eq!(latest, (3, vec![3]));

    let prev = Some(CheckpointSnapshot { tick: 1, data: vec![9] });
    let kept = after_write(prev, 5, vec![5], false).unwrap();
    assert_eq!((kept.tick, kept.data), (1, vec![9]));
    let fresh = after_write(Some(CheckpointSnapshot { tick: 1, data: vec![9] }), 5, vec![5], true).unwrap();
    assert_eq!((fresh.tick, fresh.data), (5, vec![5]));
}

#[test]
fn golden_bytes() {
    let bytes = encode_delta_datagram(FLAG_FULL_STATE, 1, 42, &[0xDE, 0xAD]);
    let expected: Vec<u8> = vec![
        0x01, 0x00, 0x00, 0x00, 0x01, 0x00, 0x00, 0x00, 0x00, 0x00, 0x00, 0x00, 0x2A, 0xDE, 0xAD,
    ];
    assert_eq!(bytes, expected);
}

#[test]
fn roundtrip() {
    let bytes = encode_delta_datagram(0, 7, 100, &[1, 2, 3, 4]);
    let (f, s, t, d) = parse_delta_datagram(&bytes).unwrap();
    assert_eq!((f, s, t, d), (0, 7, 100, &[1, 2, 3, 4][..]));
}

#[test]
fn rejects_truncated() {
    assert_eq!(
        parse_delta_datagram(&[0u8; 12]).unwrap_err(),
        DeltaParseError::Truncated { expected: 13, got: 12 }
    );
}

#[test]
fn zero_delta_bytes_is_valid() {
    let bytes = encode_delta_datagram(0, 0, 0, &[]);
    assert_eq!(bytes.len(), DELTA_HEADER_LEN);
    let (_, _, _, d) = parse_delta_datagram(&bytes).unwrap();
    assert!(d.is_empty());
}

#[test]
fn delta_parse_error_text() {
    let e = DeltaParseError::Truncated { expected: 13, got: 12 };
    assert_eq!(e.to_string(), "truncated delta datagram: expected ≥13 bytes, got 12");
}

#[test]
fn checkpoint_body_is_bitcode_of_the_records() {
    let payload = CheckpointPayload {
        entities: vec![
            CheckpointEntity { slot: 3, state: vec![1, 2, 3], owner_session: Some("s".into()) },
            CheckpointEntity { slot: 9, state: vec![], owner_session: None },
        ],
    };
    let buf = encode_checkpoint_with_nonce(5, &payload, 11);
    let records: Vec<(u32, Vec<u8>, Option<String>)> = vec![(3, vec![1, 2, 3], Some("s".into())), (9, vec![], None)];
    assert_eq!(&buf[CHECKPOINT_HEADER_SIZE..], &bitcode::encode(&records)[..]);
}
