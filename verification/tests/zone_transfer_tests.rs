use quanta_realtime_server::clock::now_ms;
use quanta_realtime_server::types::IslandId;
use quanta_realtime_server::zone_transfer::{
    dedup_record, parse_dedup_records, persisted_contains, token_size_allowed, BuffState, TokenSigner,
    TransferError, ZoneTransferConfig, ZoneTransferManager, ZoneTransferToken, MAX_PLAYER_ID_LEN,
    MAX_TOKEN_BYTES,
};

fn test_config() -> ZoneTransferConfig {
    ZoneTransferConfig::for_testing()
}

fn test_signer() -> TokenSigner {
    let c = test_config();
    TokenSigner::new(&c.hmac_secret, c.token_ttl_ms)
}

fn zone(s: &str) -> IslandId {
    IslandId::from(s)
}

fn bits(v: [f32; 3]) -> [u32; 3] {
    [v[0].to_bits(), v[1].to_bits(), v[2].to_bits()]
}

fn floats(b: [u32; 3]) -> [f32; 3] {
    [f32::from_bits(b[0]), f32::from_bits(b[1]), f32::from_bits(b[2])]
}

/// The bitcode encoding of a token's signed fields, in declaration order.
fn payload(player: &str, src: &IslandId, dst: &IslandId, pos: [u32; 3], vel: [u32; 3], buffs: &[BuffState], ts: u64, ttl: u32) -> Vec<u8> {
    let bs: Vec<(String, u32, Vec<u8>)> =
        buffs.iter().map(|b| (b.buff_id.clone(), b.remaining_ms, b.data.clone())).collect();
    bitcode::encode(&(
        player.to_string(),
        src.as_str().to_string(),
        dst.as_str().to_string(),
        floats(pos),
        floats(vel),
        bs,
        ts,
        ttl,
    ))
}

fn payload_of(t: &ZoneTransferToken) -> Vec<u8> {
    payload(&t.player_id, &t.source_zone, &t.target_zone, t.position_bits, t.velocity_bits, &t.buffs, t.timestamp, t.ttl_ms)
}

fn sign(signer: &TokenSigner, player: &str, src: &str, dst: &str, pos: [u32; 3], vel: [u32; 3], buffs: Vec<BuffState>, ts: u64) -> ZoneTransferToken {
    let p = payload(player, &zone(src), &zone(dst), pos, vel, &buffs, ts, signer.ttl_ms());
    signer.sign_at(player.into(), zone(src), zone(dst), pos, vel, buffs, ts, &p)
}

fn prepare_at(
    mgr: &mut ZoneTransferManager,
    player: &str,
    src: &str,
    dst: &str,
    pos: [u32; 3],
    vel: [u32; 3],
    buffs: Vec<BuffState>,
    ts: u64,
) -> Result<ZoneTransferToken, TransferError> {
    let p = payload(player, &zone(src), &zone(dst), pos, vel, &buffs, ts, test_config().token_ttl_ms);
    mgr.prepare_transfer_at(player.into(), zone(src), zone(dst), pos, vel, buffs, ts, &p)
}

fn prepare(
    mgr: &mut ZoneTransferManager,
    player: &str,
    src: &str,
    dst: &str,
    pos: [u32; 3],
    vel: [u32; 3],
    buffs: Vec<BuffState>,
) -> Result<ZoneTransferToken, TransferError> {
    prepare_at(mgr, player, src, dst, pos, vel, buffs, now_ms())
}

#[test]
fn valid_token_accepted() {
    let signer = test_signer();
    let ts = now_ms();
    let token = sign(&signer, "player-1", "zone-a", "zone-b", bits([10.0, 0.0, 20.0]), bits([1.0, 0.0, -1.0]), vec![], ts);
    assert!(signer.validate_at(&token, &payload_of(&token), &zone("zone-b"), ts + 100).is_ok());
}

#[test]
fn tampered_token_rejected() {
    let signer = test_signer();
    let ts = now_ms();
    let mut token = sign(&signer, "player-1", "zone-a", "zone-b", bits([10.0, 0.0, 20.0]), bits([0.0; 3]), vec![], ts);
    token.position_bits = bits([999.0, 0.0, 0.0]);
    assert_eq!(signer.validate_at(&token, &payload_of(&token), &zone("zone-b"), ts + 100), Err(TransferError::InvalidHmac));
}

#[test]
fn wrong_secret_rejected() {
    let signer = test_signer();
    let other = TokenSigner::new(b"different-secret-key-xxxxxxxxxx!", 10_000);
    let ts = now_ms();
    let token = sign(&signer, "player-1", "zone-a", "zone-b", bits([0.0; 3]), bits([0.0; 3]), vec![], ts);
    assert_eq!(other.validate_at(&token, &payload_of(&token), &zone("zone-b"), ts + 100), Err(TransferError::InvalidHmac));
}

#[test]
fn hmac_verified_before_zone_check() {
    let signer = test_signer();
    let other = TokenSigner::new(b"attacker-key-xxxxxxxxxxxxxxxx!", 10_000);
    let ts = now_ms();
    let token = sign(&other, "player-1", "zone-a", "zone-wrong", bits([0.0; 3]), bits([0.0; 3]), vec![], ts);
    assert_eq!(signer.validate_at(&token, &payload_of(&token), &zone("zone-b"), ts + 100), Err(TransferError::InvalidHmac));
}

#[test]
fn expired_token_rejected() {
    let signer = test_signer();
    let ts = 1_000_000;
    let token = sign(&signer, "player-1", "zone-a", "zone-b", bits([0.0; 3]), bits([0.0; 3]), vec![], ts);
    assert_eq!(
        signer.validate_at(&token, &payload_of(&token), &zone("zone-b"), ts + 10_001),
        Err(TransferError::TokenExpired)
    );
}

#[test]
fn token_valid_at_ttl_boundary() {
    let signer = test_signer();
    let ts = 1_000_000;
    let token = sign(&signer, "player-1", "zone-a", "zone-b", bits([0.0; 3]), bits([0.0; 3]), vec![], ts);
    assert!(signer.validate_at(&token, &payload_of(&token), &zone("zone-b"), ts + 10_000).is_ok());
    assert!(signer.validate_at(&token, &payload_of(&token), &zone("zone-b"), ts + 10_001).is_err());
}

#[test]
fn zone_mismatch_rejected() {
    let signer = test_signer();
    let ts = now_ms();
    let token = sign(&signer, "player-1", "zone-a", "zone-b", bits([0.0; 3]), bits([0.0; 3]), vec![], ts);
    assert_eq!(signer.validate_at(&token, &payload_of(&token), &zone("zone-c"), ts + 100), Err(TransferError::ZoneMismatch));
}

#[test]
fn oversized_token_rejected() {
    assert!(!token_size_allowed(MAX_TOKEN_BYTES + 1));
    assert!(token_size_allowed(MAX_TOKEN_BYTES));
}

#[test]
fn signature_covers_the_bitcode_payload() {
    let signer = test_signer();
    let ts = 1_000_000;
    let token = sign(&signer, "player-42", "zone-a", "zone-b", bits([100.5, 0.0, -50.25]), bits([3.0, 0.0, -1.5]),
        vec![BuffState { buff_id: "speed_boost".into(), remaining_ms: 5000, data: vec![1, 2, 3] }], ts);
    assert!(signer.validate_at(&token, &payload_of(&token), &zone("zone-b"), ts + 100).is_ok());
    // Any other encoding of the same fields is not what was signed.
    let mut other = payload_of(&token);
    other.push(0);
    assert_eq!(signer.validate_at(&token, &other, &zone("zone-b"), ts + 100), Err(TransferError::InvalidHmac));
}

#[test]
fn prepare_marks_transferring_and_acknowledge_clears() {
    let mut mgr = ZoneTransferManager::new(test_config());
    assert!(!mgr.is_transferring("player-1"));
    prepare(&mut mgr, "player-1", "zone-a", "zone-b", bits([0.0; 3]), bits([0.0; 3]), vec![])
        .unwrap();
    assert!(mgr.is_transferring("player-1"));
    assert_eq!(mgr.in_flight_count(), 1);
    mgr.acknowledge_transfer("player-1").unwrap();
    assert!(!mgr.is_transferring("player-1"));
    assert_eq!(mgr.in_flight_count(), 0);
}

#[test]
fn acknowledge_unknown_player_fails() {
    let mut mgr = ZoneTransferManager::new(test_config());
    assert_eq!(
        mgr.acknowledge_transfer("nobody"),
        Err(TransferError::PlayerNotTransferring { player_id: "nobody".into() })
    );
}

#[test]
fn state_preserved_through_transfer() {
    let mut mgr = ZoneTransferManager::new(test_config());
    let pos = bits([42.0, 10.0, -7.5]);
    let vel = bits([1.0, 0.0, -0.5]);
    let buffs = vec![
        BuffState { buff_id: "shield".into(), remaining_ms: 3000, data: vec![10, 20] },
        BuffState { buff_id: "haste".into(), remaining_ms: 8000, data: vec![] },
    ];
    let token = prepare(&mut mgr, "player-1", "zone-a", "zone-b", pos, vel, buffs.clone())
        .unwrap();
    let ts = token.timestamp;
    let transferred = mgr.accept_transfer_at(&token, &payload_of(&token), &zone("zone-b"), ts + 100, &[]).unwrap();
    assert_eq!(transferred.player_id, "player-1");
    assert_eq!(transferred.source_zone, zone("zone-a"));
    assert_eq!(transferred.position_bits, pos);
    assert_eq!(transferred.velocity_bits, vel);
    assert_eq!(transferred.buffs, buffs);
}

#[test]
fn duplicate_token_rejected() {
    let mut mgr = ZoneTransferManager::new(test_config());
    let token = prepare(&mut mgr, "player-1", "zone-a", "zone-b", bits([0.0; 3]), bits([0.0; 3]), vec![])
        .unwrap();
    let ts = token.timestamp;
    assert!(mgr.accept_transfer_at(&token, &payload_of(&token), &zone("zone-b"), ts + 100, &[]).is_ok());
    assert_eq!(
        mgr.accept_transfer_at(&token, &payload_of(&token), &zone("zone-b"), ts + 200, &[]),
        Err(TransferError::DuplicateToken { player_id: "player-1".into() })
    );
}

#[test]
fn duplicate_token_rejected_from_shared_store() {
    let mut first = ZoneTransferManager::new(test_config());
    let token = prepare(&mut first, "player-1", "zone-a", "zone-b", bits([0.0; 3]), bits([0.0; 3]), vec![])
        .unwrap();
    let ts = token.timestamp;
    first.accept_transfer_at(&token, &payload_of(&token), &zone("zone-b"), ts + 100, &[]).unwrap();
    let store = dedup_record(&token.hmac, first.dedup_expiry(ts + 100));
    assert!(persisted_contains(&store, &token.hmac, ts + 200));
    assert_eq!(parse_dedup_records(&store), vec![(token.hmac, ts + 100 + 30_000)]);

    // A restarted manager with an empty memory still refuses the replay.
    let mut restarted = ZoneTransferManager::new(test_config());
    assert_eq!(
        restarted.accept_transfer_at(&token, &payload_of(&token), &zone("zone-b"), ts + 200, &store),
        Err(TransferError::DuplicateToken { player_id: "player-1".into() })
    );
}

#[test]
fn rapid_re_transfer_allowed() {
    let mut mgr = ZoneTransferManager::new(test_config());
    let t1 = prepare(&mut mgr, "player-1", "zone-a", "zone-b", bits([1.0, 0.0, 0.0]), bits([0.0; 3]), vec![])
        .unwrap();
    let ts = t1.timestamp;
    mgr.accept_transfer_at(&t1, &payload_of(&t1), &zone("zone-b"), ts + 50, &[]).unwrap();
    mgr.acknowledge_transfer("player-1").unwrap();

    let t2 = prepare(&mut mgr, "player-1", "zone-b", "zone-c", bits([2.0, 0.0, 0.0]), bits([0.0; 3]), vec![])
        .unwrap();
    let ts = t2.timestamp;
    let p = mgr.accept_transfer_at(&t2, &payload_of(&t2), &zone("zone-c"), ts + 50, &[]).unwrap();
    assert_eq!(p.position_bits, bits([2.0, 0.0, 0.0]));
}

#[test]
fn dedup_purge_clears_expired() {
    let mut config = test_config();
    config.dedup_retention_ms = 10_000;
    let mut mgr = ZoneTransferManager::new(config);
    let token = prepare(&mut mgr, "player-1", "zone-a", "zone-b", bits([0.0; 3]), bits([0.0; 3]), vec![])
        .unwrap();
    let ts = token.timestamp;
    mgr.accept_transfer_at(&token, &payload_of(&token), &zone("zone-b"), ts + 100, &[]).unwrap();
    assert_eq!(mgr.dedup_count(), 1);

    mgr.purge_expired_dedup_at(ts + 100 + 11_000);
    assert_eq!(mgr.dedup_count(), 0);
}

#[test]
fn timeout_rolls_back_transfer() {
    let mut config = test_config();
    config.ack_timeout_ms = 5_000;
    let mut mgr = ZoneTransferManager::new(config);
    let t0 = 1_000_000;
    prepare_at(&mut mgr, "player-1", "zone-a", "zone-b", bits([0.0; 3]), bits([0.0; 3]), vec![], t0)
        .unwrap();

    assert!(mgr.check_timeouts_at(t0).is_empty());
    assert!(mgr.is_transferring("player-1"));

    let rolled_back = mgr.check_timeouts_at(t0 + 6_000);
    assert_eq!(rolled_back, vec!["player-1"]);
    assert!(!mgr.is_transferring("player-1"));
}

#[test]
fn manual_rollback() {
    let mut mgr = ZoneTransferManager::new(test_config());
    prepare(&mut mgr, "player-1", "zone-a", "zone-b", bits([0.0; 3]), bits([0.0; 3]), vec![])
        .unwrap();
    mgr.rollback_transfer("player-1").unwrap();
    assert!(!mgr.is_transferring("player-1"));
}

#[test]
fn concurrent_transfers_independent() {
    let mut mgr = ZoneTransferManager::new(test_config());
    let t1 = prepare(&mut mgr, "player-1", "zone-a", "zone-b", bits([1.0, 0.0, 0.0]), bits([0.0; 3]), vec![])
        .unwrap();
    let t2 = prepare(&mut mgr, "player-2", "zone-a", "zone-c", bits([2.0, 0.0, 0.0]), bits([0.0; 3]), vec![])
        .unwrap();
    assert_eq!(mgr.in_flight_count(), 2);

    let ts = t2.timestamp;
    let p2 = mgr.accept_transfer_at(&t2, &payload_of(&t2), &zone("zone-c"), ts + 100, &[]).unwrap();
    assert_eq!(p2.position_bits, bits([2.0, 0.0, 0.0]));

    mgr.acknowledge_transfer("player-2").unwrap();
    assert_eq!(mgr.in_flight_count(), 1);
    assert!(mgr.is_transferring("player-1"));

    let ts = t1.timestamp;
    let p1 = mgr.accept_transfer_at(&t1, &payload_of(&t1), &zone("zone-b"), ts + 200, &[]).unwrap();
    assert_eq!(p1.position_bits, bits([1.0, 0.0, 0.0]));
}

#[test]
fn in_flight_capacity_enforced() {
    let mut config = test_config();
    config.max_in_flight = 2;
    let mut mgr = ZoneTransferManager::new(config);
    prepare(&mut mgr, "p1", "a", "b", bits([0.0; 3]), bits([0.0; 3]), vec![]).unwrap();
    prepare(&mut mgr, "p2", "a", "b", bits([0.0; 3]), bits([0.0; 3]), vec![]).unwrap();
    let result = prepare(&mut mgr, "p3", "a", "b", bits([0.0; 3]), bits([0.0; 3]), vec![]);
    assert_eq!(result, Err(TransferError::AtCapacity));
}

#[test]
fn player_id_too_long_rejected() {
    let mut mgr = ZoneTransferManager::new(test_config());
    let long_id = "x".repeat(MAX_PLAYER_ID_LEN + 1);
    let result = prepare(&mut mgr, &long_id, "zone-a", "zone-b", bits([0.0; 3]), bits([0.0; 3]), vec![]);
    assert_eq!(result, Err(TransferError::InvalidPlayerId));
}

#[test]
fn transfer_error_text() {
    assert_eq!(TransferError::InvalidHmac.to_string(), "transfer token signature invalid");
    assert_eq!(TransferError::AtCapacity.to_string(), "transfer capacity exceeded");
}
