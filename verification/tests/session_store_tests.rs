use quanta_realtime_server::interest::visible_set::VisibleSet;
use quanta_realtime_server::session_store::{classify_reconnect, ReconnectTier, RetainedSession, SessionStore};
use quanta_realtime_server::clock::now_ms;
use quanta_realtime_server::types::EntitySlot;

// Times are milliseconds on one clock; a store keeps sessions for 30 s.
const EXPIRY_MS: u64 = 30_000;

fn make_session(token: u64, now_ms: u64) -> RetainedSession {
    RetainedSession {
        baseline_tick: 100,
        visible_entities: vec![EntitySlot(0), EntitySlot(1)],
        input_seq: 5,
        session_token: token,
        client_capabilities: vec![],
        created_at_ms: now_ms,
    }
}

#[test]
fn insert_and_take() {
    let mut store = SessionStore::new(EXPIRY_MS, 1000);
    store.insert(42, make_session(42, 0));

    let session = store.take_at(42, 0).unwrap();
    assert_eq!(session.session_token, 42);
    assert_eq!(session.baseline_tick, 100);

    assert!(store.take_at(42, 0).is_none());
}

#[test]
fn take_returns_none_after_expiry() {
    let mut store = SessionStore::new(EXPIRY_MS, 1000);
    store.insert(1, make_session(1, 0));
    assert!(store.take_at(1, 31_000).is_none());
    assert!(store.is_empty());
}

#[test]
fn take_at_expiry_boundary_still_succeeds() {
    let mut store = SessionStore::new(EXPIRY_MS, 1000);
    store.insert(1, make_session(1, 0));
    assert!(store.take_at(1, 30_000).is_some());
}

#[test]
fn purge_removes_expired() {
    let mut store = SessionStore::new(EXPIRY_MS, 1000);
    store.insert(1, make_session(1, 0));
    store.insert(2, make_session(2, 0));
    store.insert(3, make_session(3, 0));

    let purged = store.purge_expired_at(31_000);
    assert_eq!(purged, 3);
    assert!(store.is_empty());
}

#[test]
fn purge_keeps_unexpired() {
    let mut store = SessionStore::new(EXPIRY_MS, 1000);
    store.insert(1, make_session(1, 0));
    store.insert(2, make_session(2, 10_000));

    let purged = store.purge_expired_at(31_000);
    assert_eq!(purged, 1);
    assert_eq!(store.len(), 1);
    assert!(store.take_at(2, 31_000).is_some());
}

#[test]
fn lru_eviction_at_capacity() {
    let mut store = SessionStore::new(EXPIRY_MS, 3);
    store.insert(1, make_session(1, 0));
    store.insert(2, make_session(2, 0));
    store.insert(3, make_session(3, 0));

    let evicted = store.insert(4, make_session(4, 0));
    assert_eq!(evicted, Some(1));
    assert_eq!(store.len(), 3);
    assert!(store.take_at(1, 0).is_none());
    assert!(store.take_at(4, 0).is_some());
}

#[test]
fn eviction_at_1001() {
    let mut store = SessionStore::new(EXPIRY_MS, 1000);
    for i in 0..1000 {
        store.insert(i, make_session(i, 0));
    }
    assert_eq!(store.len(), 1000);

    let evicted = store.insert(1000, make_session(1000, 0));
    assert_eq!(evicted, Some(0));
    assert_eq!(store.len(), 1000);
}

#[test]
fn take_nonexistent_returns_none() {
    let mut store = SessionStore::new(EXPIRY_MS, 1000);
    assert!(store.take_at(999, 0).is_none());
}

#[test]
fn insert_duplicate_replaces() {
    let mut store = SessionStore::new(EXPIRY_MS, 1000);
    store.insert(1, RetainedSession {
        baseline_tick: 10,
        visible_entities: vec![],
        input_seq: 1,
        session_token: 1,
        client_capabilities: vec![],
        created_at_ms: 0,
    });
    store.insert(1, RetainedSession {
        baseline_tick: 20,
        visible_entities: vec![],
        input_seq: 2,
        session_token: 1,
        client_capabilities: vec![("codec".into(), "v2".into())],
        created_at_ms: 0,
    });

    assert_eq!(store.len(), 1);
    let session = store.take_at(1, 0).unwrap();
    assert_eq!(session.baseline_tick, 20);
    assert_eq!(session.client_capabilities, vec![("codec".to_string(), "v2".to_string())]);
}

#[test]
fn reconnect_with_matching_token_is_fast() {
    let mut store = SessionStore::new(EXPIRY_MS, 10);
    store.insert(7, make_session(77, 0));
    match classify_reconnect(&mut store, 7, Some(77), 1_000) {
        ReconnectTier::Fast { retained } => assert_eq!(retained.baseline_tick, 100),
        ReconnectTier::Cold => panic!("expected a fast reconnect"),
    }
    assert!(store.is_empty());
}

#[test]
fn reconnect_with_wrong_or_missing_token_is_cold() {
    let mut store = SessionStore::new(EXPIRY_MS, 10);
    store.insert(7, make_session(77, 0));
    assert!(matches!(classify_reconnect(&mut store, 7, Some(78), 0), ReconnectTier::Cold));
    // The retained session was consumed by the attempt.
    assert!(store.is_empty());
    store.insert(7, make_session(77, 0));
    assert!(matches!(classify_reconnect(&mut store, 7, None, 0), ReconnectTier::Cold));
    store.insert(8, make_session(88, 0));
    assert!(matches!(classify_reconnect(&mut store, 8, Some(88), 40_000), ReconnectTier::Cold));
    assert!(matches!(classify_reconnect(&mut store, 9, Some(1), 0), ReconnectTier::Cold));
}

// Visible set: each candidate says whether the entity lies within the subscribe
// radius (100 m) and within the unsubscribe radius (150 m) of the client.

fn at(slot: u32, distance: f32) -> (EntitySlot, bool, bool) {
    (EntitySlot(slot), distance <= 100.0, distance <= 150.0)
}

#[test]
fn entity_within_subscribe_radius_becomes_visible() {
    let mut vs = VisibleSet::new(3);
    let diff = vs.update(&[at(0, 80.0)]);
    assert!(diff.entered.contains(&EntitySlot(0)));
    assert!(vs.visible().contains(&EntitySlot(0)));
}

#[test]
fn entity_beyond_subscribe_radius_not_visible() {
    let mut vs = VisibleSet::new(3);
    let diff = vs.update(&[at(0, 160.0)]);
    assert!(diff.entered.is_empty());
    assert!(!vs.visible().contains(&EntitySlot(0)));
}

#[test]
fn hysteresis_prevents_flicker() {
    let mut vs = VisibleSet::new(3);
    vs.update(&[at(0, 99.0)]);
    assert!(vs.visible().contains(&EntitySlot(0)));
    vs.update(&[at(0, 101.0)]);
    assert!(vs.visible().contains(&EntitySlot(0)));
    vs.update(&[at(0, 99.0)]);
    assert!(vs.visible().contains(&EntitySlot(0)));
}

#[test]
fn leave_repeated_for_n_ticks() {
    let mut vs = VisibleSet::new(3);
    vs.update(&[at(0, 50.0)]);
    for i in 0..3 {
        let diff = vs.update(&[at(0, 200.0)]);
        assert!(diff.left.contains(&EntitySlot(0)), "leave missing on tick {i}");
    }
    let diff = vs.update(&[at(0, 200.0)]);
    assert!(!diff.left.contains(&EntitySlot(0)));
}

#[test]
fn entered_lists_only_new_entities() {
    let mut vs = VisibleSet::new(1);
    vs.update(&[at(0, 10.0)]);
    let diff = vs.update(&[at(0, 10.0), at(1, 20.0), at(1, 20.0)]);
    assert_eq!(diff.entered, vec![EntitySlot(1)]);
    assert!(diff.left.is_empty());
    assert_eq!(vs.visible().len(), 2);
}

#[test]
fn take_and_purge_read_the_clock() {
    let mut store = SessionStore::new(EXPIRY_MS, 1000);
    store.insert(7, make_session(7, now_ms()));
    store.insert(8, make_session(8, 0));
    assert_eq!(store.purge_expired(), 1, "the session made at time 0 is long expired");
    let s = store.take(7).expect("a session made just now is fresh");
    assert_eq!(s.session_token, 7);
    assert!(store.take(7).is_none());
}
