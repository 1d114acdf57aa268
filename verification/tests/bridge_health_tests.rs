use quanta_realtime_server::bridge_health::{BridgeHealthState, BridgeHealthTracker};

// Buffer fill levels are given in basis points of the buffer's capacity.


#[test]
fn starts_healthy() {
    let tracker = BridgeHealthTracker::new();
    assert_eq!(tracker.state(), BridgeHealthState::Healthy);
}

#[test]
fn one_missed_heartbeat_degrades() {
    let mut tracker = BridgeHealthTracker::new();
    tracker.record_missed_heartbeat();
    assert_eq!(tracker.state(), BridgeHealthState::Degraded);
}

#[test]
fn three_missed_heartbeats_disconnects() {
    let mut tracker = BridgeHealthTracker::new();
    tracker.record_missed_heartbeat(); // Healthy → Degraded
    tracker.record_missed_heartbeat(); // still Degraded (2)
    assert_eq!(tracker.state(), BridgeHealthState::Degraded);
    tracker.record_missed_heartbeat(); // Degraded → Disconnected (3)
    assert_eq!(tracker.state(), BridgeHealthState::Disconnected);
}

#[test]
fn heartbeat_from_disconnected_goes_to_degraded() {
    let mut tracker = BridgeHealthTracker::new();
    tracker.record_missed_heartbeat();
    tracker.record_missed_heartbeat();
    tracker.record_missed_heartbeat();
    assert_eq!(tracker.state(), BridgeHealthState::Disconnected);

    tracker.record_heartbeat();
    assert_eq!(tracker.state(), BridgeHealthState::Degraded);
}

#[test]
fn three_heartbeats_and_low_buffer_restores_healthy() {
    let mut tracker = BridgeHealthTracker::new();
    tracker.record_missed_heartbeat(); // → Degraded
    assert_eq!(tracker.state(), BridgeHealthState::Degraded);

    tracker.update_buffer_ratio_bp(1000); // buffer low
    tracker.record_heartbeat(); // 1
    tracker.record_heartbeat(); // 2
    assert_eq!(tracker.state(), BridgeHealthState::Degraded); // not yet
    tracker.record_heartbeat(); // 3 → Healthy
    assert_eq!(tracker.state(), BridgeHealthState::Healthy);
}

#[test]
fn three_heartbeats_but_high_buffer_stays_degraded() {
    let mut tracker = BridgeHealthTracker::new();
    tracker.record_missed_heartbeat(); // → Degraded

    tracker.update_buffer_ratio_bp(3000); // buffer >= 25%
    tracker.record_heartbeat();
    tracker.record_heartbeat();
    tracker.record_heartbeat();
    assert_eq!(tracker.state(), BridgeHealthState::Degraded);
}

#[test]
fn buffer_50_degrades_from_healthy() {
    let mut tracker = BridgeHealthTracker::new();
    tracker.update_buffer_ratio_bp(5000);
    assert_eq!(tracker.state(), BridgeHealthState::Degraded);
}

#[test]
fn buffer_100_disconnects_from_degraded() {
    let mut tracker = BridgeHealthTracker::new();
    tracker.record_missed_heartbeat(); // → Degraded
    tracker.update_buffer_ratio_bp(10000);
    assert_eq!(tracker.state(), BridgeHealthState::Disconnected);
}

#[test]
fn recovery_from_disconnected_to_healthy() {
    let mut tracker = BridgeHealthTracker::new();
    // Go to Disconnected
    for _ in 0..3 {
        tracker.record_missed_heartbeat();
    }
    assert_eq!(tracker.state(), BridgeHealthState::Disconnected);

    // Heartbeat → Degraded
    tracker.record_heartbeat();
    assert_eq!(tracker.state(), BridgeHealthState::Degraded);

    // 3 consecutive heartbeats with low buffer → Healthy
    tracker.update_buffer_ratio_bp(1000);
    tracker.record_heartbeat(); // 2nd since recovery (1st was the one that moved to Degraded)
    tracker.record_heartbeat(); // 3rd
    assert_eq!(tracker.state(), BridgeHealthState::Healthy);
}

#[test]
fn healthy_stays_healthy_on_heartbeat() {
    let mut tracker = BridgeHealthTracker::new();
    tracker.record_heartbeat();
    tracker.record_heartbeat();
    assert_eq!(tracker.state(), BridgeHealthState::Healthy);
}

#[test]
fn missed_heartbeats_beyond_3_stay_disconnected() {
    let mut tracker = BridgeHealthTracker::new();
    for _ in 0..10 {
        tracker.record_missed_heartbeat();
    }
    assert_eq!(tracker.state(), BridgeHealthState::Disconnected);
}
