use quanta_realtime_server::degraded::{DegradationController, DegradationLevel};
use quanta_realtime_server::error::{EndpointError, SendError};
use quanta_realtime_server::island::state_machine::{IslandState, TransitionError};
use quanta_realtime_server::stubs::StubIslandRuntime;
use quanta_realtime_server::sync::SyncError;
use quanta_realtime_server::traits::IslandRuntime;
use quanta_realtime_server::types::{IslandId, IslandManifest};
use quanta_realtime_server::zone_transfer::TransferError;

#[test]
fn starts_normal() {
    let ctrl = DegradationController::new();
    assert_eq!(ctrl.current_level(), DegradationLevel::Normal);
    assert!(!ctrl.should_reject_activations());
    assert!(!ctrl.should_skip_cosmetics());
    assert!(!ctrl.should_skip_tier3());
}

// CPU samples of 0.90 map to Stressed, 0.75 to Elevated, 0.96 to Critical and 0.50
// to Normal; the controller is fed the level each sample maps to.

#[test]
fn single_spike_no_transition() {
    let mut ctrl = DegradationController::new();
    assert_eq!(ctrl.record_level_sample(DegradationLevel::Stressed), None);
    assert_eq!(ctrl.current_level(), DegradationLevel::Normal);
}

#[test]
fn two_spikes_no_transition() {
    let mut ctrl = DegradationController::new();
    ctrl.record_level_sample(DegradationLevel::Stressed);
    assert_eq!(ctrl.record_level_sample(DegradationLevel::Stressed), None);
    assert_eq!(ctrl.current_level(), DegradationLevel::Normal);
}

#[test]
fn three_consecutive_transitions() {
    let mut ctrl = DegradationController::new();
    ctrl.record_level_sample(DegradationLevel::Stressed);
    ctrl.record_level_sample(DegradationLevel::Stressed);
    let result = ctrl.record_level_sample(DegradationLevel::Stressed);
    assert_eq!(result, Some(DegradationLevel::Stressed));
    assert_eq!(ctrl.current_level(), DegradationLevel::Stressed);
}

#[test]
fn interrupted_spike_resets_debounce() {
    let mut ctrl = DegradationController::new();
    ctrl.record_level_sample(DegradationLevel::Stressed);
    ctrl.record_level_sample(DegradationLevel::Stressed);
    ctrl.record_level_sample(DegradationLevel::Normal);
    ctrl.record_level_sample(DegradationLevel::Stressed);
    assert_eq!(ctrl.record_level_sample(DegradationLevel::Stressed), None);
    assert_eq!(ctrl.current_level(), DegradationLevel::Normal);
}

#[test]
fn normal_to_elevated() {
    let mut ctrl = DegradationController::new();
    ctrl.record_level_sample(DegradationLevel::Elevated);
    ctrl.record_level_sample(DegradationLevel::Elevated);
    let result = ctrl.record_level_sample(DegradationLevel::Elevated);
    assert_eq!(result, Some(DegradationLevel::Elevated));
    assert!(ctrl.should_skip_cosmetics());
    assert!(!ctrl.should_skip_tier3());
    assert!(!ctrl.should_reject_activations());
}

#[test]
fn normal_to_critical() {
    let mut ctrl = DegradationController::new();
    ctrl.record_level_sample(DegradationLevel::Critical);
    ctrl.record_level_sample(DegradationLevel::Critical);
    let result = ctrl.record_level_sample(DegradationLevel::Critical);
    assert_eq!(result, Some(DegradationLevel::Critical));
    assert!(ctrl.should_reject_activations());
    assert!(ctrl.should_skip_cosmetics());
    assert!(ctrl.should_skip_tier3());
}

#[test]
fn stressed_back_to_normal() {
    let mut ctrl = DegradationController::new();
    ctrl.record_level_sample(DegradationLevel::Stressed);
    ctrl.record_level_sample(DegradationLevel::Stressed);
    ctrl.record_level_sample(DegradationLevel::Stressed);
    assert_eq!(ctrl.current_level(), DegradationLevel::Stressed);

    ctrl.record_level_sample(DegradationLevel::Normal);
    ctrl.record_level_sample(DegradationLevel::Normal);
    let result = ctrl.record_level_sample(DegradationLevel::Normal);
    assert_eq!(result, Some(DegradationLevel::Normal));
}

#[test]
fn same_level_after_transition_no_repeat() {
    let mut ctrl = DegradationController::new();
    ctrl.record_level_sample(DegradationLevel::Elevated);
    ctrl.record_level_sample(DegradationLevel::Elevated);
    ctrl.record_level_sample(DegradationLevel::Elevated);
    assert_eq!(ctrl.record_level_sample(DegradationLevel::Elevated), None);
    assert_eq!(ctrl.record_level_sample(DegradationLevel::Elevated), None);
}

#[test]
fn level_names() {
    assert_eq!(DegradationLevel::Normal.to_string(), "Normal");
    assert_eq!(DegradationLevel::Critical.to_string(), "Critical");
}

#[test]
fn endpoint_error_display() {
    let err = EndpointError::Tls("bad cert".into());
    assert_eq!(err.to_string(), "TLS error: bad cert");

    let err = EndpointError::Auth("forbidden".into());
    assert_eq!(err.to_string(), "auth error: forbidden");
}

#[test]
fn endpoint_error_display_wraps_inner_errors() {
    let err = EndpointError::Send(SendError::StreamClosed);
    assert_eq!(err.to_string(), "send error: stream closed");
    let err = EndpointError::Sync(SyncError::Timeout);
    assert_eq!(err.to_string(), "sync error: sync timed out");
    let err = EndpointError::ZoneTransfer(TransferError::TokenExpired);
    assert_eq!(err.to_string(), "zone transfer error: transfer token expired");
    let err = EndpointError::Bind(std::io::Error::new(std::io::ErrorKind::Other, "in use"));
    assert_eq!(err.to_string(), "bind error: in use");
}

#[test]
fn send_error_display() {
    let err = SendError::DatagramTooLarge { size: 2000, max: 1200 };
    assert_eq!(err.to_string(), "datagram too large: 2000 bytes, max 1200");

    let err = SendError::ConnectionLost("timeout".into());
    assert_eq!(err.to_string(), "connection lost: timeout");

    let err = SendError::StreamClosed;
    assert_eq!(err.to_string(), "stream closed");
}

#[test]
fn valid_transitions() {
    let cases = [
        (IslandState::Initializing, IslandState::Running),
        (IslandState::Running, IslandState::Draining),
        (IslandState::Draining, IslandState::Stopped),
    ];
    for (from, to) in cases {
        assert_eq!(from.transition(to), Ok(to), "{:?} -> {:?} should succeed", from, to);
    }
}

#[test]
fn all_invalid_transitions_rejected() {
    let (i, r, d, s) = (IslandState::Initializing, IslandState::Running, IslandState::Draining, IslandState::Stopped);
    let invalid = [
        (i, i),
        (i, d),
        (i, s),
        (r, i),
        (r, r),
        (r, s),
        (d, i),
        (d, r),
        (d, d),
        (s, i),
        (s, r),
        (s, d),
        (s, s),
    ];
    for (from, to) in invalid {
        assert!(from.transition(to).is_err(), "{:?} -> {:?} should be invalid", from, to);
    }
}

#[test]
fn transition_error_display() {
    let err = TransitionError { from: IslandState::Running, to: IslandState::Initializing };
    assert_eq!(err.to_string(), "invalid transition: Running -> Initializing");
}

#[test]
fn stub_runtime_tick_increments() {
    let mut rt = StubIslandRuntime::new();
    let manifest = IslandManifest {
        island_id: IslandId::from("test"),
        entity_count: 1,
        wasm_module: "test.wasm".into(),
        initial_state: vec![],
    };
    rt.init(&manifest).unwrap();
    let r1 = rt.tick(&[]).unwrap();
    assert_eq!(r1.tick, 1);
    let r2 = rt.tick(&[]).unwrap();
    assert_eq!(r2.tick, 2);
}

#[test]
fn stub_runtime_snapshot_restore() {
    let mut rt = StubIslandRuntime::new();
    rt.tick(&[]).unwrap();
    rt.tick(&[]).unwrap();
    let snap = rt.snapshot().unwrap();
    assert_eq!(snap.tick, 2);

    let mut rt2 = StubIslandRuntime::new();
    rt2.restore(&snap).unwrap();
    let r = rt2.tick(&[]).unwrap();
    assert_eq!(r.tick, 3);
}

#[test]
fn interrupted_run_does_not_change_the_level() {
    let mut c = DegradationController::new();
    assert_eq!(c.record_level_sample(DegradationLevel::Stressed), None);
    assert_eq!(c.record_level_sample(DegradationLevel::Stressed), None);
    assert_eq!(c.record_level_sample(DegradationLevel::Elevated), None);
    assert_eq!(c.record_level_sample(DegradationLevel::Stressed), None);
    assert_eq!(c.current_level(), DegradationLevel::Normal);
    assert_eq!(c.record_level_sample(DegradationLevel::Stressed), None);
    assert_eq!(c.record_level_sample(DegradationLevel::Stressed), Some(DegradationLevel::Stressed));
    assert_eq!(c.current_level(), DegradationLevel::Stressed);
    assert_eq!(c.record_level_sample(DegradationLevel::Stressed), None);
}
