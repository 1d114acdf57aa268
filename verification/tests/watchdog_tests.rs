use std::sync::atomic::{AtomicU64, Ordering};
use std::sync::Arc;
use std::time::Duration;
use quanta_realtime_server::watchdog::{HeartbeatWatchdog, WatchdogStatus};


#[test]
fn alive_when_heartbeat_advances() {
    let hb = Arc::new(AtomicU64::new(0));
    let mut wd = HeartbeatWatchdog::new(hb.clone(), Duration::from_secs(5));

    hb.store(1, Ordering::Relaxed);
    assert_eq!(wd.check(), WatchdogStatus::Alive);

    hb.store(2, Ordering::Relaxed);
    assert_eq!(wd.check(), WatchdogStatus::Alive);
}

#[test]
fn stale_when_heartbeat_unchanged() {
    let hb = Arc::new(AtomicU64::new(0));
    let mut wd = HeartbeatWatchdog::new(hb.clone(), Duration::from_secs(5));

    // Heartbeat doesn't change — should be Stale (not Hung yet)
    let status = wd.check();
    match status {
        WatchdogStatus::Stale { .. } | WatchdogStatus::Alive => {}
        WatchdogStatus::Hung { .. } => panic!("should not be hung immediately"),
    }
}

#[test]
fn hung_after_threshold() {
    let hb = Arc::new(AtomicU64::new(0));
    // Use a very short threshold so we can test it quickly
    let mut wd = HeartbeatWatchdog::new(hb.clone(), Duration::from_millis(10));

    let start = std::time::Instant::now();
    while start.elapsed() < Duration::from_millis(15) {
        std::hint::spin_loop();
    }
    let status = wd.check();
    assert!(
        matches!(status, WatchdogStatus::Hung { .. }),
        "should be hung after threshold, got: {status:?}"
    );
}

#[test]
fn recovery_from_stale() {
    let hb = Arc::new(AtomicU64::new(0));
    let mut wd = HeartbeatWatchdog::new(hb.clone(), Duration::from_secs(5));

    // Check without advancing — Stale
    wd.check();

    // Now advance — should be Alive again
    hb.store(1, Ordering::Relaxed);
    assert_eq!(wd.check(), WatchdogStatus::Alive);
}

#[test]
fn last_heartbeat_tracks_value() {
    let hb = Arc::new(AtomicU64::new(0));
    let mut wd = HeartbeatWatchdog::new(hb.clone(), Duration::from_secs(5));
    assert_eq!(wd.last_heartbeat(), 0);

    hb.store(42, Ordering::Relaxed);
    wd.check();
    assert_eq!(wd.last_heartbeat(), 42);
}

#[test]
fn observe_is_exact_on_given_readings() {
    let hb = Arc::new(AtomicU64::new(0));
    let mut wd = HeartbeatWatchdog::new(hb, Duration::from_secs(5));
    assert_eq!(wd.observe(0, 6_000_000_000), WatchdogStatus::Hung { since: Duration::from_secs(6) });
    assert_eq!(wd.observe(0, 5_000_000_000), WatchdogStatus::Hung { since: Duration::from_secs(5) });
    assert_eq!(wd.observe(0, 4_999_000_000), WatchdogStatus::Stale { since: Duration::from_millis(4_999) });
    assert_eq!(wd.last_heartbeat(), 0);
    assert_eq!(wd.observe(42, 100_000_000_000), WatchdogStatus::Alive);
    assert_eq!(wd.last_heartbeat(), 42);
    // Measured from the reading at which the counter moved.
    assert_eq!(wd.observe(42, 101_000_000_000), WatchdogStatus::Stale { since: Duration::from_secs(1) });
}

#[test]
fn successive_stalled_checks_stay_hung_until_the_counter_moves() {
    let hb = Arc::new(AtomicU64::new(3));
    let mut wd = HeartbeatWatchdog::new(hb, Duration::from_secs(1));
    assert_eq!(wd.observe(3, 500_000_000), WatchdogStatus::Stale { since: Duration::from_millis(500) });
    assert_eq!(wd.observe(3, 1_500_000_000), WatchdogStatus::Hung { since: Duration::from_millis(1_500) });
    assert_eq!(wd.observe(3, 2_500_000_000), WatchdogStatus::Hung { since: Duration::from_millis(2_500) });
    assert_eq!(wd.observe(4, 2_600_000_000), WatchdogStatus::Alive);
    assert_eq!(wd.last_heartbeat(), 4);
}
