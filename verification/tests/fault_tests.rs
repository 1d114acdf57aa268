use quanta_realtime_server::tick::fault::{ActorHealthState, FaultTracker, TrapResponse};
use quanta_realtime_server::types::EntitySlot;


fn slot(n: u32) -> EntitySlot {
    EntitySlot(n)
}

#[test]
fn healthy_by_default() {
    let ft = FaultTracker::new();
    assert_eq!(ft.get_state(&slot(1)), ActorHealthState::Healthy);
    assert!(ft.should_tick(&slot(1), 0));
}

#[test]
fn first_fault_skip_quarantine_1() {
    let mut ft = FaultTracker::new();
    let resp = ft.record_fault(&slot(1), 10);
    assert_eq!(resp, TrapResponse::Skip);
    assert_eq!(
        ft.get_state(&slot(1)),
        ActorHealthState::Quarantined {
            consecutive_faults: 1,
            resume_at_tick: 11,
        }
    );
    assert!(!ft.should_tick(&slot(1), 10));
    assert!(ft.should_tick(&slot(1), 11));
}

#[test]
fn second_fault_skip_quarantine_2() {
    let mut ft = FaultTracker::new();
    ft.record_fault(&slot(1), 0);
    let resp = ft.record_fault(&slot(1), 1);
    assert_eq!(resp, TrapResponse::Skip);
    assert_eq!(
        ft.get_state(&slot(1)),
        ActorHealthState::Quarantined {
            consecutive_faults: 2,
            resume_at_tick: 3,
        }
    );
    assert!(!ft.should_tick(&slot(1), 2));
    assert!(ft.should_tick(&slot(1), 3));
}

#[test]
fn third_fault_reset_quarantine_4() {
    let mut ft = FaultTracker::new();
    ft.record_fault(&slot(1), 0);
    ft.record_fault(&slot(1), 1);
    let resp = ft.record_fault(&slot(1), 3);
    assert_eq!(resp, TrapResponse::Reset);
    assert_eq!(
        ft.get_state(&slot(1)),
        ActorHealthState::Quarantined {
            consecutive_faults: 3,
            resume_at_tick: 7,
        }
    );
    assert!(!ft.should_tick(&slot(1), 6));
    assert!(ft.should_tick(&slot(1), 7));
}

#[test]
fn fourth_fault_skip_quarantine_8() {
    let mut ft = FaultTracker::new();
    for i in 0..3 {
        ft.record_fault(&slot(1), i);
    }
    let resp = ft.record_fault(&slot(1), 10);
    assert_eq!(resp, TrapResponse::Skip);
    assert_eq!(
        ft.get_state(&slot(1)),
        ActorHealthState::Quarantined {
            consecutive_faults: 4,
            resume_at_tick: 18,
        }
    );
}

#[test]
fn fifth_fault_recreates_quarantine_16() {
    let mut ft = FaultTracker::new();
    for i in 0..4 {
        ft.record_fault(&slot(1), i);
    }
    let resp = ft.record_fault(&slot(1), 20);
    assert_eq!(resp, TrapResponse::Recreate);
    assert_eq!(
        ft.get_state(&slot(1)),
        ActorHealthState::Quarantined {
            consecutive_faults: 5,
            resume_at_tick: 36,
        }
    );
    assert!(!ft.should_tick(&slot(1), 35));
    assert!(ft.should_tick(&slot(1), 36));
}

#[test]
fn six_faults_evicts() {
    let mut ft = FaultTracker::new();
    for i in 0..5 {
        ft.record_fault(&slot(1), i);
    }
    let resp = ft.record_fault(&slot(1), 50);
    assert_eq!(resp, TrapResponse::Evict);
    assert_eq!(ft.get_state(&slot(1)), ActorHealthState::Evicted);
    assert!(!ft.should_tick(&slot(1), u64::MAX - 1));
}

#[test]
fn evicted_stays_evicted() {
    let mut ft = FaultTracker::new();
    for i in 0..10 {
        ft.record_fault(&slot(1), i);
    }
    assert_eq!(ft.get_state(&slot(1)), ActorHealthState::Evicted);
    ft.record_success(&slot(1));
    assert_eq!(ft.get_state(&slot(1)), ActorHealthState::Evicted);
}

#[test]
fn success_decrements_toward_healthy() {
    let mut ft = FaultTracker::new();
    ft.record_fault(&slot(1), 0);
    ft.record_fault(&slot(1), 1);
    // 2 consecutive faults, now succeed
    for _ in 0..99 {
        ft.record_success(&slot(1));
    }
    // Not yet reset (99 < 100)
    assert!(matches!(
        ft.get_state(&slot(1)),
        ActorHealthState::Quarantined { .. }
    ));

    ft.record_success(&slot(1)); // 100th clean tick
    assert_eq!(ft.get_state(&slot(1)), ActorHealthState::Healthy);
}

#[test]
fn fault_resets_clean_tick_counter() {
    let mut ft = FaultTracker::new();
    ft.record_fault(&slot(1), 0);
    // Accumulate 50 clean ticks
    for _ in 0..50 {
        ft.record_success(&slot(1));
    }
    // Fault again resets clean counter
    ft.record_fault(&slot(1), 100);
    // Now need another 100 clean ticks
    for _ in 0..99 {
        ft.record_success(&slot(1));
    }
    assert!(matches!(
        ft.get_state(&slot(1)),
        ActorHealthState::Quarantined { .. }
    ));
    ft.record_success(&slot(1));
    assert_eq!(ft.get_state(&slot(1)), ActorHealthState::Healthy);
}

#[test]
fn multiple_entities_independent() {
    let mut ft = FaultTracker::new();
    ft.record_fault(&slot(1), 0);
    ft.record_fault(&slot(2), 0);
    ft.record_fault(&slot(2), 1);

    assert_eq!(
        ft.get_state(&slot(1)),
        ActorHealthState::Quarantined {
            consecutive_faults: 1,
            resume_at_tick: 1,
        }
    );
    assert_eq!(
        ft.get_state(&slot(2)),
        ActorHealthState::Quarantined {
            consecutive_faults: 2,
            resume_at_tick: 3,
        }
    );
}

#[test]
fn remove_entity_clears_tracking() {
    let mut ft = FaultTracker::new();
    ft.record_fault(&slot(1), 0);
    ft.remove_entity(&slot(1));
    assert_eq!(ft.get_state(&slot(1)), ActorHealthState::Healthy);
}
