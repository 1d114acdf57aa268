use quanta_realtime_server::tick::timer::TimerManager;
use quanta_realtime_server::types::EntitySlot;


fn slot(n: u32) -> EntitySlot {
    EntitySlot(n)
}

#[test]
fn set_and_fire_timer() {
    let mut tm = TimerManager::new(20); // 50ms per tick
    tm.set_current_tick(0);
    tm.set_timer(slot(1), "attack".into(), 100); // 100ms = 2 ticks at 20Hz

    assert_eq!(tm.fire_elapsed(0), vec![]); // tick 0: not yet
    assert_eq!(tm.fire_elapsed(1), vec![]); // tick 1: not yet
    let fired = tm.fire_elapsed(2); // tick 2: fires
    assert_eq!(fired.len(), 1);
    assert_eq!(fired[0], (slot(1), "attack".to_string()));
}

#[test]
fn timer_fires_exactly_on_target_tick() {
    let mut tm = TimerManager::new(20);
    tm.set_current_tick(5);
    tm.set_timer(slot(1), "t".into(), 50); // 50ms = 1 tick at 20Hz

    assert!(tm.fire_elapsed(5).is_empty()); // set on tick 5, fires on tick 6
    let fired = tm.fire_elapsed(6);
    assert_eq!(fired.len(), 1);
}

#[test]
fn minimum_delay_is_one_tick() {
    let mut tm = TimerManager::new(20);
    tm.set_current_tick(10);
    tm.set_timer(slot(1), "t".into(), 0); // 0ms → still 1 tick minimum

    assert!(tm.fire_elapsed(10).is_empty());
    assert_eq!(tm.fire_elapsed(11).len(), 1);
}

#[test]
fn cancel_timer() {
    let mut tm = TimerManager::new(20);
    tm.set_current_tick(0);
    tm.set_timer(slot(1), "heal".into(), 100);

    assert!(tm.cancel_timer(&slot(1), "heal"));
    assert!(tm.fire_elapsed(100).is_empty()); // cancelled, never fires
}

#[test]
fn cancel_nonexistent_returns_false() {
    let mut tm = TimerManager::new(20);
    assert!(!tm.cancel_timer(&slot(1), "nope"));
}

#[test]
fn overwrite_timer_with_same_name() {
    let mut tm = TimerManager::new(20);
    tm.set_current_tick(0);
    tm.set_timer(slot(1), "t".into(), 50); // fires tick 1
    tm.set_timer(slot(1), "t".into(), 150); // overwrites → fires tick 3

    assert!(tm.fire_elapsed(1).is_empty());
    assert!(tm.fire_elapsed(2).is_empty());
    assert_eq!(tm.fire_elapsed(3).len(), 1);
}

#[test]
fn clear_entity_removes_all_timers() {
    let mut tm = TimerManager::new(20);
    tm.set_current_tick(0);
    tm.set_timer(slot(1), "a".into(), 50);
    tm.set_timer(slot(1), "b".into(), 100);
    tm.set_timer(slot(2), "a".into(), 50);

    tm.clear_entity(&slot(1));
    assert_eq!(tm.timer_count(), 1); // only slot(2)'s timer remains
}

#[test]
fn multiple_timers_fire_same_tick() {
    let mut tm = TimerManager::new(20);
    tm.set_current_tick(0);
    tm.set_timer(slot(1), "a".into(), 100);
    tm.set_timer(slot(2), "b".into(), 100);

    let fired = tm.fire_elapsed(2);
    assert_eq!(fired.len(), 2);
}

#[test]
fn late_fire_catches_up() {
    let mut tm = TimerManager::new(20);
    tm.set_current_tick(0);
    tm.set_timer(slot(1), "t".into(), 50); // fires tick 1

    // Skipped tick 1, now at tick 5 — timer should still fire
    let fired = tm.fire_elapsed(5);
    assert_eq!(fired.len(), 1);
}
