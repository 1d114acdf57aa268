use quanta_realtime_server::bot::{BotAction, BotBehavior, BotHarness, IdleBot, RandomWalkBot, StressBot};
use quanta_realtime_server::testing::{IncrementWasm, TestHarnessBuilder};
use quanta_realtime_server::types::EntitySlot;

#[test]
fn idle_bots_run_without_errors() {
    let mut harness = TestHarnessBuilder::new().build();
    for i in 0..100 {
        harness.add_entity(EntitySlot(i), vec![0], None);
    }
    let bots: Vec<IdleBot> = (0..100).map(|_| IdleBot).collect();
    let mut bot_harness = BotHarness::new(harness, bots);
    bot_harness.run(60);
    assert_eq!(bot_harness.metrics().ticks_run, 60);
    assert_eq!(bot_harness.metrics().total_inputs, 0);
}

#[test]
fn stress_bot_generates_expected_volume() {
    let mut harness = TestHarnessBuilder::new().build();
    harness.add_entity(EntitySlot(0), vec![0], None);
    let bots = vec![StressBot::new(10, 0)];
    let mut bot_harness = BotHarness::new(harness, bots);
    bot_harness.run(5);
    assert_eq!(bot_harness.metrics().ticks_run, 5);
    assert_eq!(bot_harness.metrics().total_inputs, 50);
}

#[test]
fn random_walk_bot_is_deterministic() {
    let mut results = Vec::new();
    for _ in 0..2 {
        let mut harness = TestHarnessBuilder::new().build_with(IncrementWasm);
        harness.add_entity(EntitySlot(0), vec![0], None);
        let bots = vec![RandomWalkBot::new(42, 0)];
        let mut bot_harness = BotHarness::new(harness, bots);
        bot_harness.run(20);
        let state = bot_harness.harness().get_entity_state(&EntitySlot(0)).unwrap().to_vec();
        results.push(state);
    }
    assert_eq!(results[0], results[1], "same seed → same state");
    assert_eq!(results[0], vec![20]);
}

#[test]
fn sparse_entity_slots_handled_correctly() {
    let mut harness = TestHarnessBuilder::new().build();
    harness.add_entity(EntitySlot(10), vec![0], None);
    harness.add_entity(EntitySlot(50), vec![0], None);
    let bots = vec![IdleBot];
    let mut bot_harness = BotHarness::new(harness, bots);
    bot_harness.run(5);
    assert_eq!(bot_harness.metrics().ticks_run, 5);
}

#[test]
fn random_walk_is_xorshift64() {
    let mut bot = RandomWalkBot::new(1, 7);
    let actions = bot.on_tick(0, &[]);
    let mut s: u64 = 1;
    s ^= s << 13;
    s ^= s >> 7;
    s ^= s << 17;
    match &actions[0] {
        BotAction::SendInput { entity, payload } => {
            assert_eq!(*entity, 7);
            assert_eq!(payload, &s.to_le_bytes().to_vec());
        }
    }
}

#[test]
fn stress_bot_payloads_carry_tick_and_index() {
    let mut bot = StressBot::new(3, 2);
    let actions = bot.on_tick(9, &[]);
    assert_eq!(actions.len(), 3);
    match &actions[2] {
        BotAction::SendInput { entity, payload } => {
            assert_eq!(*entity, 2);
            let mut expected = 9u64.to_le_bytes().to_vec();
            expected.extend_from_slice(&2u32.to_le_bytes());
            assert_eq!(payload, &expected);
        }
    }
}
