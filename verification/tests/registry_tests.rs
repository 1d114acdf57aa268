use quanta_realtime_server::island::handle::{IslandHandle, ThreadModel};
use quanta_realtime_server::island::registry::IslandRegistry;
use quanta_realtime_server::island::state_machine::IslandState;
use quanta_realtime_server::types::{IslandId, IslandManifest};

fn make_handle(id: &str, entity_count: u32, state: IslandState) -> IslandHandle {
    IslandHandle {
        island_id: IslandId::from(id),
        state,
        thread_model: ThreadModel::Pooled,
        entity_count,
        manifest: IslandManifest {
            island_id: IslandId::from(id),
            entity_count,
            wasm_module: "test.wasm".into(),
            initial_state: vec![],
        },
        player_count: 0,
        passivation_deadline_ms: None,
        passivate_when_empty: false,
    }
}

#[test]
fn insert_and_get() {
    let mut reg = IslandRegistry::new();
    reg.insert(make_handle("a", 10, IslandState::Running));
    assert!(reg.get(&IslandId::from("a")).is_some());
    assert!(reg.contains(&IslandId::from("a")));
}

#[test]
fn remove() {
    let mut reg = IslandRegistry::new();
    reg.insert(make_handle("a", 10, IslandState::Running));
    let h = reg.remove(&IslandId::from("a"));
    assert!(h.is_some());
    assert!(!reg.contains(&IslandId::from("a")));
}

#[test]
fn total_entities() {
    let mut reg = IslandRegistry::new();
    reg.insert(make_handle("a", 10, IslandState::Running));
    reg.insert(make_handle("b", 20, IslandState::Initializing));
    assert_eq!(reg.total_entities(), 30);
}

#[test]
fn active_count_excludes_stopped() {
    let mut reg = IslandRegistry::new();
    reg.insert(make_handle("a", 10, IslandState::Running));
    reg.insert(make_handle("b", 20, IslandState::Stopped));
    reg.insert(make_handle("c", 5, IslandState::Initializing));
    assert_eq!(reg.active_count(), 2);
}

#[test]
fn len_and_is_empty() {
    let mut reg = IslandRegistry::new();
    assert!(reg.is_empty());
    assert_eq!(reg.len(), 0);
    reg.insert(make_handle("a", 1, IslandState::Running));
    assert!(!reg.is_empty());
    assert_eq!(reg.len(), 1);
}

#[test]
fn insert_same_island_replaces_handle() {
    let mut reg = IslandRegistry::new();
    reg.insert(make_handle("a", 10, IslandState::Running));
    reg.insert(make_handle("a", 7, IslandState::Draining));
    assert_eq!(reg.len(), 1);
    assert_eq!(reg.total_entities(), 7);
    assert_eq!(reg.get(&IslandId::from("a")).unwrap().state, IslandState::Draining);
}

#[test]
fn passivation_deadlines_come_due() {
    let mut reg = IslandRegistry::new();
    let mut a = make_handle("a", 1, IslandState::Running);
    a.passivation_deadline_ms = Some(100);
    let mut b = make_handle("b", 1, IslandState::Running);
    b.passivation_deadline_ms = Some(300);
    reg.insert(a);
    reg.insert(b);
    reg.insert(make_handle("c", 1, IslandState::Running));
    let due = reg.due_for_passivation(200);
    assert_eq!(due.len(), 1);
    assert_eq!(due[0], IslandId::from("a"));
    assert!(reg.due_for_passivation(50).is_empty());
    assert_eq!(reg.due_for_passivation(300).len(), 2);
}
