use quanta_realtime_server::session_routing::{auto_register_island, close_steps, CloseStep};
use quanta_realtime_server::types::IslandId;

#[test]
fn sessions_are_registered_only_with_fanout_and_default_island() {
    let island = Some(IslandId::from("lobby"));
    assert_eq!(auto_register_island(true, &island).map(|i| i.as_str().to_string()), Some("lobby".to_string()));
    assert!(auto_register_island(false, &island).is_none());
    assert!(auto_register_island(true, &None).is_none());
}

#[test]
fn closed_session_is_deregistered_before_disconnect() {
    let steps = close_steps(&Some(IslandId::from("lobby")), 7);
    assert_eq!(steps.len(), 2);
    assert!(matches!(&steps[0], CloseStep::Deregister { island_id, session_id: 7 } if island_id.as_str() == "lobby"));
    assert!(matches!(steps[1], CloseStep::Disconnected { session_id: 7 }));
    let steps = close_steps(&None, 8);
    assert_eq!(steps.len(), 1);
    assert!(matches!(steps[0], CloseStep::Disconnected { session_id: 8 }));
}
