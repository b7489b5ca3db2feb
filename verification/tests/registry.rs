use file_relay::dispatcher::{roster_broadcast, Broadcast, BroadcastDispatcher};
use file_relay::event::BroadcastEvent;
use file_relay::frame::{Frame, FrameKind};
use file_relay::ids::ConnectionId;
use file_relay::model::JoinError;
use file_relay::registry::{ConnectionRegistry, Delivery};
use file_relay::username::Username;

fn name(text: &str) -> Username {
    Username::parse(text).unwrap()
}

fn registry_of(ids: &[u32]) -> ConnectionRegistry<String> {
    let mut registry = ConnectionRegistry::new();
    for id in ids {
        assert!(!registry.is_live(ConnectionId(*id)));
        registry.add_connection(ConnectionId(*id), format!("handle-{}", id));
    }
    registry
}

#[test]
fn new_registry_is_empty() {
    let registry: ConnectionRegistry<u8> = ConnectionRegistry::new();
    assert_eq!(registry.connection_ids(), Vec::new());
    assert_eq!(registry.roster(), Vec::new());
    assert!(!registry.is_live(ConnectionId(0)));
    assert!(registry.handle(ConnectionId(0)).is_none());
    assert_eq!(registry.get_list_message(), Frame::text(b"LIST|".to_vec()));
}

#[test]
fn connections_are_kept_in_order_with_their_handles() {
    let registry = registry_of(&[7, 3, 9]);
    assert_eq!(
        registry.connection_ids(),
        vec![ConnectionId(7), ConnectionId(3), ConnectionId(9)]
    );
    assert!(registry.is_live(ConnectionId(3)));
    assert!(!registry.is_live(ConnectionId(4)));
    assert_eq!(registry.handle(ConnectionId(9)), Some(&"handle-9".to_string()));
    assert_eq!(registry.handle(ConnectionId(7)), Some(&"handle-7".to_string()));
    assert_eq!(registry.handle(ConnectionId(8)), None);
    assert_eq!(registry.roster(), Vec::new());
}

#[test]
fn live_identity_is_not_registered_again() {
    let mut registry = registry_of(&[1, 2]);
    assert_eq!(registry.try_add_connection(ConnectionId(2), "other".to_string()), Err("other".to_string()));
    assert_eq!(registry.connection_ids(), vec![ConnectionId(1), ConnectionId(2)]);
    assert_eq!(registry.handle(ConnectionId(2)), Some(&"handle-2".to_string()));
    assert_eq!(registry.try_add_connection(ConnectionId(3), "third".to_string()), Ok(()));
    assert_eq!(
        registry.connection_ids(),
        vec![ConnectionId(1), ConnectionId(2), ConnectionId(3)]
    );
    assert_eq!(registry.handle(ConnectionId(3)), Some(&"third".to_string()));
}

#[test]
fn vetting_refuses_a_live_identity() {
    let registry = registry_of(&[5]);
    assert_eq!(registry.vet_connection_id(5), None);
    assert_eq!(registry.vet_connection_id(6), Some(ConnectionId(6)));
    assert_eq!(ConnectionId(6).value(), 6);
}

#[test]
fn drawn_identity_is_not_live() {
    let mut registry: ConnectionRegistry<u8> = ConnectionRegistry::new();
    let mut drawn = 0;
    for _ in 0..64 {
        if let Some(id) = registry.draw_connection_id() {
            assert!(!registry.is_live(id));
            registry.add_connection(id, 0);
            drawn += 1;
        }
    }
    assert_eq!(registry.connection_ids().len(), drawn);
    assert!(drawn >= 60);
}

#[test]
fn join_records_the_player_and_gives_the_event() {
    let mut registry = registry_of(&[1, 2]);
    let event = registry.add_player(name("alice"), ConnectionId(2));
    assert_eq!(event, Ok(BroadcastEvent::PlayerJoined(name("alice"))));
    assert_eq!(registry.roster(), vec![name("alice")]);
    assert_eq!(registry.owner(&name("alice")), Some(ConnectionId(2)));
    assert_eq!(registry.owner(&name("bob")), None);
    assert_eq!(registry.get_list_message(), Frame::text(b"LIST|alice".to_vec()));
}

#[test]
fn join_of_an_unknown_connection_is_refused() {
    let mut registry = registry_of(&[1]);
    assert_eq!(
        registry.add_player(name("alice"), ConnectionId(2)),
        Err(JoinError::UnknownConnection)
    );
    assert_eq!(registry.roster(), Vec::new());
}

#[test]
fn second_join_of_a_connection_is_refused() {
    let mut registry = registry_of(&[1]);
    assert!(registry.add_player(name("alice"), ConnectionId(1)).is_ok());
    assert_eq!(registry.add_player(name("bob"), ConnectionId(1)), Err(JoinError::AlreadyJoined));
    assert_eq!(registry.add_player(name("alice"), ConnectionId(1)), Err(JoinError::AlreadyJoined));
    assert_eq!(registry.roster(), vec![name("alice")]);
}

#[test]
fn taken_username_is_refused() {
    let mut registry = registry_of(&[1, 2]);
    assert!(registry.add_player(name("alice"), ConnectionId(1)).is_ok());
    assert_eq!(registry.add_player(name("alice"), ConnectionId(2)), Err(JoinError::UsernameTaken));
    assert_eq!(registry.roster(), vec![name("alice")]);
    assert_eq!(registry.owner(&name("alice")), Some(ConnectionId(1)));
    assert_eq!(registry.add_player(name("Alice"), ConnectionId(2)).map(|e| e.is_join()), Ok(true));
}

#[test]
fn either_order_of_two_joins_leaves_one_owner() {
    let mut one = registry_of(&[1, 2]);
    assert!(one.add_player(name("sam"), ConnectionId(1)).is_ok());
    assert!(one.add_player(name("sam"), ConnectionId(2)).is_err());
    assert_eq!(one.owner(&name("sam")), Some(ConnectionId(1)));
    assert_eq!(one.roster(), vec![name("sam")]);

    let mut other = registry_of(&[1, 2]);
    assert!(other.add_player(name("sam"), ConnectionId(2)).is_ok());
    assert!(other.add_player(name("sam"), ConnectionId(1)).is_err());
    assert_eq!(other.owner(&name("sam")), Some(ConnectionId(2)));
    assert_eq!(other.roster(), vec![name("sam")]);
}

#[test]
fn leave_removes_connection_and_player() {
    let mut registry = registry_of(&[1, 2, 3]);
    assert!(registry.add_player(name("alice"), ConnectionId(1)).is_ok());
    assert!(registry.add_player(name("bob"), ConnectionId(2)).is_ok());
    assert!(registry.add_player(name("carol"), ConnectionId(3)).is_ok());
    let event = registry.remove_player(ConnectionId(2));
    assert_eq!(event, Some(BroadcastEvent::PlayerLeft(name("bob"))));
    assert_eq!(registry.connection_ids(), vec![ConnectionId(1), ConnectionId(3)]);
    assert_eq!(registry.roster(), vec![name("alice"), name("carol")]);
    assert_eq!(registry.owner(&name("bob")), None);
    assert_eq!(registry.handle(ConnectionId(2)), None);
    assert_eq!(registry.handle(ConnectionId(3)), Some(&"handle-3".to_string()));
    assert_eq!(registry.owner(&name("carol")), Some(ConnectionId(3)));
}

#[test]
fn leave_before_join_removes_the_connection_only() {
    let mut registry = registry_of(&[1, 2]);
    assert!(registry.add_player(name("alice"), ConnectionId(1)).is_ok());
    assert_eq!(registry.remove_player(ConnectionId(2)), None);
    assert_eq!(registry.connection_ids(), vec![ConnectionId(1)]);
    assert_eq!(registry.roster(), vec![name("alice")]);
}

#[test]
fn leave_of_what_is_not_registered_changes_nothing() {
    let mut registry = registry_of(&[1]);
    assert!(registry.add_player(name("alice"), ConnectionId(1)).is_ok());
    assert_eq!(registry.remove_player(ConnectionId(9)), None);
    assert_eq!(registry.connection_ids(), vec![ConnectionId(1)]);
    assert_eq!(registry.roster(), vec![name("alice")]);
    assert!(registry.remove_player(ConnectionId(1)).is_some());
    assert_eq!(registry.remove_player(ConnectionId(1)), None);
    assert_eq!(registry.connection_ids(), Vec::new());
    assert_eq!(registry.roster(), Vec::new());
}

#[test]
fn username_is_free_again_after_its_owner_left() {
    let mut registry = registry_of(&[1, 2]);
    assert!(registry.add_player(name("alice"), ConnectionId(1)).is_ok());
    assert!(registry.remove_player(ConnectionId(1)).is_some());
    assert_eq!(
        registry.add_player(name("alice"), ConnectionId(2)),
        Ok(BroadcastEvent::PlayerJoined(name("alice")))
    );
    assert_eq!(registry.owner(&name("alice")), Some(ConnectionId(2)));
}

#[test]
fn file_goes_to_the_owner_of_the_username() {
    let mut registry = registry_of(&[1, 2]);
    assert!(registry.add_player(name("bob"), ConnectionId(2)).is_ok());
    let frame = Frame::binary(vec![3, 0x62, 0x6f, 0x62, 42]);
    assert_eq!(
        registry.send_file(&name("bob"), frame.clone()),
        Some(Delivery { to: ConnectionId(2), frame })
    );
}

#[test]
fn file_for_nobody_is_dropped() {
    let mut registry = registry_of(&[1, 2]);
    assert!(registry.add_player(name("bob"), ConnectionId(2)).is_ok());
    assert_eq!(registry.send_file(&name("alice"), Frame::binary(vec![1])), None);
    assert!(registry.remove_player(ConnectionId(2)).is_some());
    assert_eq!(registry.send_file(&name("bob"), Frame::binary(vec![1])), None);
}

#[test]
fn event_names_its_player() {
    let joined = BroadcastEvent::PlayerJoined(name("alice"));
    let left = BroadcastEvent::PlayerLeft(name("bob"));
    assert!(joined.is_join());
    assert!(!left.is_join());
    assert_eq!(joined.username(), &name("alice"));
    assert_eq!(left.username(), &name("bob"));
    assert_eq!(joined.clone(), joined);
}

#[test]
fn frames_keep_kind_and_payload() {
    assert_eq!(Frame::text(vec![1]), Frame { kind: FrameKind::Text, payload: vec![1] });
    assert_eq!(Frame::binary(vec![2]), Frame { kind: FrameKind::Binary, payload: vec![2] });
    assert_eq!(Frame::control(), Frame { kind: FrameKind::Control, payload: Vec::new() });
    assert_eq!(Frame::binary(vec![2, 3]).clone(), Frame::binary(vec![2, 3]));
}

#[test]
fn broadcast_is_the_roster_for_every_connection() {
    let mut registry = registry_of(&[4, 5, 6]);
    assert!(registry.add_player(name("bob"), ConnectionId(5)).is_ok());
    assert!(registry.add_player(name("alice"), ConnectionId(4)).is_ok());
    assert_eq!(
        roster_broadcast(&registry),
        Broadcast {
            frame: Frame::text(b"LIST|bob,alice".to_vec()),
            recipients: vec![ConnectionId(4), ConnectionId(5), ConnectionId(6)],
        }
    );
}

#[test]
fn dispatcher_answers_each_event_with_the_present_roster() {
    let mut registry = registry_of(&[1, 2]);
    let mut dispatcher = BroadcastDispatcher::new();
    assert!(dispatcher.is_running());
    let joined = registry.add_player(name("alice"), ConnectionId(1)).unwrap();
    let first = dispatcher.on_event(&registry, Some(joined)).unwrap();
    assert_eq!(first.frame, Frame::text(b"LIST|alice".to_vec()));
    assert_eq!(first.recipients, vec![ConnectionId(1), ConnectionId(2)]);
    let left = registry.remove_player(ConnectionId(1)).unwrap();
    let second = dispatcher.on_event(&registry, Some(left)).unwrap();
    assert_eq!(second.frame, Frame::text(b"LIST|".to_vec()));
    assert_eq!(second.recipients, vec![ConnectionId(2)]);
    assert!(dispatcher.is_running());
}

#[test]
fn dispatcher_stops_when_the_queue_is_closed() {
    let registry = registry_of(&[1]);
    let mut dispatcher = BroadcastDispatcher::new();
    assert_eq!(dispatcher.on_event(&registry, None), None);
    assert!(!dispatcher.is_running());
    assert_eq!(
        dispatcher.on_event(&registry, Some(BroadcastEvent::PlayerJoined(name("alice")))),
        None
    );
    assert!(!dispatcher.is_running());
}
