use websocket_rooms::events::{ClientEvent, ServerEvent};
use websocket_rooms::fields::RoomLogic;
use websocket_rooms::game::{ClientGameEvent, Room, ServerGameEvent, MAX_PLAYERS};
use websocket_rooms::networked::Networked;
use websocket_rooms::server::{Outgoing, ServerRoom, Target};

fn indices(out: &[Outgoing<Room>]) -> Vec<usize> {
    out.iter().map(|o| o.index).collect()
}

fn seated(ids: &[&str]) -> ServerRoom<Room> {
    let mut room: ServerRoom<Room> = ServerRoom::new();
    for id in ids {
        room.join(id, id.as_bytes()).unwrap();
    }
    room
}

#[test]
fn new_room_is_default_with_host_zero_and_broadcast() {
    let room: ServerRoom<Room> = ServerRoom::new();
    assert_eq!(room.room, Room::default());
    assert_eq!(room.room.host, 0);
    assert_eq!(*room.previous_room(), room.room);
    assert_eq!(room.get_connection_index("anyone"), None);
}

#[test]
fn connection_index_finds_the_slot_of_an_id() {
    let room = seated(&["a", "b", "c"]);
    assert_eq!(room.get_connection_index("a"), Some(0));
    assert_eq!(room.get_connection_index("c"), Some(2));
    assert_eq!(room.get_connection_index("d"), None);
}

#[test]
fn broadcast_all_reaches_each_occupied_slot_once() {
    let mut room = seated(&["a", "b", "c"]);
    room.leave(1);
    let out = room.update_all_server_event(&ServerEvent::HostChanged);
    assert_eq!(indices(&out), vec![0, 2]);
    assert!(out.iter().all(|o| o.message.event == ServerEvent::HostChanged));
}

#[test]
fn broadcast_except_skips_the_slot() {
    let mut room = seated(&["a", "b", "c"]);
    let out = room.update_except_server_event(1, &ServerEvent::HostChanged);
    assert_eq!(indices(&out), vec![0, 2]);
    let out = room.update_except_server_event(7, &ServerEvent::HostChanged);
    assert_eq!(indices(&out), vec![0, 1, 2]);
}

#[test]
fn broadcast_one_targets_only_the_slot() {
    let mut room = seated(&["a", "b", "c"]);
    let out = room.update_one_server_event(2, &ServerEvent::HostChanged);
    assert_eq!(indices(&out), vec![2]);
    let out = room.update_one_server_event(5, &ServerEvent::HostChanged);
    assert!(out.is_empty());
    let out = room.broadcast(Target::One(0), &ServerEvent::Unknown);
    assert_eq!(indices(&out), vec![0]);
}

#[test]
fn broadcast_sends_the_delta_once_then_rebases() {
    let mut room = seated(&["a", "b"]);
    let before = *room.previous_room();
    room.room.host = 1;
    let expected = before.differences_with(&room.room);
    assert!(expected.is_some());
    let out = room.update_all_server_event(&ServerEvent::HostChanged);
    assert_eq!(out.len(), 2);
    assert!(out.iter().all(|o| o.message.room == expected));
    assert_eq!(*room.previous_room(), room.room);
    let out = room.update_all_server_event(&ServerEvent::HostChanged);
    assert!(out.iter().all(|o| o.message.room.is_none()));
    assert_eq!(*room.previous_room(), room.room);
}

#[test]
fn snapshot_goes_to_one_occupied_slot() {
    let room = seated(&["a"]);
    let out = room.send_snapshot(0, &ServerEvent::RoomJoined);
    assert_eq!(indices(&out), vec![0]);
    assert_eq!(out[0].message.room, Some(room.room.into_optional()));
    assert!(room.send_snapshot(1, &ServerEvent::RoomJoined).is_empty());
}

#[test]
fn full_room_refuses_a_join() {
    let ids = ["p0", "p1", "p2", "p3", "p4", "p5", "p6", "p7"];
    let mut room = seated(&ids);
    assert_eq!(MAX_PLAYERS, ids.len());
    let before_room = room.room;
    assert!(room.join("p8", b"late").is_none());
    assert_eq!(room.room, before_room);
    assert_eq!(room.get_connection_index("p8"), None);
}

#[test]
fn join_takes_the_first_free_slot() {
    let mut room = seated(&["a", "b", "c"]);
    room.leave(1);
    let (index, _) = room.join("d", b"d").unwrap();
    assert_eq!(index, 1);
    assert_eq!(room.get_connection_index("d"), Some(1));
}

#[test]
fn rejected_event_changes_nothing() {
    let mut room = seated(&["a", "b"]);
    let before = room.room;
    let out = room.handle_event(1, &ClientEvent::GameEvent(ClientGameEvent::Forbidden));
    assert!(out.is_empty());
    assert_eq!(room.room, before);
    assert_eq!(*room.previous_room(), before);
    let out = room.handle_event(4, &ClientEvent::GameEvent(ClientGameEvent::Test));
    assert!(out.is_empty());
    let out = room.handle_event(0, &ClientEvent::Unknown);
    assert!(out.is_empty());
}

#[test]
fn accepted_event_runs_the_game_and_broadcasts() {
    let mut room = seated(&["a", "b"]);
    assert!(room.room.validate_event(1, &ClientEvent::GameEvent(ClientGameEvent::Test)));
    let out = room.handle_event(1, &ClientEvent::GameEvent(ClientGameEvent::Test));
    assert_eq!(indices(&out), vec![0, 1]);
    assert_eq!(room.room.host, 1);
    for o in out.iter() {
        assert_eq!(o.message.event, ServerEvent::GameEvent(ServerGameEvent::Test));
        assert_eq!(o.message.room.unwrap().host, Some(1));
        assert_eq!(o.message.room.unwrap().players, None);
    }
    assert_eq!(*room.previous_room(), room.room);
}

#[test]
fn disconnect_marks_once_and_abandonment_follows() {
    let mut room = seated(&["a", "b"]);
    assert!(!room.is_abandoned());
    let out = room.disconnect(0);
    assert_eq!(indices(&out), vec![0, 1]);
    assert_eq!(out[0].message.event, ServerEvent::PlayerDisconnected);
    assert!(room.room.players[0].unwrap().disconnected);
    assert!(room.disconnect(0).is_empty());
    assert!(!room.is_abandoned());
    room.disconnect(1);
    assert!(room.is_abandoned());
    assert!(room.disconnect(5).is_empty());
}

#[test]
fn receive_leave_ends_the_session() {
    let mut room = seated(&["a", "b"]);
    let (out, go_on) = room.receive(0, &ClientEvent::LeaveRoom);
    assert!(!go_on);
    assert_eq!(indices(&out), vec![1]);
    assert_eq!(out[0].message.event, ServerEvent::PlayerLeft);
    assert_eq!(room.room.players[0], None);
    assert_eq!(room.get_connection_index("a"), None);
    let (out, go_on) = room.receive(1, &ClientEvent::Unknown);
    assert!(go_on);
    assert!(out.is_empty());
}
