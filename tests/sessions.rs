use websocket_rooms::client::{apply_server_message, receive_server_frame};
use websocket_rooms::events::{ClientEvent, ServerEvent, ServerMessage};
use websocket_rooms::game::{ClientGameEvent, Player, PlayerOptional, Room, ServerGameEvent};
use websocket_rooms::networked::Networked;
use websocket_rooms::registry::{JoinError, RoomJoinQuery, Rooms};
use websocket_rooms::server::Outgoing;
use websocket_rooms::wire::{decode_client_event, join_name, to_bytes};

const A: &str = "aaaaaaaa-aaaa-aaaa-aaaa-aaaaaaaaaaaa";
const B: &str = "bbbbbbbb-bbbb-bbbb-bbbb-bbbbbbbbbbbb";
const CODE: &str = "ABCDEF";

fn padded(name: &[u8]) -> [u8; 20] {
    let mut out = [0u8; 20];
    out[..name.len()].copy_from_slice(name);
    out
}

fn join_frame(name: &[u8]) -> Vec<u8> {
    let event: ClientEvent<ClientGameEvent> = ClientEvent::JoinRoom { name: padded(name) };
    to_bytes(&event)
}

fn join(rooms: &mut Rooms<Room>, id: &str, name: &[u8]) -> (usize, Vec<Outgoing<Room>>) {
    let name = join_name::<ClientGameEvent>(&join_frame(name)).unwrap();
    rooms.join(CODE, id, &name).unwrap()
}

fn send(rooms: &mut Rooms<Room>, index: usize, event: ClientEvent<ClientGameEvent>) -> (Vec<Outgoing<Room>>, bool) {
    let decoded = decode_client_event::<ClientGameEvent>(&to_bytes(&event));
    rooms.receive(CODE, index, &decoded)
}

fn to(out: &[Outgoing<Room>], index: usize) -> Vec<ServerMessage<Room>> {
    out.iter().filter(|o| o.index == index).map(|o| o.message).collect()
}

#[test]
fn query_needs_a_36_char_id_and_a_6_char_code() {
    let ok = RoomJoinQuery { id: A.to_string(), code: CODE.to_string() };
    assert!(ok.is_valid());
    let short_id = RoomJoinQuery { id: "a".to_string(), code: CODE.to_string() };
    assert!(!short_id.is_valid());
    let long_code = RoomJoinQuery { id: A.to_string(), code: "ABCDEFG".to_string() };
    assert!(!long_code.is_valid());
}

#[test]
fn single_player_joins_leaves_and_the_room_closes() {
    let mut rooms: Rooms<Room> = Rooms::new();
    let (index, out) = join(&mut rooms, A, b"alice");
    assert_eq!(index, 0);
    assert_eq!(out.len(), 1);
    assert_eq!(out[0].index, 0);
    assert_eq!(out[0].message.event, ServerEvent::RoomJoined);
    let mut view = Room::default();
    apply_server_message(&mut view, &out[0].message);
    let alice = view.players[0].unwrap();
    assert_eq!(alice.name, padded(b"alice"));
    assert!(!alice.disconnected);
    assert_eq!(view, rooms.room(CODE).unwrap().room);

    let (out, go_on) = send(&mut rooms, 0, ClientEvent::LeaveRoom);
    assert!(!go_on);
    assert!(out.is_empty());
    assert!(rooms.contains_room(CODE));
    assert!(rooms.disconnect(CODE, 0).is_empty());
    assert!(!rooms.contains_room(CODE));
}

#[test]
fn second_join_sends_only_the_new_slot() {
    let mut rooms: Rooms<Room> = Rooms::new();
    let (_, first) = join(&mut rooms, A, b"alice");
    let mut view_a = Room::default();
    apply_server_message(&mut view_a, &first[0].message);

    let (index, out) = join(&mut rooms, B, b"bob");
    assert_eq!(index, 1);
    let for_a = to(&out, 0);
    assert_eq!(for_a.len(), 1);
    assert_eq!(for_a[0].event, ServerEvent::PlayerJoined);
    let delta = for_a[0].room.unwrap();
    assert_eq!(delta.host, None);
    let slots = delta.players.unwrap();
    let mut bob = Player::default();
    bob.name = padded(b"bob");
    for (i, slot) in slots.iter().enumerate() {
        if i == 1 {
            assert_eq!(*slot, Some(Some(bob.into_optional())));
        } else {
            assert_eq!(*slot, None);
        }
    }
    let for_b = to(&out, 1);
    assert_eq!(for_b.len(), 1);
    assert_eq!(for_b[0].event, ServerEvent::RoomJoined);

    apply_server_message(&mut view_a, &for_a[0]);
    let mut view_b = Room::default();
    apply_server_message(&mut view_b, &for_b[0]);
    let server = rooms.room(CODE).unwrap();
    assert_eq!(view_a, server.room);
    assert_eq!(view_b, server.room);
    assert_eq!(*server.previous_room(), server.room);
}

#[test]
fn reconnect_restores_the_seat() {
    let mut rooms: Rooms<Room> = Rooms::new();
    join(&mut rooms, A, b"alice");
    join(&mut rooms, B, b"bob");
    assert!(rooms.reconnect(CODE, "cccccccc-cccc-cccc-cccc-cccccccccccc").is_none());

    let out = rooms.disconnect(CODE, 0);
    let for_b = to(&out, 1);
    assert_eq!(for_b.len(), 1);
    assert_eq!(for_b[0].event, ServerEvent::PlayerDisconnected);
    assert!(rooms.contains_room(CODE));

    let (index, out) = rooms.reconnect(CODE, A).unwrap();
    assert_eq!(index, 0);
    let for_b = to(&out, 1);
    assert_eq!(for_b.len(), 1);
    assert_eq!(for_b[0].event, ServerEvent::PlayerReconnected);
    let slots = for_b[0].room.unwrap().players.unwrap();
    let flag = PlayerOptional { name: None, disconnected: Some(false), cards: None };
    assert_eq!(slots[0], Some(Some(flag)));
    assert!(slots[1..].iter().all(|s| s.is_none()));
    let for_a = to(&out, 0);
    assert_eq!(for_a.len(), 1);
    assert_eq!(for_a[0].event, ServerEvent::RoomJoined);
    let mut view_a = Room::default();
    apply_server_message(&mut view_a, &for_a[0]);
    assert_eq!(view_a, rooms.room(CODE).unwrap().room);
    assert!(!view_a.players[0].unwrap().disconnected);
}

#[test]
fn rejected_move_sends_nothing() {
    let mut rooms: Rooms<Room> = Rooms::new();
    join(&mut rooms, A, b"alice");
    join(&mut rooms, B, b"bob");
    let before = rooms.room(CODE).unwrap().room;
    let (out, go_on) = send(&mut rooms, 1, ClientEvent::GameEvent(ClientGameEvent::Forbidden));
    assert!(go_on);
    assert!(out.is_empty());
    let server = rooms.room(CODE).unwrap();
    assert_eq!(server.room, before);
    assert_eq!(*server.previous_room(), server.room);
    let (out, go_on) = rooms.receive(CODE, 1, &decode_client_event::<ClientGameEvent>(&[0xde, 0xad]));
    assert!(go_on);
    assert!(out.is_empty());
}

#[test]
fn accepted_move_makes_the_mover_host() {
    let mut rooms: Rooms<Room> = Rooms::new();
    join(&mut rooms, A, b"alice");
    join(&mut rooms, B, b"bob");
    assert_eq!(rooms.room(CODE).unwrap().room.host, 0);
    let (out, go_on) = send(&mut rooms, 1, ClientEvent::GameEvent(ClientGameEvent::Test));
    assert!(go_on);
    assert_eq!(out.len(), 2);
    for index in [0usize, 1] {
        let messages = to(&out, index);
        assert_eq!(messages.len(), 1);
        assert_eq!(messages[0].event, ServerEvent::GameEvent(ServerGameEvent::Test));
        let delta = messages[0].room.unwrap();
        assert_eq!(delta.host, Some(1));
        assert_eq!(delta.players, None);
    }
    assert_eq!(rooms.room(CODE).unwrap().room.host, 1);
}

#[test]
fn room_is_removed_after_the_last_disconnect() {
    let mut rooms: Rooms<Room> = Rooms::new();
    join(&mut rooms, A, b"alice");
    join(&mut rooms, B, b"bob");
    rooms.disconnect(CODE, 0);
    assert!(rooms.contains_room(CODE));
    let out = rooms.disconnect(CODE, 1);
    assert_eq!(out.len(), 2);
    assert!(!rooms.contains_room(CODE));
    assert!(rooms.room(CODE).is_none());
    assert!(rooms.disconnect(CODE, 1).is_empty());
}

#[test]
fn registry_keeps_rooms_apart_and_refuses_a_ninth_player() {
    let mut rooms: Rooms<Room> = Rooms::new();
    for i in 0..8 {
        let id = format!("{:036}", i);
        rooms.join(CODE, &id, b"p").unwrap();
    }
    let before = rooms.room(CODE).unwrap().room;
    assert_eq!(rooms.join(CODE, &format!("{:036}", 8), b"p").err(), Some(JoinError::RoomFull));
    assert_eq!(rooms.room(CODE).unwrap().room, before);
    let (index, _) = rooms.join("ZZZZZZ", A, b"solo").unwrap();
    assert_eq!(index, 0);
    assert!(rooms.contains_room("ZZZZZZ"));
    assert!(rooms.receive("QQQQQQ", 0, &ClientEvent::Unknown).0.is_empty());
    assert!(!rooms.receive(CODE, 99, &ClientEvent::Unknown).1);
}

#[test]
fn clients_follow_the_room_through_frames() {
    let mut rooms: Rooms<Room> = Rooms::new();
    let mut view_a = Room::default();
    let mut view_b = Room::default();
    let (_, out) = join(&mut rooms, A, b"alice");
    for o in out.iter().filter(|o| o.index == 0) {
        assert_eq!(receive_server_frame(&mut view_a, &to_bytes(&o.message)), Some(o.message.event));
    }
    let (_, out) = join(&mut rooms, B, b"bob");
    for o in out.iter() {
        let view = if o.index == 0 { &mut view_a } else { &mut view_b };
        receive_server_frame(view, &to_bytes(&o.message));
    }
    let (out, _) = send(&mut rooms, 1, ClientEvent::GameEvent(ClientGameEvent::Test));
    for o in out.iter() {
        let view = if o.index == 0 { &mut view_a } else { &mut view_b };
        receive_server_frame(view, &to_bytes(&o.message));
    }
    let server = rooms.room(CODE).unwrap().room;
    assert_eq!(view_a, server);
    assert_eq!(view_b, server);
    let before = view_a;
    assert_eq!(receive_server_frame(&mut view_a, &[0xff]), None);
    assert_eq!(view_a, before);
}
