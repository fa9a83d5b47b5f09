use websocket_rooms::events::{ClientEvent, ServerEvent, ServerMessage};
use websocket_rooms::fields::PlayerFields;
use websocket_rooms::game::{ClientGameEvent, Player, PlayerOptional, Room, RoomOptional, ServerGameEvent};
use websocket_rooms::networked::Networked;
use websocket_rooms::wire::{decode_client_event, decode_server_message, join_name, to_bytes, Wire, WireRead};

type PlayerShape = (Option<[Option<u8>; 20]>, Option<bool>, Option<u8>);
type RoomShape = (Option<[Option<Option<PlayerShape>>; 8]>, Option<u8>);

fn player_shape(o: &PlayerOptional) -> PlayerShape {
    (o.name, o.disconnected, o.cards)
}

fn room_shape(o: &RoomOptional) -> RoomShape {
    let players = o.players.map(|slots| slots.map(|slot| slot.map(|p| p.map(|q| player_shape(&q)))));
    (players, o.host)
}

fn named(name: &[u8]) -> Player {
    let mut player = Player::default();
    player.set_name(name);
    player
}

#[test]
fn scalars_and_options_match_bincode() {
    assert_eq!(to_bytes(&7u8), bincode::serialize(&7u8).unwrap());
    assert_eq!(to_bytes(&true), bincode::serialize(&true).unwrap());
    assert_eq!(to_bytes(&false), vec![0u8]);
    assert_eq!(to_bytes(&Some(9u8)), bincode::serialize(&Some(9u8)).unwrap());
    assert_eq!(to_bytes(&None::<u8>), bincode::serialize(&None::<u8>).unwrap());
    let arr: [Option<u8>; 3] = [Some(1), None, Some(3)];
    assert_eq!(to_bytes(&arr), vec![1, 1, 0, 1, 3]);
    assert_eq!(to_bytes(&arr), bincode::serialize(&arr).unwrap());
}

#[test]
fn events_use_u32_variant_indices() {
    let ev: ServerEvent<ServerGameEvent> = ServerEvent::PlayerDisconnected;
    assert_eq!(to_bytes(&ev), vec![3, 0, 0, 0]);
    assert_eq!(to_bytes(&ev), bincode::serialize(&3u32).unwrap());
    let ev: ServerEvent<ServerGameEvent> = ServerEvent::GameEvent(ServerGameEvent::Test);
    assert_eq!(to_bytes(&ev), bincode::serialize(&(7u32, 0u32)).unwrap());
    let ce: ClientEvent<ClientGameEvent> = ClientEvent::GameEvent(ClientGameEvent::Forbidden);
    assert_eq!(to_bytes(&ce), bincode::serialize(&(3u32, 1u32)).unwrap());
    let mut name = [0u8; 20];
    name[..3].copy_from_slice(b"bob");
    let ce: ClientEvent<ClientGameEvent> = ClientEvent::JoinRoom { name };
    assert_eq!(to_bytes(&ce), bincode::serialize(&(0u32, name)).unwrap());
    let ce: ClientEvent<ClientGameEvent> = ClientEvent::LeaveRoom;
    assert_eq!(to_bytes(&ce), vec![1, 0, 0, 0]);
}

#[test]
fn server_message_matches_bincode_layout() {
    let mut room = Room::default();
    room.players[1] = Some(named(b"zed"));
    room.host = 1;
    let message: ServerMessage<Room> =
        ServerMessage { event: ServerEvent::RoomJoined, room: Some(room.into_optional()) };
    let expected = bincode::serialize(&(0u32, Some(room_shape(&room.into_optional())))).unwrap();
    assert_eq!(to_bytes(&message), expected);

    let before = Room::default();
    let delta = before.differences_with(&room);
    let message: ServerMessage<Room> = ServerMessage { event: ServerEvent::PlayerJoined, room: delta };
    let expected = bincode::serialize(&(1u32, delta.map(|d| room_shape(&d)))).unwrap();
    assert_eq!(to_bytes(&message), expected);

    let message: ServerMessage<Room> = ServerMessage { event: ServerEvent::Unknown, room: None };
    assert_eq!(to_bytes(&message), vec![6, 0, 0, 0, 0]);
}

#[test]
fn encode_appends_to_what_is_there() {
    let mut out = vec![42u8];
    Some(5u8).encode(&mut out);
    assert_eq!(out, vec![42, 1, 5]);
}

#[test]
fn client_events_read_back() {
    let mut name = [0u8; 20];
    name[..5].copy_from_slice(b"alice");
    let events: [ClientEvent<ClientGameEvent>; 5] = [
        ClientEvent::JoinRoom { name },
        ClientEvent::LeaveRoom,
        ClientEvent::Unknown,
        ClientEvent::GameEvent(ClientGameEvent::Test),
        ClientEvent::GameEvent(ClientGameEvent::Forbidden),
    ];
    for e in events.iter() {
        let bytes = to_bytes(e);
        assert_eq!(decode_client_event::<ClientGameEvent>(&bytes), *e);
        let mut longer = bytes.clone();
        longer.extend_from_slice(&[9, 9, 9]);
        assert_eq!(decode_client_event::<ClientGameEvent>(&longer), *e);
        let read = ClientEvent::<ClientGameEvent>::decode(&longer, 0);
        assert_eq!(read, Some((*e, bytes.len())));
    }
}

#[test]
fn bad_frames_read_as_unknown() {
    let unknown: ClientEvent<ClientGameEvent> = ClientEvent::Unknown;
    assert_eq!(decode_client_event::<ClientGameEvent>(&[]), unknown);
    assert_eq!(decode_client_event::<ClientGameEvent>(&[1, 0, 0]), unknown);
    assert_eq!(decode_client_event::<ClientGameEvent>(&[9, 0, 0, 0]), unknown);
    assert_eq!(decode_client_event::<ClientGameEvent>(&[1, 1, 0, 0]), unknown);
    // a join frame cut short
    assert_eq!(decode_client_event::<ClientGameEvent>(&[0, 0, 0, 0, 97, 98]), unknown);
    // a game event with an unknown move
    assert_eq!(decode_client_event::<ClientGameEvent>(&[3, 0, 0, 0, 5, 0, 0, 0]), unknown);
    let leave: ClientEvent<ClientGameEvent> = ClientEvent::LeaveRoom;
    assert_eq!(decode_client_event::<ClientGameEvent>(&[1, 0, 0, 0]), leave);
}

#[test]
fn decode_reads_at_an_offset() {
    let bytes = vec![0xff, 0xff, 3, 0, 0, 0, 0, 0, 0, 0];
    let read = ClientEvent::<ClientGameEvent>::decode(&bytes, 2);
    assert_eq!(read, Some((ClientEvent::GameEvent(ClientGameEvent::Test), 8)));
    assert_eq!(ClientGameEvent::decode(&bytes, 6), Some((ClientGameEvent::Test, 4)));
    assert_eq!(ClientGameEvent::decode(&bytes, 7), None);
}

#[test]
fn join_name_takes_only_join_frames() {
    let mut name = [0u8; 20];
    name[..3].copy_from_slice(b"bob");
    let join: ClientEvent<ClientGameEvent> = ClientEvent::JoinRoom { name };
    assert_eq!(join_name::<ClientGameEvent>(&to_bytes(&join)), Some(name));
    let from_bincode = bincode::serialize(&(0u32, name)).unwrap();
    assert_eq!(join_name::<ClientGameEvent>(&from_bincode), Some(name));
    let other: ClientEvent<ClientGameEvent> = ClientEvent::GameEvent(ClientGameEvent::Test);
    assert_eq!(join_name::<ClientGameEvent>(&to_bytes(&other)), None);
    assert_eq!(join_name::<ClientGameEvent>(&[0, 0]), None);
}

#[test]
fn server_messages_read_back() {
    let mut room = Room::default();
    room.players[0] = Some(named(b"amy"));
    room.players[4] = Some(Player { name: [200u8; 20], disconnected: true, cards: 17 });
    room.host = 4;
    let mut later = room;
    later.players[0] = None;
    later.players[3] = Some(named(b"ben"));
    later.host = 3;
    let messages: [ServerMessage<Room>; 4] = [
        ServerMessage { event: ServerEvent::RoomJoined, room: Some(room.into_optional()) },
        ServerMessage { event: ServerEvent::PlayerLeft, room: room.differences_with(&later) },
        ServerMessage { event: ServerEvent::GameEvent(ServerGameEvent::Test), room: None },
        ServerMessage { event: ServerEvent::HostChanged, room: later.differences_with(&room) },
    ];
    for m in messages.iter() {
        let bytes = to_bytes(m);
        assert_eq!(decode_server_message::<Room>(&bytes), Some(*m));
        let mut longer = bytes.clone();
        longer.push(0xaa);
        assert_eq!(ServerMessage::<Room>::decode(&longer, 0), Some((*m, bytes.len())));
    }
}

#[test]
fn server_message_from_bincode_bytes_reads_back() {
    let mut room = Room::default();
    room.players[2] = Some(named(b"cy"));
    let delta = Room::default().differences_with(&room);
    let bytes = bincode::serialize(&(1u32, delta.map(|d| room_shape(&d)))).unwrap();
    let m = decode_server_message::<Room>(&bytes).unwrap();
    assert_eq!(m.event, ServerEvent::PlayerJoined);
    assert_eq!(m.room, delta);
}

#[test]
fn bad_server_frames_read_as_nothing() {
    assert_eq!(decode_server_message::<Room>(&[]), None);
    assert_eq!(decode_server_message::<Room>(&[0, 0, 0, 0]), None);
    assert_eq!(decode_server_message::<Room>(&[8, 0, 0, 0, 0]), None);
    assert_eq!(decode_server_message::<Room>(&[0, 0, 0, 0, 2]), None);
    // a snapshot cut short
    let full: ServerMessage<Room> = ServerMessage { event: ServerEvent::RoomJoined, room: Some(Room::default().into_optional()) };
    let bytes = to_bytes(&full);
    assert_eq!(decode_server_message::<Room>(&bytes[..bytes.len() - 1]), None);
    // a flag byte that is neither 0 nor 1
    assert_eq!(bool::decode(&[2], 0), None);
    assert_eq!(bool::decode(&[1], 0), Some((true, 1)));
}
