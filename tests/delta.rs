use websocket_rooms::fields::{PlayerFields, RoomFields};
use websocket_rooms::game::{Player, PlayerOptional, Room, RoomOptional, MAX_PLAYERS};
use websocket_rooms::networked::Networked;
use websocket_rooms::wire::to_bytes;

fn named(name: &[u8]) -> Player {
    let mut player = Player::default();
    player.set_name(name);
    player
}

fn sample_room() -> Room {
    let mut room = Room::default();
    room.players[0] = Some(named(b"alice"));
    room.players[2] = Some(Player { name: [7u8; 20], disconnected: true, cards: 3 });
    room.host = 2;
    room
}

#[test]
fn diff_of_a_value_with_itself_is_none() {
    assert_eq!(5u8.differences_with(&5u8), None);
    assert_eq!(true.differences_with(&true), None);
    assert_eq!(named(b"bob").differences_with(&named(b"bob")), None);
    assert_eq!(sample_room().differences_with(&sample_room()), None);
    assert_eq!(Room::default().differences_with(&Room::default()), None);
    let slots: [Option<u16>; 3] = [Some(1), None, Some(9)];
    assert_eq!(slots.differences_with(&slots), None);
}

#[test]
fn scalar_diff_carries_the_new_value() {
    assert_eq!(3u8.differences_with(&5u8), Some(5u8));
    assert_eq!(false.differences_with(&true), Some(true));
    assert_eq!((-4i32).differences_with(&7i32), Some(7i32));
    assert_eq!(10u64.differences_with(&10u64), None);
}

#[test]
fn applying_the_diff_gives_the_target() {
    let x = sample_room();
    let mut y = sample_room();
    y.players[1] = Some(named(b"carol"));
    y.players[2] = None;
    y.players[0].as_mut().unwrap().cards = 9;
    y.host = 1;
    let d = x.differences_with(&y);
    assert!(d.is_some());
    let mut z = x;
    z.update_from_optional(d);
    assert_eq!(z, y);

    let mut back = y;
    back.update_from_optional(y.differences_with(&x));
    assert_eq!(back, x);
}

#[test]
fn no_diff_means_equal_and_applying_none_changes_nothing() {
    let x = sample_room();
    let mut y = x;
    y.update_from_optional(None);
    assert_eq!(y, x);
    assert_eq!(x.differences_with(&y), None);
}

#[test]
fn snapshot_materialises_to_the_same_value() {
    let x = sample_room();
    assert_eq!(Room::from_optional(x.into_optional()), x);
    let p = named(b"dave");
    assert_eq!(Player::from_optional(p.into_optional()), p);
    assert_eq!(Room::from_optional(Room::default().into_optional()), Room::default());
}

#[test]
fn snapshot_applied_to_any_value_gives_the_value() {
    let x = sample_room();
    let mut y = Room::default();
    y.players[5] = Some(named(b"eve"));
    y.host = 5;
    y.update_from_optional(Some(x.into_optional()));
    assert_eq!(y, x);
}

#[test]
fn from_optional_defaults_absent_fields() {
    let o = PlayerOptional { name: None, disconnected: Some(true), cards: None };
    assert_eq!(Player::from_optional(o), Player { name: [0u8; 20], disconnected: true, cards: 0 });
    let r = RoomOptional { players: None, host: Some(4) };
    let room = Room::from_optional(r);
    assert_eq!(room.host, 4);
    assert!(room.players.iter().all(|p| p.is_none()));
}

#[test]
fn room_diff_is_made_of_field_diffs() {
    let x = sample_room();
    let mut y = x;
    y.host = 0;
    let d = x.differences_with(&y).unwrap();
    assert_eq!(d.host, Some(0));
    assert_eq!(d.players, None);

    let mut z = x;
    z.players[0].as_mut().unwrap().disconnected = true;
    let d = x.differences_with(&z).unwrap();
    assert_eq!(d.host, None);
    let entries = d.players.unwrap();
    for (i, entry) in entries.iter().enumerate() {
        if i == 0 {
            let inner = PlayerOptional { name: None, disconnected: Some(true), cards: None };
            assert_eq!(*entry, Some(Some(inner)));
        } else {
            assert_eq!(*entry, None);
        }
    }
}

#[test]
fn player_diff_lists_only_changed_fields() {
    let a = named(b"ann");
    let mut b = a;
    b.cards = 2;
    assert_eq!(
        a.differences_with(&b),
        Some(PlayerOptional { name: None, disconnected: None, cards: Some(2) })
    );
    let c = named(b"anna");
    let d = a.differences_with(&c).unwrap();
    let name = d.name.unwrap();
    assert_eq!(name[3], Some(b'a'));
    assert!(name.iter().enumerate().all(|(i, n)| i == 3 || n.is_none()));
}

#[test]
fn nullable_slot_transitions() {
    let p = named(b"fay");
    let mut q = p;
    q.cards = 1;
    let none: Option<Player> = None;
    // absent to absent: no change
    assert_eq!(none.differences_with(&none), None);
    // present to present, equal: no change
    assert_eq!(Some(p).differences_with(&Some(p)), None);
    // present to present, different: in-place update
    let d = Some(p).differences_with(&Some(q));
    assert_eq!(d, Some(Some(PlayerOptional { name: None, disconnected: None, cards: Some(1) })));
    let mut slot = Some(p);
    slot.update_from_optional(d);
    assert_eq!(slot, Some(q));
    // absent to present: slot filled with a full snapshot
    let d = none.differences_with(&Some(q));
    assert_eq!(d, Some(Some(q.into_optional())));
    let mut slot = none;
    slot.update_from_optional(d);
    assert_eq!(slot, Some(q));
    // present to absent: slot cleared
    let d = Some(p).differences_with(&none);
    assert_eq!(d, Some(None));
    let mut slot = Some(p);
    slot.update_from_optional(d);
    assert_eq!(slot, None);
}

#[test]
fn set_name_pads_and_cuts() {
    let p = named(b"alice");
    let mut expected = [0u8; 20];
    expected[..5].copy_from_slice(b"alice");
    assert_eq!(p.name, expected);
    assert_eq!(p.name(), &expected[..]);
    let long = named(b"abcdefghijklmnopqrstuvwxyz");
    assert_eq!(&long.name[..], &b"abcdefghijklmnopqrst"[..]);
    let mut q = long;
    q.set_disconnected(true);
    assert!(q.disconnected());
    assert_eq!(q.name, long.name);
}

#[test]
fn room_fields_access_slots_and_host() {
    let mut room = Room::default();
    assert_eq!(room.players().len(), MAX_PLAYERS);
    room.set_player(3, Some(named(b"gus")));
    assert_eq!(room.players()[3], Some(named(b"gus")));
    room.set_host(3);
    assert_eq!(room.host(), 3);
}

#[test]
fn one_changed_leaf_encodes_smaller_than_a_snapshot() {
    let mut x = Room::default();
    for i in 0..MAX_PLAYERS {
        x.players[i] = Some(named(b"player"));
    }
    let mut y = x;
    y.players[6].as_mut().unwrap().cards = 1;
    let delta = x.differences_with(&y);
    let snapshot = Some(y.into_optional());
    let delta_len = to_bytes(&delta).len();
    let snapshot_len = to_bytes(&snapshot).len();
    assert!(delta_len < snapshot_len);
    // tag, 8 slot entries (7 absent, one present slot update), host absent
    assert_eq!(delta_len, 1 + 1 + 7 + (1 + 1 + 1 + 1 + 2) + 1);
}
