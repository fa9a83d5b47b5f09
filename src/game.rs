//! The schema of the game this server hosts: its player and room records,
//! their delta companions, and its rules.
use vstd::prelude::*;

use crate::events::{Broadcast, ClientEvent, ServerEvent};
use crate::fields::{fit_name, PlayerFields, RoomFields, RoomLogic};
use crate::networked::{apply_field, array_of, from_field, lemma_array_eq, lemma_array_of, Networked};
use crate::NAME_LEN;

verus! {

/// Number of player slots in a room.
pub const MAX_PLAYERS: usize = 8;

/// A seated player.
#[derive(Clone, Copy, PartialEq, Eq, Debug)]
pub struct Player {
    /// The name, padded with zeros.
    pub name: [u8; NAME_LEN],
    /// Whether the player's socket is closed while the seat is kept.
    pub disconnected: bool,
    /// Private to the player's owner.
    pub cards: u8,
}

/// The delta companion of `Player`: each absent field is unchanged.
#[derive(Clone, Copy, PartialEq, Eq, Debug)]
pub struct PlayerOptional {
    pub name: Option<[Option<u8>; NAME_LEN]>,
    pub disconnected: Option<bool>,
    pub cards: Option<u8>,
}

/// The authoritative state of a room.
#[derive(Clone, Copy, PartialEq, Eq, Debug)]
pub struct Room {
    pub players: [Option<Player>; MAX_PLAYERS],
    pub host: u8,
}

/// The delta companion of `Room`: each absent field is unchanged.
#[derive(Clone, Copy, PartialEq, Eq, Debug)]
pub struct RoomOptional {
    pub players: Option<[Option<Option<PlayerOptional>>; MAX_PLAYERS]>,
    pub host: Option<u8>,
}

/// Moves a client can make.
#[derive(Clone, Copy, PartialEq, Eq, Debug)]
pub enum ClientGameEvent {
    /// Take the host seat.
    Test,
    /// A move the rules never allow.
    Forbidden,
}

/// Game events the server tells clients about.
#[derive(Clone, Copy, PartialEq, Eq, Debug)]
pub enum ServerGameEvent {
    Test,
}

impl Networked for Player {
    type Optional = PlayerOptional;

    open spec fn diff_spec(&self, other: &Self) -> Option<PlayerOptional> {
        let o = PlayerOptional {
            name: self.name.diff_spec(&other.name),
            disconnected: self.disconnected.diff_spec(&other.disconnected),
            cards: self.cards.diff_spec(&other.cards),
        };
        if o.name is None && o.disconnected is None && o.cards is None {
            None
        } else {
            Some(o)
        }
    }

    open spec fn apply_spec(&self, optional: PlayerOptional) -> Player {
        Player {
            name: apply_field(self.name, optional.name),
            disconnected: apply_field(self.disconnected, optional.disconnected),
            cards: apply_field(self.cards, optional.cards),
        }
    }

    open spec fn into_spec(&self) -> PlayerOptional {
        PlayerOptional {
            name: Some(self.name.into_spec()),
            disconnected: Some(self.disconnected.into_spec()),
            cards: Some(self.cards.into_spec()),
        }
    }

    open spec fn from_spec(optional: PlayerOptional) -> Player {
        Player {
            name: from_field::<[u8; NAME_LEN]>(optional.name),
            disconnected: from_field::<bool>(optional.disconnected),
            cards: from_field::<u8>(optional.cards),
        }
    }

    open spec fn default_spec() -> Player {
        Player {
            name: <[u8; NAME_LEN] as Networked>::default_spec(),
            disconnected: false,
            cards: 0,
        }
    }

    fn update_from_optional(&mut self, optional: Option<PlayerOptional>) {
        if let Some(o) = optional {
            self.name.update_from_optional(o.name);
            self.disconnected.update_from_optional(o.disconnected);
            self.cards.update_from_optional(o.cards);
        }
    }

    fn differences_with(&self, other: &Self) -> (r: Option<PlayerOptional>) {
        let name = self.name.differences_with(&other.name);
        let disconnected = self.disconnected.differences_with(&other.disconnected);
        let cards = self.cards.differences_with(&other.cards);
        if name.is_none() && disconnected.is_none() && cards.is_none() {
            None
        } else {
            Some(PlayerOptional { name, disconnected, cards })
        }
    }

    fn into_optional(&self) -> (r: PlayerOptional) {
        PlayerOptional {
            name: Some(self.name.into_optional()),
            disconnected: Some(self.disconnected.into_optional()),
            cards: Some(self.cards.into_optional()),
        }
    }

    fn from_optional(optional: PlayerOptional) -> (r: Player) {
        let name = match optional.name {
            Some(d) => <[u8; NAME_LEN] as Networked>::from_optional(d),
            None => <[u8; NAME_LEN] as Networked>::default_value(),
        };
        let disconnected = match optional.disconnected {
            Some(d) => d,
            None => false,
        };
        let cards = match optional.cards {
            Some(d) => d,
            None => 0,
        };
        Player { name, disconnected, cards }
    }

    fn default_value() -> (r: Player) {
        Player { name: <[u8; NAME_LEN] as Networked>::default_value(), disconnected: false, cards: 0 }
    }

    proof fn lemma_diff_self(x: Self) {
        <[u8; NAME_LEN] as Networked>::lemma_diff_self(x.name);
    }

    proof fn lemma_diff_apply(x: Self, y: Self) {
        <[u8; NAME_LEN] as Networked>::lemma_diff_apply(x.name, y.name);
    }

    proof fn lemma_from_into(x: Self) {
        <[u8; NAME_LEN] as Networked>::lemma_from_into(x.name);
    }

    proof fn lemma_apply_into(x: Self, y: Self) {
        <[u8; NAME_LEN] as Networked>::lemma_apply_into(x.name, y.name);
    }
}

impl Default for Player {
    fn default() -> (r: Player)
        ensures
            r == Player::default_spec(),
    {
        Player::default_value()
    }
}

impl PlayerFields for Player {
    open spec fn name_spec(&self) -> Seq<u8> {
        self.name@
    }

    open spec fn disconnected_spec(&self) -> bool {
        self.disconnected
    }

    open spec fn with_name(&self, name: Seq<u8>) -> Player {
        Player {
            name: array_of(fit_name(name, NAME_LEN as nat)),
            disconnected: self.disconnected,
            cards: self.cards,
        }
    }

    open spec fn with_disconnected(&self, disconnected: bool) -> Player {
        Player { name: self.name, disconnected, cards: self.cards }
    }

    fn name(&self) -> (r: &[u8]) {
        self.name.as_slice()
    }

    fn set_name(&mut self, name: &[u8]) {
        let mut new_name = [0u8; NAME_LEN];
        let len: usize = if name.len() < NAME_LEN {
            name.len()
        } else {
            NAME_LEN
        };
        let mut i: usize = 0;
        while i < NAME_LEN
            invariant
                len <= NAME_LEN,
                len == name@.len() || (len == NAME_LEN && NAME_LEN < name@.len()),
                i <= NAME_LEN,
                new_name@.len() == NAME_LEN,
                forall|j: int| 0 <= j < i ==> new_name@[j] == fit_name(name@, NAME_LEN as nat)[j],
            decreases NAME_LEN - i,
        {
            if i < len {
                new_name[i] = name[i];
            } else {
                new_name[i] = 0;
            }
            i += 1;
        }
        proof {
            lemma_array_of::<u8, NAME_LEN>(fit_name(name@, NAME_LEN as nat));
            assert(new_name@ =~= fit_name(name@, NAME_LEN as nat));
            lemma_array_eq(new_name, array_of(fit_name(name@, NAME_LEN as nat)));
        }
        self.name = new_name;
    }

    fn disconnected(&self) -> (r: bool) {
        self.disconnected
    }

    fn set_disconnected(&mut self, disconnected: bool) {
        self.disconnected = disconnected;
    }
}

impl Networked for Room {
    type Optional = RoomOptional;

    open spec fn diff_spec(&self, other: &Self) -> Option<RoomOptional> {
        let o = RoomOptional {
            players: self.players.diff_spec(&other.players),
            host: self.host.diff_spec(&other.host),
        };
        if o.players is None && o.host is None {
            None
        } else {
            Some(o)
        }
    }

    open spec fn apply_spec(&self, optional: RoomOptional) -> Room {
        Room {
            players: apply_field(self.players, optional.players),
            host: apply_field(self.host, optional.host),
        }
    }

    open spec fn into_spec(&self) -> RoomOptional {
        RoomOptional {
            players: Some(self.players.into_spec()),
            host: Some(self.host.into_spec()),
        }
    }

    open spec fn from_spec(optional: RoomOptional) -> Room {
        Room {
            players: from_field::<[Option<Player>; MAX_PLAYERS]>(optional.players),
            host: from_field::<u8>(optional.host),
        }
    }

    open spec fn default_spec() -> Room {
        Room { players: <[Option<Player>; MAX_PLAYERS] as Networked>::default_spec(), host: 0 }
    }

    fn update_from_optional(&mut self, optional: Option<RoomOptional>) {
        if let Some(o) = optional {
            self.players.update_from_optional(o.players);
            self.host.update_from_optional(o.host);
        }
    }

    fn differences_with(&self, other: &Self) -> (r: Option<RoomOptional>) {
        let players = self.players.differences_with(&other.players);
        let host = self.host.differences_with(&other.host);
        if players.is_none() && host.is_none() {
            None
        } else {
            Some(RoomOptional { players, host })
        }
    }

    fn into_optional(&self) -> (r: RoomOptional) {
        RoomOptional {
            players: Some(self.players.into_optional()),
            host: Some(self.host.into_optional()),
        }
    }

    fn from_optional(optional: RoomOptional) -> (r: Room) {
        let players = match optional.players {
            Some(d) => <[Option<Player>; MAX_PLAYERS] as Networked>::from_optional(d),
            None => <[Option<Player>; MAX_PLAYERS] as Networked>::default_value(),
        };
        let host = match optional.host {
            Some(d) => d,
            None => 0,
        };
        Room { players, host }
    }

    fn default_value() -> (r: Room) {
        Room { players: <[Option<Player>; MAX_PLAYERS] as Networked>::default_value(), host: 0 }
    }

    proof fn lemma_diff_self(x: Self) {
        <[Option<Player>; MAX_PLAYERS] as Networked>::lemma_diff_self(x.players);
    }

    proof fn lemma_diff_apply(x: Self, y: Self) {
        <[Option<Player>; MAX_PLAYERS] as Networked>::lemma_diff_apply(x.players, y.players);
    }

    proof fn lemma_from_into(x: Self) {
        <[Option<Player>; MAX_PLAYERS] as Networked>::lemma_from_into(x.players);
    }

    proof fn lemma_apply_into(x: Self, y: Self) {
        <[Option<Player>; MAX_PLAYERS] as Networked>::lemma_apply_into(x.players, y.players);
    }
}

impl Default for Room {
    fn default() -> (r: Room)
        ensures
            r == Room::default_spec(),
    {
        Room::default_value()
    }
}

impl RoomFields for Room {
    type Player = Player;

    open spec fn players_spec(&self) -> Seq<Option<Player>> {
        self.players@
    }

    open spec fn host_spec(&self) -> u8 {
        self.host
    }

    open spec fn slot_count() -> nat {
        MAX_PLAYERS as nat
    }

    open spec fn with_player(&self, index: int, player: Option<Player>) -> Room {
        Room { players: array_of(self.players@.update(index, player)), host: self.host }
    }

    open spec fn with_host(&self, host: u8) -> Room {
        Room { players: self.players, host }
    }

    fn players(&self) -> (r: &[Option<Player>]) {
        self.players.as_slice()
    }

    fn set_player(&mut self, index: usize, player: Option<Player>) {
        self.players[index] = player;
        proof {
            let s = old(self).players@.update(index as int, player);
            lemma_array_of::<Option<Player>, MAX_PLAYERS>(s);
            assert(self.players@ =~= s);
            lemma_array_eq(self.players, array_of(s));
        }
    }

    fn host(&self) -> (r: u8) {
        self.host
    }

    fn set_host(&mut self, host: u8) {
        self.host = host;
    }

    fn slot_count_exec() -> (r: usize) {
        MAX_PLAYERS
    }

    proof fn lemma_slot_count(room: Self) {
    }
}

impl RoomLogic for Room {
    type ServerGameEvent = ServerGameEvent;

    type ClientGameEvent = ClientGameEvent;

    /// A game event is accepted from a seated, connected player, unless it is
    /// forbidden; nothing else is a move.
    open spec fn accepts(&self, player_index: usize, action: ClientEvent<ClientGameEvent>) -> bool {
        &&& action == ClientEvent::GameEvent(ClientGameEvent::Test)
        &&& player_index < MAX_PLAYERS
        &&& self.players@[player_index as int] is Some
        &&& !self.players@[player_index as int]->Some_0.disconnected
    }

    /// The mover becomes host, and everyone is told.
    open spec fn reaction(&self, player_index: usize, action: ClientEvent<ClientGameEvent>) -> (
        Room,
        Broadcast<ServerGameEvent>,
    ) {
        (
            Room { players: self.players, host: player_index as u8 },
            Broadcast::All(ServerEvent::GameEvent(ServerGameEvent::Test)),
        )
    }

    fn validate_event(&self, player_index: usize, action: &ClientEvent<ClientGameEvent>) -> (r:
        bool) {
        match action {
            ClientEvent::GameEvent(ClientGameEvent::Test) => {
                if player_index < MAX_PLAYERS {
                    match self.players[player_index] {
                        Some(player) => !player.disconnected,
                        None => false,
                    }
                } else {
                    false
                }
            },
            _ => false,
        }
    }

    fn on_event(&mut self, player_index: usize, action: &ClientEvent<ClientGameEvent>) -> (r:
        Broadcast<ServerGameEvent>) {
        self.host = player_index as u8;
        Broadcast::All(ServerEvent::GameEvent(ServerGameEvent::Test))
    }
}

/// A fresh room has every player slot empty.
pub proof fn lemma_fresh_room_is_empty()
    ensures
        forall|j: int|
            0 <= j < MAX_PLAYERS ==> (#[trigger] Room::default_spec().with_host(0).players@[j]) is None,
{
    lemma_array_of::<Option<Player>, MAX_PLAYERS>(
        Seq::new(MAX_PLAYERS as nat, |i: int| Option::<Player>::default_spec()),
    );
}

/// The delta of a room is made of the deltas of its fields: absent exactly
/// when the players and the host are both unchanged.
pub proof fn law_room_diff_composes(x: Room, y: Room)
    ensures
        x.diff_spec(&y) is None <==> (x.players.diff_spec(&y.players) is None
            && x.host.diff_spec(&y.host) is None),
        x.diff_spec(&y) is Some ==> x.diff_spec(&y)->Some_0.players == x.players.diff_spec(
            &y.players,
        ) && x.diff_spec(&y)->Some_0.host == x.host.diff_spec(&y.host),
{
}

/// The delta of a player is made of the deltas of its fields: absent exactly
/// when the name, the flag and the cards are all unchanged.
pub proof fn law_player_diff_composes(x: Player, y: Player)
    ensures
        x.diff_spec(&y) is None <==> (x.name.diff_spec(&y.name) is None
            && x.disconnected.diff_spec(&y.disconnected) is None && x.cards.diff_spec(&y.cards) is None),
        x.diff_spec(&y) is Some ==> x.diff_spec(&y)->Some_0.name == x.name.diff_spec(&y.name)
            && x.diff_spec(&y)->Some_0.disconnected == x.disconnected.diff_spec(&y.disconnected)
            && x.diff_spec(&y)->Some_0.cards == x.cards.diff_spec(&y.cards),
{
}

} // verus!
