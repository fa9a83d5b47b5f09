//! The capability views that the room runtime needs of a game's schema.
use vstd::prelude::*;

use crate::events::{Broadcast, ClientEvent};
use crate::networked::Networked;

verus! {

/// `name` fitted to `len` bytes: cut where it is longer, padded with zeros
/// where it is shorter.
pub open spec fn fit_name(name: Seq<u8>, len: nat) -> Seq<u8> {
    Seq::new(len, |i: int| if i < name.len() { name[i] } else { 0u8 })
}

/// A player record with a fixed-size name and a disconnected flag.
pub trait PlayerFields: Sized {
    spec fn name_spec(&self) -> Seq<u8>;

    spec fn disconnected_spec(&self) -> bool;

    /// The player with its name set from `name`.
    spec fn with_name(&self, name: Seq<u8>) -> Self;

    /// The player with its disconnected flag set to `disconnected`.
    spec fn with_disconnected(&self, disconnected: bool) -> Self;

    /// The name bytes.
    fn name(&self) -> (r: &[u8])
        ensures
            r@ == self.name_spec(),
    ;

    /// Sets the name from `name`, cut or padded with zeros to the name's size.
    fn set_name(&mut self, name: &[u8])
        ensures
            *final(self) == old(self).with_name(name@),
            final(self).name_spec() == fit_name(name@, old(self).name_spec().len()),
            final(self).disconnected_spec() == old(self).disconnected_spec(),
    ;

    /// Whether the player's socket is closed while the seat is kept.
    fn disconnected(&self) -> (r: bool)
        ensures
            r == self.disconnected_spec(),
    ;

    /// Sets the disconnected flag.
    fn set_disconnected(&mut self, disconnected: bool)
        ensures
            *final(self) == old(self).with_disconnected(disconnected),
            final(self).disconnected_spec() == disconnected,
            final(self).name_spec() == old(self).name_spec(),
    ;
}

/// A room record with a fixed number of player slots and a host.
pub trait RoomFields: Sized {
    type Player: PlayerFields + Networked + Copy;

    spec fn players_spec(&self) -> Seq<Option<Self::Player>>;

    spec fn host_spec(&self) -> u8;

    /// The number of player slots, the same for every room of the type.
    spec fn slot_count() -> nat;

    /// The room with slot `index` set to `player`.
    spec fn with_player(&self, index: int, player: Option<Self::Player>) -> Self;

    /// The room with its host set to `host`.
    spec fn with_host(&self, host: u8) -> Self;

    /// The player slots.
    fn players(&self) -> (r: &[Option<Self::Player>])
        ensures
            r@ == self.players_spec(),
    ;

    /// Puts `player` in slot `index`.
    fn set_player(&mut self, index: usize, player: Option<Self::Player>)
        requires
            index < old(self).players_spec().len(),
        ensures
            *final(self) == old(self).with_player(index as int, player),
            final(self).players_spec() == old(self).players_spec().update(index as int, player),
            final(self).host_spec() == old(self).host_spec(),
    ;

    /// The host's slot.
    fn host(&self) -> (r: u8)
        ensures
            r == self.host_spec(),
    ;

    /// Sets the host's slot.
    fn set_host(&mut self, host: u8)
        ensures
            *final(self) == old(self).with_host(host),
            final(self).host_spec() == host,
            final(self).players_spec() == old(self).players_spec(),
    ;

    /// The number of slots in any room of the type.
    fn slot_count_exec() -> (r: usize)
        ensures
            r == Self::slot_count(),
    ;

    /// Every room of the type has the same number of slots.
    proof fn lemma_slot_count(room: Self)
        ensures
            room.players_spec().len() == Self::slot_count(),
    ;
}

/// A game's rules: which client events it accepts, and how it reacts to them.
pub trait RoomLogic: Sized {
    type ServerGameEvent: Copy;

    type ClientGameEvent: Copy;

    /// Whether the player at `player_index` may perform `action` now.
    spec fn accepts(&self, player_index: usize, action: ClientEvent<Self::ClientGameEvent>) -> bool;

    /// The room after an accepted `action`, and the broadcast it asks for.
    spec fn reaction(&self, player_index: usize, action: ClientEvent<Self::ClientGameEvent>) -> (
        Self,
        Broadcast<Self::ServerGameEvent>,
    );

    /// Whether the player at `player_index` may perform `action` now.
    fn validate_event(&self, player_index: usize, action: &ClientEvent<Self::ClientGameEvent>) -> (r:
        bool)
        ensures
            r == self.accepts(player_index, *action),
    ;

    /// Performs an accepted `action`, giving the broadcast it asks for.
    fn on_event(&mut self, player_index: usize, action: &ClientEvent<Self::ClientGameEvent>) -> (r:
        Broadcast<Self::ServerGameEvent>)
        ensures
            (*final(self), r) == old(self).reaction(player_index, *action),
    ;
}

} // verus!
