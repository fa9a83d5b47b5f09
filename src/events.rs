//! Messages between clients and the server.
use vstd::prelude::*;

use crate::fields::RoomLogic;
use crate::networked::Networked;
use crate::NAME_LEN;

verus! {

/// What happened, as told to clients.
#[derive(Clone, Copy, PartialEq, Eq, Debug)]
pub enum ServerEvent<G> {
    RoomJoined,
    PlayerJoined,
    PlayerLeft,
    PlayerDisconnected,
    PlayerReconnected,
    HostChanged,
    Unknown,
    GameEvent(G),
}

impl<G> Default for ServerEvent<G> {
    fn default() -> (r: Self)
        ensures
            r is Unknown,
    {
        ServerEvent::Unknown
    }
}

/// A frame sent to a client: an event and the change of the room since the
/// last broadcast, if any.
#[derive(Clone, Copy, PartialEq, Eq, Debug)]
pub struct ServerMessage<T: RoomLogic + Networked> {
    pub event: ServerEvent<T::ServerGameEvent>,
    pub room: Option<T::Optional>,
}

/// What a client asks of the server.
#[derive(Clone, Copy, PartialEq, Eq, Debug)]
pub enum ClientEvent<G> {
    JoinRoom { name: [u8; NAME_LEN] },
    LeaveRoom,
    Unknown,
    GameEvent(G),
}

impl<G> Default for ClientEvent<G> {
    fn default() -> (r: Self)
        ensures
            r is Unknown,
    {
        ClientEvent::Unknown
    }
}

/// The broadcast a game's event handler asks for after it changed the room.
#[derive(Clone, Copy, PartialEq, Eq, Debug)]
pub enum Broadcast<G> {
    /// Send nothing.
    Nothing,
    /// Send to every occupied connection.
    All(ServerEvent<G>),
    /// Send to every occupied connection but the one at the index.
    Except(usize, ServerEvent<G>),
    /// Send to the connection at the index only.
    One(usize, ServerEvent<G>),
}

} // verus!
