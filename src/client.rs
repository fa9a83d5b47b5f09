//! What a client keeps: its view of the room, brought forward by each server
//! message.
use vstd::prelude::*;

use crate::events::{ServerEvent, ServerMessage};
use crate::fields::RoomLogic;
use crate::networked::{apply_field, Networked};
use crate::wire::{decode_server_message, WireRead};

verus! {

/// Whether a client's socket is open.
#[derive(Clone, Copy, PartialEq, Eq, Debug)]
pub enum ConnectionStatus {
    Connected,
    Disconnected,
}

/// Brings a client's view of the room forward by the delta a message carries.
pub fn apply_server_message<T: RoomLogic + Networked>(view: &mut T, message: &ServerMessage<T>)
    ensures
        *final(view) == apply_field(*old(view), message.room),
{
    view.update_from_optional(message.room);
}

/// Handles a frame from the server: where it holds a message, the view is
/// brought forward by its delta and its event is given back for the game to
/// show; otherwise nothing changes.
pub fn receive_server_frame<T: RoomLogic + Networked>(view: &mut T, bytes: &[u8]) -> (r: Option<
    ServerEvent<T::ServerGameEvent>,
>) where T::ServerGameEvent: WireRead, T::Optional: WireRead
    ensures
        match ServerMessage::<T>::parse(bytes@) {
            Some((m, _)) => r == Some(m.event) && *final(view) == apply_field(*old(view), m.room),
            None => r is None && *final(view) == *old(view),
        },
{
    match decode_server_message::<T>(bytes) {
        Some(message) => {
            apply_server_message(view, &message);
            Some(message.event)
        },
        None => None,
    }
}

} // verus!
