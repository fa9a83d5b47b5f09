//! A multiplayer room server: rooms of typed game state, delta updates to
//! connected clients, and the session of each client's socket.
use vstd::prelude::*;

pub mod client;
pub mod events;
pub mod fields;
pub mod game;
pub mod networked;
pub mod registry;
pub mod server;
pub mod wire;

verus! {

/// Number of bytes of a player's name.
pub const NAME_LEN: usize = 20;

} // verus!
