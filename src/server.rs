//! A room: the authoritative state, the snapshot last broadcast, the
//! connection slots, and the broadcast primitives.
use vstd::prelude::*;

use crate::events::{Broadcast, ClientEvent, ServerEvent, ServerMessage};
use crate::fields::{PlayerFields, RoomFields, RoomLogic};
use crate::networked::Networked;

verus! {

/// The client holding a connection slot.
#[derive(Debug)]
pub struct Connection {
    /// The client's stable id.
    pub id: String,
}

/// Which occupied connections a broadcast goes to.
#[derive(Clone, Copy, PartialEq, Eq, Debug)]
pub enum Target {
    /// Every occupied slot.
    All,
    /// Every occupied slot but this one.
    Except(usize),
    /// This slot, if occupied.
    One(usize),
}

impl Target {
    /// Whether slot `index` is one the target names.
    pub open spec fn selects(self, index: int) -> bool {
        match self {
            Target::All => true,
            Target::Except(i) => index != i,
            Target::One(i) => index == i,
        }
    }
}

/// A message to be put on the send queue of the connection at `index`.
pub struct Outgoing<T: RoomLogic + Networked> {
    /// The connection slot.
    pub index: usize,
    /// What is sent there.
    pub message: ServerMessage<T>,
}

/// Whether the slot holds the client with id `id`.
pub open spec fn holds_id(slot: Option<Connection>, id: Seq<char>) -> bool {
    slot is Some && slot->Some_0.id@ == id
}

/// The indices, in increasing order, of the slots below `k` that are
/// occupied and selected by `target`.
pub open spec fn targets(slots: Seq<Option<Connection>>, target: Target, k: int) -> Seq<usize>
    decreases k,
{
    if k <= 0 {
        Seq::empty()
    } else {
        let earlier = targets(slots, target, k - 1);
        if slots[k - 1] is Some && target.selects(k - 1) {
            earlier.push((k - 1) as usize)
        } else {
            earlier
        }
    }
}

/// One message with `event` and `delta` for each index of `indices`.
pub open spec fn messages_to<T: RoomLogic + Networked>(
    indices: Seq<usize>,
    event: ServerEvent<T::ServerGameEvent>,
    delta: Option<T::Optional>,
) -> Seq<Outgoing<T>> {
    indices.map_values(
        |i: usize| Outgoing { index: i, message: ServerMessage { event: event, room: delta } },
    )
}

/// The messages a broadcast to `target` sends: to every occupied, selected
/// slot, the event and the delta from `previous` to `room`.
pub open spec fn broadcast_messages<T: RoomLogic + Networked>(
    slots: Seq<Option<Connection>>,
    target: Target,
    event: ServerEvent<T::ServerGameEvent>,
    previous: T,
    room: T,
) -> Seq<Outgoing<T>> {
    messages_to(targets(slots, target, slots.len() as int), event, previous.diff_spec(&room))
}

/// The target and event of a requested broadcast, if it sends anything.
pub open spec fn broadcast_target<G>(b: Broadcast<G>) -> Option<(Target, ServerEvent<G>)> {
    match b {
        Broadcast::Nothing => None,
        Broadcast::All(e) => Some((Target::All, e)),
        Broadcast::Except(i, e) => Some((Target::Except(i), e)),
        Broadcast::One(i, e) => Some((Target::One(i), e)),
    }
}

/// Whether no seated player is connected: every slot is empty or holds a
/// disconnected player.
pub open spec fn abandoned<P: PlayerFields>(players: Seq<Option<P>>) -> bool {
    forall|i: int|
        0 <= i < players.len() ==> (#[trigger] players[i] is None || players[i]->Some_0.disconnected_spec())
}

/// Whether `i` is the first empty player slot.
pub open spec fn is_first_free<P>(players: Seq<Option<P>>, i: int) -> bool {
    &&& 0 <= i < players.len()
    &&& players[i] is None
    &&& forall|j: int| 0 <= j < i ==> #[trigger] players[j] is Some
}

/// Whether `i` is the first connection slot held by the client `id`.
pub open spec fn is_first_holder(slots: Seq<Option<Connection>>, id: Seq<char>, i: int) -> bool {
    &&& 0 <= i < slots.len()
    &&& holds_id(slots[i], id)
    &&& forall|j: int| 0 <= j < i ==> !holds_id(#[trigger] slots[j], id)
}

proof fn lemma_first_holder_unique(slots: Seq<Option<Connection>>, id: Seq<char>, i: int, k: int)
    requires
        is_first_holder(slots, id, i),
        is_first_holder(slots, id, k),
    ensures
        i == k,
{
    if k < i {
        assert(!holds_id(slots[k], id));
    } else if i < k {
        assert(!holds_id(slots[i], id));
    }
}

/// The full snapshot of `room` with `event`, for the connection at `index`.
pub open spec fn snapshot_message<T: RoomLogic + Networked>(
    index: usize,
    event: ServerEvent<T::ServerGameEvent>,
    room: T,
) -> Outgoing<T> {
    Outgoing { index, message: ServerMessage { event, room: Some(room.into_spec()) } }
}

/// The effect of seating the client `id` named `name` in a room whose state,
/// last broadcast state and connection slots were `current`, `previous` and
/// `slots`, leaving the room `after`: `None` exactly when every player slot is
/// taken, and then nothing changes; otherwise the first empty slot is taken,
/// the others are sent the delta with `PlayerJoined`, and the newcomer a full
/// snapshot with `RoomJoined`.
pub open spec fn joined<T: RoomLogic + RoomFields + Networked + Copy>(
    current: T,
    previous: T,
    slots: Seq<Option<Connection>>,
    after: ServerRoom<T>,
    id: Seq<char>,
    name: Seq<u8>,
    r: Option<(usize, Vec<Outgoing<T>>)>,
) -> bool {
    &&& r is None <==> forall|j: int|
        0 <= j < current.players_spec().len() ==> #[trigger] current.players_spec()[j] is Some
    &&& r is None ==> after.current_spec() == current && after.previous_spec() == previous
        && after.connections_spec() == slots
    &&& r matches Some((i, msgs)) ==> {
        let player = T::Player::default_spec().with_name(name);
        let room = current.with_player(i as int, Some(player));
        let now = after.connections_spec();
        &&& is_first_free(current.players_spec(), i as int)
        &&& after.current_spec() == room
        &&& after.previous_spec() == room
        &&& now.len() == slots.len()
        &&& holds_id(now[i as int], id)
        &&& forall|j: int| 0 <= j < now.len() && j != i ==> now[j] == slots[j]
        &&& msgs@ == broadcast_messages(
            now,
            Target::Except(i),
            ServerEvent::PlayerJoined,
            previous,
            room,
        ).push(snapshot_message(i, ServerEvent::RoomJoined, room))
    }
}

/// The effect of the client `id` coming back to `before`, leaving `after`:
/// `None` exactly when the first connection slot holding `id` (if any) has
/// no player; otherwise that player is marked connected, the others are sent
/// the delta with `PlayerReconnected`, and the client a full snapshot with
/// `RoomJoined`.
pub open spec fn reconnected<T: RoomLogic + RoomFields + Networked + Copy>(
    before: ServerRoom<T>,
    after: ServerRoom<T>,
    id: Seq<char>,
    r: Option<(usize, Vec<Outgoing<T>>)>,
) -> bool {
    &&& after.connections_spec() == before.connections_spec()
    &&& r is None <==> forall|i: int|
        is_first_holder(before.connections_spec(), id, i)
            ==> before.current_spec().players_spec()[i] is None
    &&& r matches Some((i, msgs)) ==> {
        let player = before.current_spec().players_spec()[i as int]->Some_0;
        let room = before.current_spec().with_player(
            i as int,
            Some(player.with_disconnected(false)),
        );
        &&& is_first_holder(before.connections_spec(), id, i as int)
        &&& before.current_spec().players_spec()[i as int] is Some
        &&& after.current_spec() == room
        &&& after.previous_spec() == room
        &&& msgs@ == broadcast_messages(
            before.connections_spec(),
            Target::Except(i),
            ServerEvent::PlayerReconnected,
            before.previous_spec(),
            room,
        ).push(snapshot_message(i, ServerEvent::RoomJoined, room))
    }
}

/// Whether the socket of slot `index` closing changes `room`: its player is
/// seated and not yet marked disconnected.
pub open spec fn marks_disconnect<T: RoomLogic + RoomFields + Networked + Copy>(
    room: ServerRoom<T>,
    index: usize,
) -> bool {
    let slot = room.current_spec().players_spec()[index as int];
    index < room.current_spec().players_spec().len() && slot is Some
        && !slot->Some_0.disconnected_spec()
}

/// The effect of the socket of slot `index` closing, from `before` to
/// `after`: where the player is seated and not yet marked, it is marked
/// disconnected and everyone is sent the delta with `PlayerDisconnected`.
pub open spec fn disconnected<T: RoomLogic + RoomFields + Networked + Copy>(
    before: ServerRoom<T>,
    after: ServerRoom<T>,
    index: usize,
    msgs: Seq<Outgoing<T>>,
) -> bool {
    &&& after.connections_spec() == before.connections_spec()
    &&& marks_disconnect(before, index) ==> {
        let player = before.current_spec().players_spec()[index as int]->Some_0;
        let room = before.current_spec().with_player(
            index as int,
            Some(player.with_disconnected(true)),
        );
        &&& after.current_spec() == room
        &&& after.previous_spec() == room
        &&& msgs == broadcast_messages(
            before.connections_spec(),
            Target::All,
            ServerEvent::PlayerDisconnected,
            before.previous_spec(),
            room,
        )
    }
    &&& !marks_disconnect(before, index) ==> after.current_spec() == before.current_spec()
        && after.previous_spec() == before.previous_spec() && msgs == Seq::<Outgoing<T>>::empty()
}

/// The effect of a frame `event` from slot `index`, from `before` to `after`,
/// sending `msgs` and going on with the session or not: leaving empties the
/// slot, tells everyone with `PlayerLeft` and ends the session; anything else
/// is ignored unless the game accepts it, and otherwise changed and broadcast
/// as the game says.
pub open spec fn received<T: RoomLogic + RoomFields + Networked + Copy>(
    before: ServerRoom<T>,
    after: ServerRoom<T>,
    index: usize,
    event: ClientEvent<T::ClientGameEvent>,
    msgs: Seq<Outgoing<T>>,
    go_on: bool,
) -> bool {
    &&& go_on <==> !(event is LeaveRoom)
    &&& event is LeaveRoom ==> {
        &&& after.connections_spec() == before.connections_spec().update(index as int, None)
        &&& after.current_spec() == before.current_spec().with_player(index as int, None)
        &&& after.previous_spec() == after.current_spec()
        &&& msgs == broadcast_messages(
            after.connections_spec(),
            Target::All,
            ServerEvent::PlayerLeft,
            before.previous_spec(),
            after.current_spec(),
        )
    }
    &&& !(event is LeaveRoom) && !before.current_spec().accepts(index, event) ==> {
        &&& after.current_spec() == before.current_spec()
        &&& after.previous_spec() == before.previous_spec()
        &&& after.connections_spec() == before.connections_spec()
        &&& msgs == Seq::<Outgoing<T>>::empty()
    }
    &&& !(event is LeaveRoom) && before.current_spec().accepts(index, event) ==> {
        let (room, b) = before.current_spec().reaction(index, event);
        &&& after.current_spec() == room
        &&& after.connections_spec() == before.connections_spec()
        &&& match broadcast_target(b) {
            None => after.previous_spec() == before.previous_spec() && msgs == Seq::<
                Outgoing<T>,
            >::empty(),
            Some((target, e)) => after.previous_spec() == room && msgs == broadcast_messages(
                before.connections_spec(),
                target,
                e,
                before.previous_spec(),
                room,
            ),
        }
    }
}

/// The result of a room operation that says `None` for "refused".
pub open spec fn ok_of<A, E>(r: Result<A, E>) -> Option<A> {
    match r {
        Ok(a) => Some(a),
        Err(_) => None,
    }
}

/// A room of game state `T` with its connections.
pub struct ServerRoom<T: RoomLogic + RoomFields + Networked + Copy> {
    /// The authoritative state.
    pub room: T,
    previous_room: T,
    connections: Vec<Option<Connection>>,
}

impl<T: RoomLogic + RoomFields + Networked + Copy> ServerRoom<T> {
    /// The authoritative state.
    pub closed spec fn current_spec(&self) -> T {
        self.room
    }

    /// The state as last broadcast.
    pub closed spec fn previous_spec(&self) -> T {
        self.previous_room
    }

    /// The state as last broadcast.
    pub fn previous_room(&self) -> (r: &T)
        ensures
            *r == self.previous_spec(),
    {
        &self.previous_room
    }

    /// The connection slots.
    pub closed spec fn connections_spec(&self) -> Seq<Option<Connection>> {
        self.connections@
    }

    /// There is one connection slot per player slot.
    pub open spec fn wf(&self) -> bool {
        self.connections_spec().len() == T::slot_count()
    }

    /// A fresh room: default state with host 0, already broadcast, and no
    /// connections.
    pub fn new() -> (r: Self)
        ensures
            r.wf(),
            r.current_spec() == T::default_spec().with_host(0),
            r.previous_spec() == r.current_spec(),
            forall|i: int| 0 <= i < r.connections_spec().len() ==> #[trigger] r.connections_spec()[i] is None,
    {
        let mut room = T::default_value();
        room.set_host(0);
        let count = T::slot_count_exec();
        let mut connections: Vec<Option<Connection>> = Vec::new();
        let mut i: usize = 0;
        while i < count
            invariant
                i <= count,
                connections@.len() == i,
                forall|j: int| 0 <= j < i ==> #[trigger] connections@[j] is None,
            decreases count - i,
        {
            connections.push(None);
            i += 1;
        }
        ServerRoom { room, previous_room: room, connections }
    }

    /// The first connection slot held by the client `id`.
    pub fn get_connection_index(&self, id: &str) -> (r: Option<usize>)
        ensures
            match r {
                Some(i) => i < self.connections_spec().len() && holds_id(
                    self.connections_spec()[i as int],
                    id@,
                ) && forall|j: int| 0 <= j < i ==> !holds_id(#[trigger] self.connections_spec()[j], id@),
                None => forall|j: int|
                    0 <= j < self.connections_spec().len() ==> !holds_id(
                        #[trigger] self.connections_spec()[j],
                        id@,
                    ),
            },
    {
        let wanted = id.to_owned();
        let mut i: usize = 0;
        while i < self.connections.len()
            invariant
                i <= self.connections@.len(),
                wanted@ == id@,
                forall|j: int| 0 <= j < i ==> !holds_id(#[trigger] self.connections@[j], id@),
            decreases self.connections@.len() - i,
        {
            if let Some(connection) = &self.connections[i] {
                if connection.id == wanted {
                    assert(holds_id(self.connections@[i as int], id@));
                    assert(forall|j: int| 0 <= j < i ==> !holds_id(#[trigger] self.connections_spec()[j], id@));
                    return Some(i);
                }
            }
            i += 1;
        }
        None
    }

    /// Sends `event` and the delta since the last broadcast to the occupied
    /// slots that `target` selects, then records the state as broadcast.
    pub fn broadcast(&mut self, target: Target, event: &ServerEvent<T::ServerGameEvent>) -> (r: Vec<
        Outgoing<T>,
    >)
        ensures
            r@ == broadcast_messages(
                old(self).connections_spec(),
                target,
                *event,
                old(self).previous_spec(),
                old(self).current_spec(),
            ),
            final(self).current_spec() == old(self).current_spec(),
            final(self).previous_spec() == old(self).current_spec(),
            final(self).previous_spec() == final(self).current_spec(),
            final(self).connections_spec() == old(self).connections_spec(),
    {
        let changes = self.previous_room.differences_with(&self.room);
        let mut out: Vec<Outgoing<T>> = Vec::new();
        let mut i: usize = 0;
        while i < self.connections.len()
            invariant
                i <= self.connections@.len(),
                self.connections@ == old(self).connections@,
                self.room == old(self).room,
                self.previous_room == old(self).previous_room,
                changes == old(self).previous_room.diff_spec(&old(self).room),
                out@ == messages_to::<T>(targets(self.connections@, target, i as int), *event, changes),
            decreases self.connections@.len() - i,
        {
            let selected = match target {
                Target::All => true,
                Target::Except(index) => i != index,
                Target::One(index) => i == index,
            };
            if selected && self.connections[i].is_some() {
                out.push(Outgoing { index: i, message: ServerMessage { event: *event, room: changes } });
            }
            proof {
                assert(targets(self.connections@, target, i + 1) =~= if self.connections@[i as int] is Some
                    && target.selects(i as int) {
                    targets(self.connections@, target, i as int).push(i)
                } else {
                    targets(self.connections@, target, i as int)
                });
            }
            i += 1;
            proof {
                let t = targets(self.connections@, target, i as int);
                assert(out@ =~= messages_to::<T>(t, *event, changes));
            }
        }
        self.previous_room = self.room;
        out
    }

    /// Broadcasts `event` to every occupied connection.
    pub fn update_all_server_event(&mut self, event: &ServerEvent<T::ServerGameEvent>) -> (r: Vec<
        Outgoing<T>,
    >)
        ensures
            r@ == broadcast_messages(
                old(self).connections_spec(),
                Target::All,
                *event,
                old(self).previous_spec(),
                old(self).current_spec(),
            ),
            final(self).current_spec() == old(self).current_spec(),
            final(self).previous_spec() == old(self).current_spec(),
            final(self).previous_spec() == final(self).current_spec(),
            final(self).connections_spec() == old(self).connections_spec(),
    {
        self.broadcast(Target::All, event)
    }

    /// Broadcasts `event` to every occupied connection but the one at `index`.
    pub fn update_except_server_event(
        &mut self,
        index: usize,
        event: &ServerEvent<T::ServerGameEvent>,
    ) -> (r: Vec<Outgoing<T>>)
        ensures
            r@ == broadcast_messages(
                old(self).connections_spec(),
                Target::Except(index),
                *event,
                old(self).previous_spec(),
                old(self).current_spec(),
            ),
            final(self).current_spec() == old(self).current_spec(),
            final(self).previous_spec() == old(self).current_spec(),
            final(self).previous_spec() == final(self).current_spec(),
            final(self).connections_spec() == old(self).connections_spec(),
    {
        self.broadcast(Target::Except(index), event)
    }

    /// Broadcasts `event` to the connection at `index` only. The others keep
    /// their older view until the next broadcast that reaches them.
    pub fn update_one_server_event(
        &mut self,
        index: usize,
        event: &ServerEvent<T::ServerGameEvent>,
    ) -> (r: Vec<Outgoing<T>>)
        ensures
            r@ == broadcast_messages(
                old(self).connections_spec(),
                Target::One(index),
                *event,
                old(self).previous_spec(),
                old(self).current_spec(),
            ),
            final(self).current_spec() == old(self).current_spec(),
            final(self).previous_spec() == old(self).current_spec(),
            final(self).previous_spec() == final(self).current_spec(),
            final(self).connections_spec() == old(self).connections_spec(),
    {
        self.broadcast(Target::One(index), event)
    }

    /// Sends `event` with a full snapshot of the state to the connection at
    /// `index`, if it is occupied: what a client that has just (re)joined needs.
    pub fn send_snapshot(&self, index: usize, event: &ServerEvent<T::ServerGameEvent>) -> (r: Vec<
        Outgoing<T>,
    >)
        ensures
            index < self.connections_spec().len() && self.connections_spec()[index as int] is Some
                ==> r@ == seq![
                (Outgoing {
                    index,
                    message: ServerMessage::<T> { event: *event, room: Some(self.current_spec().into_spec()) },
                }),
            ],
            !(index < self.connections_spec().len() && self.connections_spec()[index as int] is Some)
                ==> r@ == Seq::<Outgoing<T>>::empty(),
    {
        let mut out: Vec<Outgoing<T>> = Vec::new();
        if index < self.connections.len() && self.connections[index].is_some() {
            let snapshot = self.room.into_optional();
            out.push(Outgoing { index, message: ServerMessage { event: *event, room: Some(snapshot) } });
        }
        out
    }

    /// Seats the client `id` named `name` in the first empty player slot,
    /// tells the others, and sends the newcomer a full snapshot. `None`, with
    /// nothing changed, when the room is full.
    pub fn join(&mut self, id: &str, name: &[u8]) -> (r: Option<(usize, Vec<Outgoing<T>>)>)
        requires
            old(self).wf(),
        ensures
            final(self).wf(),
            r is None ==> *final(self) == *old(self),
            joined(
                old(self).current_spec(),
                old(self).previous_spec(),
                old(self).connections_spec(),
                *final(self),
                id@,
                name@,
                r,
            ),
    {
        proof {
            T::lemma_slot_count(self.room);
        }
        let players = self.room.players();
        let mut i: usize = 0;
        while i < players.len() && players[i].is_some()
            invariant
                players@ == self.room.players_spec(),
                i <= players@.len(),
                forall|j: int| 0 <= j < i ==> #[trigger] players@[j] is Some,
            decreases players@.len() - i,
        {
            i += 1;
        }
        if i == players.len() {
            return None;
        }
        let mut player = T::Player::default_value();
        player.set_name(name);
        self.room.set_player(i, Some(player));
        self.connections[i] = Some(Connection { id: id.to_owned() });
        let mut out = self.update_except_server_event(i, &ServerEvent::PlayerJoined);
        let ghost told = out@;
        let mut snapshot = self.send_snapshot(i, &ServerEvent::RoomJoined);
        out.append(&mut snapshot);
        proof {
            assert(out@ =~= told.push(snapshot_message::<T>(i, ServerEvent::RoomJoined, self.room)));
        }
        Some((i, out))
    }

    /// Takes back the seat of a returning client `id`: clears its
    /// disconnected flag, tells the others, and sends it a full snapshot.
    /// `None`, with nothing changed, when no connection slot holds `id` or the
    /// first that does has no player.
    pub fn reconnect(&mut self, id: &str) -> (r: Option<(usize, Vec<Outgoing<T>>)>)
        requires
            old(self).wf(),
        ensures
            final(self).wf(),
            r is None ==> *final(self) == *old(self),
            reconnected(*old(self), *final(self), id@, r),
    {
        proof {
            T::lemma_slot_count(self.room);
        }
        let index = match self.get_connection_index(id) {
            Some(index) => index,
            None => {
                return None;
            },
        };
        proof {
            assert(is_first_holder(self.connections@, id@, index as int));
            assert forall|k: int| is_first_holder(self.connections@, id@, k) implies k == index by {
                lemma_first_holder_unique(self.connections@, id@, index as int, k);
            }
        }
        let mut player = match self.room.players()[index] {
            Some(player) => player,
            None => {
                return None;
            },
        };
        assert(!(forall|i: int|
            is_first_holder(old(self).connections_spec(), id@, i)
                ==> old(self).current_spec().players_spec()[i] is None));
        player.set_disconnected(false);
        self.room.set_player(index, Some(player));
        let mut out = self.update_except_server_event(index, &ServerEvent::PlayerReconnected);
        let ghost told = out@;
        let mut snapshot = self.send_snapshot(index, &ServerEvent::RoomJoined);
        out.append(&mut snapshot);
        proof {
            assert(out@ =~= told.push(
                snapshot_message::<T>(index, ServerEvent::RoomJoined, self.room),
            ));
        }
        Some((index, out))
    }

    /// A client leaves for good: its connection slot and its player slot are
    /// emptied, and everyone left is told.
    pub fn leave(&mut self, index: usize) -> (r: Vec<Outgoing<T>>)
        requires
            old(self).wf(),
            index < T::slot_count(),
        ensures
            final(self).wf(),
            final(self).connections_spec() == old(self).connections_spec().update(index as int, None),
            final(self).current_spec() == old(self).current_spec().with_player(index as int, None),
            final(self).previous_spec() == final(self).current_spec(),
            r@ == broadcast_messages(
                final(self).connections_spec(),
                Target::All,
                ServerEvent::PlayerLeft,
                old(self).previous_spec(),
                final(self).current_spec(),
            ),
    {
        proof {
            T::lemma_slot_count(self.room);
        }
        self.connections[index] = None;
        self.room.set_player(index, None);
        self.update_all_server_event(&ServerEvent::PlayerLeft)
    }

    /// A client's socket closed: its player, if seated and not yet marked,
    /// is marked disconnected and everyone is told. The seat is kept.
    pub fn disconnect(&mut self, index: usize) -> (r: Vec<Outgoing<T>>)
        requires
            old(self).wf(),
            index < T::slot_count(),
        ensures
            final(self).wf(),
            !marks_disconnect(*old(self), index) ==> *final(self) == *old(self) && r@ == Seq::<
                Outgoing<T>,
            >::empty(),
            disconnected(*old(self), *final(self), index, r@),
    {
        proof {
            T::lemma_slot_count(self.room);
        }
        match self.room.players()[index] {
            Some(player) => {
                if player.disconnected() {
                    Vec::new()
                } else {
                    let mut player = player;
                    player.set_disconnected(true);
                    self.room.set_player(index, Some(player));
                    self.update_all_server_event(&ServerEvent::PlayerDisconnected)
                }
            },
            None => Vec::new(),
        }
    }

    /// Whether no seated player is still connected.
    pub fn is_abandoned(&self) -> (r: bool)
        ensures
            r == abandoned(self.current_spec().players_spec()),
    {
        let players = self.room.players();
        let mut i: usize = 0;
        while i < players.len()
            invariant
                players@ == self.room.players_spec(),
                i <= players@.len(),
                forall|j: int|
                    0 <= j < i ==> (#[trigger] players@[j] is None
                        || players@[j]->Some_0.disconnected_spec()),
            decreases players@.len() - i,
        {
            if let Some(player) = &players[i] {
                if !player.disconnected() {
                    return false;
                }
            }
            i += 1;
        }
        true
    }

    /// Handles a decoded frame from the client at `index`: leaving ends the
    /// session (`false`); anything else goes to the game and the session goes on.
    pub fn receive(&mut self, index: usize, event: &ClientEvent<T::ClientGameEvent>) -> (r: (
        Vec<Outgoing<T>>,
        bool,
    ))
        requires
            old(self).wf(),
            index < T::slot_count(),
        ensures
            final(self).wf(),
            !(*event is LeaveRoom) && !old(self).current_spec().accepts(index, *event) ==> *final(self)
                == *old(self),
            received(*old(self), *final(self), index, *event, r.0@, r.1),
    {
        match event {
            ClientEvent::LeaveRoom => (self.leave(index), false),
            _ => (self.handle_event(index, event), true),
        }
    }

    /// Runs a client event through the game: ignored unless the rules accept
    /// it; otherwise the game changes the room and the broadcast it asks for
    /// is sent.
    pub fn handle_event(&mut self, index: usize, event: &ClientEvent<T::ClientGameEvent>) -> (r: Vec<
        Outgoing<T>,
    >)
        ensures
            !old(self).current_spec().accepts(index, *event) ==> *final(self) == *old(self) && r@
                == Seq::<Outgoing<T>>::empty(),
            old(self).current_spec().accepts(index, *event) ==> {
                let (room, b) = old(self).current_spec().reaction(index, *event);
                &&& final(self).current_spec() == room
                &&& final(self).connections_spec() == old(self).connections_spec()
                &&& match broadcast_target(b) {
                    None => final(self).previous_spec() == old(self).previous_spec() && r@ == Seq::<
                        Outgoing<T>,
                    >::empty(),
                    Some((target, e)) => final(self).previous_spec() == room && r@
                        == broadcast_messages(
                        old(self).connections_spec(),
                        target,
                        e,
                        old(self).previous_spec(),
                        room,
                    ),
                }
            },
    {
        if !self.room.validate_event(index, event) {
            return Vec::new();
        }
        let b = self.room.on_event(index, event);
        match b {
            Broadcast::Nothing => Vec::new(),
            Broadcast::All(e) => self.broadcast(Target::All, &e),
            Broadcast::Except(i, e) => self.broadcast(Target::Except(i), &e),
            Broadcast::One(i, e) => self.broadcast(Target::One(i), &e),
        }
    }
}

/// Every broadcast reaches each occupied slot that its target selects exactly
/// once, in increasing order of slot, and no other slot.
pub proof fn law_broadcast_recipients(slots: Seq<Option<Connection>>, target: Target, k: int)
    requires
        0 <= k <= slots.len(),
        slots.len() <= usize::MAX,
    ensures
        forall|j: int|
            0 <= j < targets(slots, target, k).len() ==> #[trigger] targets(slots, target, k)[j] < k
                && slots[targets(slots, target, k)[j] as int] is Some && target.selects(
                targets(slots, target, k)[j] as int,
            ),
        forall|a: int, b: int|
            0 <= a < b < targets(slots, target, k).len() ==> #[trigger] targets(slots, target, k)[a]
                < #[trigger] targets(slots, target, k)[b],
        forall|s: int|
            0 <= s < k && slots[s] is Some && target.selects(s) ==> #[trigger] targets(
                slots,
                target,
                k,
            ).contains(s as usize),
    decreases k,
{
    if k > 0 {
        law_broadcast_recipients(slots, target, k - 1);
        let earlier = targets(slots, target, k - 1);
        let now = targets(slots, target, k);
        let added = slots[k - 1] is Some && target.selects(k - 1);
        assert(added ==> now == earlier.push((k - 1) as usize));
        assert(!added ==> now == earlier);
        assert forall|j: int| 0 <= j < earlier.len() implies now[j] == #[trigger] earlier[j] by {}
        assert forall|j: int| 0 <= j < now.len() implies #[trigger] now[j] < k && slots[now[j] as int] is Some
            && target.selects(now[j] as int) by {
            if j < earlier.len() {
                assert(now[j] == earlier[j]);
            } else {
                assert(added);
                assert(now[j] == (k - 1) as usize);
            }
        }
        assert forall|a: int, b: int| 0 <= a < b < now.len() implies #[trigger] now[a] < #[trigger] now[b] by {
            assert(now[a] == earlier[a]);
            if b < earlier.len() {
                assert(now[b] == earlier[b]);
            } else {
                assert(added);
                assert(now[b] == (k - 1) as usize);
            }
        }
        assert forall|s: int| 0 <= s < k && slots[s] is Some && target.selects(s) implies #[trigger] now.contains(
            s as usize,
        ) by {
            if s < k - 1 {
                assert(earlier.contains(s as usize));
                let j = choose|j: int| 0 <= j < earlier.len() && earlier[j] == s as usize;
                assert(now[j] == s as usize);
            } else {
                assert(added);
                assert(now[earlier.len() as int] == s as usize);
            }
        }
    }
}

} // verus!
