//! The process-wide registry of rooms by code, and the steps of a client's
//! session against it.
use vstd::prelude::*;
use vstd::string::StrSliceExecFns;

use crate::events::ClientEvent;
use crate::fields::{RoomFields, RoomLogic};
use crate::networked::Networked;
use crate::server::{
    abandoned, disconnected, joined, ok_of, reconnected, received, Outgoing, ServerRoom,
};

verus! {

/// Number of characters of a client id.
pub const ID_LEN: usize = 36;

/// Number of characters of a room code.
pub const CODE_LEN: usize = 6;

/// Seconds a new client has to send its `JoinRoom` frame.
pub const JOIN_TIMEOUT_SECS: u64 = 300;

/// The query of a socket upgrade: who connects, and to which room.
pub struct RoomJoinQuery {
    pub id: String,
    pub code: String,
}

impl RoomJoinQuery {
    pub open spec fn valid_spec(&self) -> bool {
        self.id@.len() == ID_LEN && self.code@.len() == CODE_LEN
    }

    /// Whether the id and the code have the lengths a connection needs.
    pub fn is_valid(&self) -> (r: bool)
        ensures
            r == self.valid_spec(),
    {
        self.id.as_str().unicode_len() == ID_LEN && self.code.as_str().unicode_len() == CODE_LEN
    }
}

/// Why a client could not be seated.
#[derive(Clone, Copy, PartialEq, Eq, Debug)]
pub enum JoinError {
    RoomFull,
}

struct RoomEntry<T: RoomLogic + RoomFields + Networked + Copy> {
    code: String,
    room: ServerRoom<T>,
}

/// Rooms by code.
pub struct Rooms<T: RoomLogic + RoomFields + Networked + Copy> {
    entries: Vec<RoomEntry<T>>,
    rooms: Ghost<Map<Seq<char>, ServerRoom<T>>>,
}

impl<T: RoomLogic + RoomFields + Networked + Copy> View for Rooms<T> {
    type V = Map<Seq<char>, ServerRoom<T>>;

    closed spec fn view(&self) -> Map<Seq<char>, ServerRoom<T>> {
        self.rooms@
    }
}

impl<T: RoomLogic + RoomFields + Networked + Copy> Rooms<T> {
    /// Codes are unique, the entries are exactly the rooms of the view, and
    /// every room is well formed.
    pub closed spec fn wf(&self) -> bool {
        &&& forall|i: int, j: int|
            0 <= i < j < self.entries@.len() ==> (#[trigger] self.entries@[i]).code@
                != (#[trigger] self.entries@[j]).code@
        &&& forall|i: int|
            0 <= i < self.entries@.len() ==> self.rooms@.contains_key(
                (#[trigger] self.entries@[i]).code@,
            ) && self.rooms@[self.entries@[i].code@] == self.entries@[i].room
        &&& forall|k: Seq<char>|
            #[trigger] self.rooms@.contains_key(k) ==> exists|i: int|
                0 <= i < self.entries@.len() && (#[trigger] self.entries@[i]).code@ == k
        &&& forall|k: Seq<char>| #[trigger] self.rooms@.contains_key(k) ==> self.rooms@[k].wf()
    }

    /// An empty registry.
    pub fn new() -> (r: Self)
        ensures
            r.wf(),
            r@ == Map::<Seq<char>, ServerRoom<T>>::empty(),
    {
        Rooms { entries: Vec::new(), rooms: Ghost(Map::empty()) }
    }

    fn find(&self, code: &str) -> (r: Option<usize>)
        requires
            self.wf(),
        ensures
            match r {
                Some(i) => i < self.entries@.len() && self.entries@[i as int].code@ == code@,
                None => !self@.contains_key(code@),
            },
    {
        let wanted = code.to_owned();
        let mut i: usize = 0;
        while i < self.entries.len()
            invariant
                i <= self.entries@.len(),
                wanted@ == code@,
                forall|j: int| 0 <= j < i ==> (#[trigger] self.entries@[j]).code@ != code@,
            decreases self.entries@.len() - i,
        {
            if self.entries[i].code == wanted {
                return Some(i);
            }
            i += 1;
        }
        None
    }

    fn take(&mut self, i: usize) -> (e: RoomEntry<T>)
        requires
            old(self).wf(),
            i < old(self).entries@.len(),
        ensures
            final(self).wf(),
            e.code@ == old(self).entries@[i as int].code@,
            old(self)@.contains_key(e.code@),
            old(self)@[e.code@] == e.room,
            final(self)@ == old(self)@.remove(e.code@),
    {
        let e = self.entries.remove(i);
        proof {
            self.rooms@ = self.rooms@.remove(e.code@);
            let before = old(self).entries@;
            assert(before[i as int] == e);
            assert forall|j: int| 0 <= j < self.entries@.len() implies #[trigger] self.entries@[j]
                == if j < i {
                before[j]
            } else {
                before[j + 1]
            } by {}
            assert forall|k: Seq<char>| #[trigger] self.rooms@.contains_key(k) implies exists|j: int|
                0 <= j < self.entries@.len() && (#[trigger] self.entries@[j]).code@ == k by {
                let w = choose|w: int| 0 <= w < before.len() && (#[trigger] before[w]).code@ == k;
                assert(w != i);
                if w < i {
                    assert(self.entries@[w].code@ == k);
                } else {
                    assert(self.entries@[w - 1].code@ == k);
                }
            }
            assert forall|a: int, b: int|
                0 <= a < b < self.entries@.len() implies (#[trigger] self.entries@[a]).code@
                != (#[trigger] self.entries@[b]).code@ by {
                let a0 = if a < i { a } else { a + 1 };
                let b0 = if b < i { b } else { b + 1 };
                assert(before[a0].code@ != before[b0].code@);
            }
            assert forall|j: int| 0 <= j < self.entries@.len() implies self.rooms@.contains_key(
                (#[trigger] self.entries@[j]).code@,
            ) && self.rooms@[self.entries@[j].code@] == self.entries@[j].room by {
                let j0 = if j < i { j } else { j + 1 };
                assert(before[j0].code@ != before[i as int].code@);
            }
        }
        e
    }

    fn put(&mut self, e: RoomEntry<T>)
        requires
            old(self).wf(),
            !old(self)@.contains_key(e.code@),
            e.room.wf(),
        ensures
            final(self).wf(),
            final(self)@ == old(self)@.insert(e.code@, e.room),
    {
        proof {
            self.rooms@ = self.rooms@.insert(e.code@, e.room);
        }
        let ghost code = e.code@;
        self.entries.push(e);
        proof {
            let before = old(self).entries@;
            let n = before.len() as int;
            assert(self.entries@[n].code@ == code);
            assert forall|k: Seq<char>| #[trigger] self.rooms@.contains_key(k) implies exists|j: int|
                0 <= j < self.entries@.len() && (#[trigger] self.entries@[j]).code@ == k by {
                if k == code {
                    assert(self.entries@[n].code@ == k);
                } else {
                    assert(old(self)@.contains_key(k));
                    let w = choose|w: int| 0 <= w < before.len() && (#[trigger] before[w]).code@ == k;
                    assert(self.entries@[w] == before[w]);
                }
            }
            assert forall|a: int, b: int|
                0 <= a < b < self.entries@.len() implies (#[trigger] self.entries@[a]).code@
                != (#[trigger] self.entries@[b]).code@ by {
                if b == n {
                    assert(old(self).rooms@.contains_key(before[a].code@));
                }
            }
            assert forall|j: int| 0 <= j < self.entries@.len() implies self.rooms@.contains_key(
                (#[trigger] self.entries@[j]).code@,
            ) && self.rooms@[self.entries@[j].code@] == self.entries@[j].room by {
                if j < n {
                    assert(old(self).rooms@.contains_key(before[j].code@));
                }
            }
        }
    }

    /// A returning client: where the room `code` exists, the client `id`
    /// takes its seat back there; nothing else changes.
    pub fn reconnect(&mut self, code: &str, id: &str) -> (r: Option<(usize, Vec<Outgoing<T>>)>)
        requires
            old(self).wf(),
        ensures
            final(self).wf(),
            !old(self)@.contains_key(code@) ==> r is None && final(self)@ == old(self)@,
            old(self)@.contains_key(code@) ==> {
                &&& final(self)@.contains_key(code@)
                &&& final(self)@ == old(self)@.insert(code@, final(self)@[code@])
                &&& reconnected(old(self)@[code@], final(self)@[code@], id@, r)
            },
    {
        match self.find(code) {
            None => None,
            Some(i) => {
                let mut e = self.take(i);
                let r = e.room.reconnect(id);
                self.put(e);
                r
            },
        }
    }

    /// A new client named `name`: seats it in the room `code`, which is
    /// created first where there is none. Refused, with nothing changed, when
    /// the room is full.
    pub fn join(&mut self, code: &str, id: &str, name: &[u8]) -> (r: Result<
        (usize, Vec<Outgoing<T>>),
        JoinError,
    >)
        requires
            old(self).wf(),
        ensures
            final(self).wf(),
            r is Err ==> final(self)@ == old(self)@,
            r is Ok ==> final(self)@.contains_key(code@) && final(self)@ == old(self)@.insert(
                code@,
                final(self)@[code@],
            ),
            old(self)@.contains_key(code@) ==> joined(
                old(self)@[code@].current_spec(),
                old(self)@[code@].previous_spec(),
                old(self)@[code@].connections_spec(),
                if r is Ok {
                    final(self)@[code@]
                } else {
                    old(self)@[code@]
                },
                id@,
                name@,
                ok_of(r),
            ),
            !old(self)@.contains_key(code@) ==> {
                let fresh = T::default_spec().with_host(0);
                &&& r is Err <==> forall|j: int|
                    0 <= j < fresh.players_spec().len() ==> #[trigger] fresh.players_spec()[j] is Some
                &&& r is Ok ==> joined(
                    fresh,
                    fresh,
                    Seq::new(T::slot_count(), |j: int| None),
                    final(self)@[code@],
                    id@,
                    name@,
                    ok_of(r),
                )
            },
    {
        match self.find(code) {
            Some(i) => {
                let mut e = self.take(i);
                let r = e.room.join(id, name);
                self.put(e);
                match r {
                    Some(seated) => Ok(seated),
                    None => Err(JoinError::RoomFull),
                }
            },
            None => {
                let mut room = ServerRoom::new();
                proof {
                    assert(room.connections_spec() =~= Seq::new(
                        T::slot_count(),
                        |j: int| None::<crate::server::Connection>,
                    ));
                }
                match room.join(id, name) {
                    Some(seated) => {
                        self.put(RoomEntry { code: code.to_owned(), room });
                        Ok(seated)
                    },
                    None => Err(JoinError::RoomFull),
                }
            },
        }
    }

    /// A decoded frame from the client in slot `index` of the room `code`.
    /// Where there is no such room or slot the session ends and nothing
    /// changes.
    pub fn receive(&mut self, code: &str, index: usize, event: &ClientEvent<T::ClientGameEvent>) -> (r:
        (Vec<Outgoing<T>>, bool))
        requires
            old(self).wf(),
        ensures
            final(self).wf(),
            !(old(self)@.contains_key(code@) && index < T::slot_count()) ==> r.0@ == Seq::<
                Outgoing<T>,
            >::empty() && !r.1 && final(self)@ == old(self)@,
            old(self)@.contains_key(code@) && index < T::slot_count() ==> {
                &&& final(self)@.contains_key(code@)
                &&& final(self)@ == old(self)@.insert(code@, final(self)@[code@])
                &&& received(old(self)@[code@], final(self)@[code@], index, *event, r.0@, r.1)
            },
    {
        if index >= T::slot_count_exec() {
            return (Vec::new(), false);
        }
        match self.find(code) {
            None => (Vec::new(), false),
            Some(i) => {
                let mut e = self.take(i);
                let r = e.room.receive(index, event);
                self.put(e);
                r
            },
        }
    }

    /// The socket of the client in slot `index` of the room `code` closed:
    /// the player is marked disconnected, and the room is removed exactly
    /// when no seated player is still connected.
    pub fn disconnect(&mut self, code: &str, index: usize) -> (r: Vec<Outgoing<T>>)
        requires
            old(self).wf(),
        ensures
            final(self).wf(),
            !old(self)@.contains_key(code@) ==> r@ == Seq::<Outgoing<T>>::empty() && final(self)@
                == old(self)@,
            old(self)@.contains_key(code@) ==> exists|after: ServerRoom<T>|
                #[trigger] disconnected(old(self)@[code@], after, index, r@) && if abandoned(
                    after.current_spec().players_spec(),
                ) {
                    final(self)@ == old(self)@.remove(code@)
                } else {
                    final(self)@ == old(self)@.insert(code@, after)
                },
    {
        match self.find(code) {
            None => Vec::new(),
            Some(i) => {
                let mut e = self.take(i);
                let ghost before = e.room;
                let r = if index < T::slot_count_exec() {
                    e.room.disconnect(index)
                } else {
                    proof {
                        T::lemma_slot_count(e.room.current_spec());
                    }
                    Vec::new()
                };
                proof {
                    assert(disconnected(before, e.room, index, r@));
                }
                if !e.room.is_abandoned() {
                    self.put(e);
                }
                r
            },
        }
    }

    /// Whether a room with this code exists.
    pub fn contains_room(&self, code: &str) -> (r: bool)
        requires
            self.wf(),
        ensures
            r == self@.contains_key(code@),
    {
        self.find(code).is_some()
    }

    /// The room with this code, if any.
    pub fn room(&self, code: &str) -> (r: Option<&ServerRoom<T>>)
        requires
            self.wf(),
        ensures
            match r {
                Some(room) => self@.contains_key(code@) && *room == self@[code@],
                None => !self@.contains_key(code@),
            },
    {
        match self.find(code) {
            Some(i) => Some(&self.entries[i].room),
            None => None,
        }
    }
}

} // verus!
