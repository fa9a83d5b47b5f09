//! The binary wire format: little-endian, a `u32` index for each enum
//! variant, fields in declared order, fixed-length arrays laid out one entry
//! after another, and one tag byte (0 absent, 1 present) before an optional
//! value.
use vstd::prelude::*;

use crate::events::{ClientEvent, ServerEvent, ServerMessage};
use crate::fields::RoomLogic;
use crate::game::{ClientGameEvent, Player, PlayerOptional, Room, RoomOptional, ServerGameEvent, MAX_PLAYERS};
use crate::networked::{array_of, entry_diffs, lemma_array_eq, lemma_array_of, Networked};
use crate::NAME_LEN;

verus! {

/// A value with a wire form.
pub trait Wire: Sized {
    /// The bytes that stand for `self`.
    spec fn wire(&self) -> Seq<u8>;

    /// Appends the wire form of `self` to `out`.
    fn encode(&self, out: &mut Vec<u8>)
        ensures
            final(out)@ == old(out)@ + self.wire(),
    ;
}

/// Variant index `index` as a little-endian `u32`.
pub open spec fn variant_tag(index: u8) -> Seq<u8> {
    seq![index, 0u8, 0u8, 0u8]
}

fn push_tag(out: &mut Vec<u8>, index: u8)
    ensures
        final(out)@ == old(out)@ + variant_tag(index),
{
    out.push(index);
    out.push(0);
    out.push(0);
    out.push(0);
    proof {
        assert(final(out)@ =~= old(out)@ + variant_tag(index));
    }
}

/// The wire forms of the values of `s`, one after another.
pub open spec fn wire_all<T: Wire>(s: Seq<T>) -> Seq<u8>
    decreases s.len(),
{
    if s.len() == 0 {
        Seq::empty()
    } else {
        wire_all(s.drop_last()) + s.last().wire()
    }
}

/// Encodes `value` on its own.
pub fn to_bytes<W: Wire>(value: &W) -> (r: Vec<u8>)
    ensures
        r@ == value.wire(),
{
    let mut out: Vec<u8> = Vec::new();
    value.encode(&mut out);
    proof {
        assert(out@ =~= value.wire());
    }
    out
}

impl Wire for u8 {
    open spec fn wire(&self) -> Seq<u8> {
        seq![*self]
    }

    fn encode(&self, out: &mut Vec<u8>) {
        out.push(*self);
    }
}

impl Wire for bool {
    open spec fn wire(&self) -> Seq<u8> {
        seq![if *self { 1u8 } else { 0u8 }]
    }

    fn encode(&self, out: &mut Vec<u8>) {
        out.push(if *self { 1 } else { 0 });
    }
}

impl<T: Wire> Wire for Option<T> {
    open spec fn wire(&self) -> Seq<u8> {
        match self {
            Some(v) => seq![1u8] + v.wire(),
            None => seq![0u8],
        }
    }

    fn encode(&self, out: &mut Vec<u8>) {
        match self {
            Some(v) => {
                out.push(1);
                v.encode(out);
                proof {
                    assert(final(out)@ =~= old(out)@ + self.wire());
                }
            },
            None => {
                out.push(0);
            },
        }
    }
}

impl<T: Wire, const N: usize> Wire for [T; N] {
    open spec fn wire(&self) -> Seq<u8> {
        wire_all(self@)
    }

    fn encode(&self, out: &mut Vec<u8>) {
        let mut i: usize = 0;
        while i < N
            invariant
                i <= N,
                self@.len() == N,
                out@ == old(out)@ + wire_all(self@.take(i as int)),
            decreases N - i,
        {
            self[i].encode(out);
            proof {
                assert(self@.take(i + 1).drop_last() =~= self@.take(i as int));
                assert(out@ =~= old(out)@ + wire_all(self@.take(i + 1)));
            }
            i += 1;
        }
        proof {
            assert(self@.take(N as int) =~= self@);
        }
    }
}

impl Wire for PlayerOptional {
    open spec fn wire(&self) -> Seq<u8> {
        self.name.wire() + self.disconnected.wire() + self.cards.wire()
    }

    fn encode(&self, out: &mut Vec<u8>) {
        self.name.encode(out);
        self.disconnected.encode(out);
        self.cards.encode(out);
        proof {
            assert(final(out)@ =~= old(out)@ + self.wire());
        }
    }
}

impl Wire for RoomOptional {
    open spec fn wire(&self) -> Seq<u8> {
        self.players.wire() + self.host.wire()
    }

    fn encode(&self, out: &mut Vec<u8>) {
        self.players.encode(out);
        self.host.encode(out);
        proof {
            assert(final(out)@ =~= old(out)@ + self.wire());
        }
    }
}

impl Wire for ServerGameEvent {
    open spec fn wire(&self) -> Seq<u8> {
        match self {
            ServerGameEvent::Test => variant_tag(0),
        }
    }

    fn encode(&self, out: &mut Vec<u8>) {
        match self {
            ServerGameEvent::Test => push_tag(out, 0),
        }
    }
}

impl Wire for ClientGameEvent {
    open spec fn wire(&self) -> Seq<u8> {
        match self {
            ClientGameEvent::Test => variant_tag(0),
            ClientGameEvent::Forbidden => variant_tag(1),
        }
    }

    fn encode(&self, out: &mut Vec<u8>) {
        match self {
            ClientGameEvent::Test => push_tag(out, 0),
            ClientGameEvent::Forbidden => push_tag(out, 1),
        }
    }
}

impl<G: Wire> Wire for ServerEvent<G> {
    open spec fn wire(&self) -> Seq<u8> {
        match self {
            ServerEvent::RoomJoined => variant_tag(0),
            ServerEvent::PlayerJoined => variant_tag(1),
            ServerEvent::PlayerLeft => variant_tag(2),
            ServerEvent::PlayerDisconnected => variant_tag(3),
            ServerEvent::PlayerReconnected => variant_tag(4),
            ServerEvent::HostChanged => variant_tag(5),
            ServerEvent::Unknown => variant_tag(6),
            ServerEvent::GameEvent(g) => variant_tag(7) + g.wire(),
        }
    }

    fn encode(&self, out: &mut Vec<u8>) {
        match self {
            ServerEvent::RoomJoined => push_tag(out, 0),
            ServerEvent::PlayerJoined => push_tag(out, 1),
            ServerEvent::PlayerLeft => push_tag(out, 2),
            ServerEvent::PlayerDisconnected => push_tag(out, 3),
            ServerEvent::PlayerReconnected => push_tag(out, 4),
            ServerEvent::HostChanged => push_tag(out, 5),
            ServerEvent::Unknown => push_tag(out, 6),
            ServerEvent::GameEvent(g) => {
                push_tag(out, 7);
                g.encode(out);
                proof {
                    assert(final(out)@ =~= old(out)@ + self.wire());
                }
            },
        }
    }
}

impl<G: Wire> Wire for ClientEvent<G> {
    open spec fn wire(&self) -> Seq<u8> {
        match self {
            ClientEvent::JoinRoom { name } => variant_tag(0) + name.wire(),
            ClientEvent::LeaveRoom => variant_tag(1),
            ClientEvent::Unknown => variant_tag(2),
            ClientEvent::GameEvent(g) => variant_tag(3) + g.wire(),
        }
    }

    fn encode(&self, out: &mut Vec<u8>) {
        match self {
            ClientEvent::JoinRoom { name } => {
                push_tag(out, 0);
                name.encode(out);
                proof {
                    assert(final(out)@ =~= old(out)@ + self.wire());
                }
            },
            ClientEvent::LeaveRoom => push_tag(out, 1),
            ClientEvent::Unknown => push_tag(out, 2),
            ClientEvent::GameEvent(g) => {
                push_tag(out, 3);
                g.encode(out);
                proof {
                    assert(final(out)@ =~= old(out)@ + self.wire());
                }
            },
        }
    }
}

impl<T: RoomLogic + Networked> Wire for ServerMessage<T> where
    T::ServerGameEvent: Wire,
    T::Optional: Wire,
 {
    open spec fn wire(&self) -> Seq<u8> {
        self.event.wire() + self.room.wire()
    }

    fn encode(&self, out: &mut Vec<u8>) {
        self.event.encode(out);
        self.room.encode(out);
        proof {
            assert(final(out)@ =~= old(out)@ + self.wire());
        }
    }
}

/// A value that can be read back from its wire form.
pub trait WireRead: Wire {
    /// The value whose wire form starts `bytes`, with the length of that form.
    spec fn parse(bytes: Seq<u8>) -> Option<(Self, nat)>;

    /// Reads a value from `bytes` at `at`, giving it with the number of bytes read.
    fn decode(bytes: &[u8], at: usize) -> (r: Option<(Self, usize)>)
        requires
            at <= bytes@.len(),
        ensures
            match r {
                Some((v, n)) => Self::parse(bytes@.subrange(at as int, bytes@.len() as int)) == Some(
                    (v, n as nat),
                ) && n <= bytes@.len() - at,
                None => Self::parse(bytes@.subrange(at as int, bytes@.len() as int)) is None,
            },
    ;

    proof fn lemma_parse_wire(x: Self, rest: Seq<u8>)
        ensures
            Self::parse(x.wire() + rest) == Some((x, x.wire().len())),
    ;
}

/// Whether `bytes` starts with the form of a variant index below 256.
pub open spec fn has_tag(bytes: Seq<u8>) -> bool {
    bytes.len() >= 4 && bytes[1] == 0 && bytes[2] == 0 && bytes[3] == 0
}

proof fn lemma_wire_bytes(s: Seq<u8>)
    ensures
        wire_all(s) == s,
    decreases s.len(),
{
    if s.len() > 0 {
        lemma_wire_bytes(s.drop_last());
        assert(s =~= s.drop_last().push(s.last()));
        assert(wire_all(s) =~= s);
    }
}

fn read_tag(bytes: &[u8], at: usize) -> (r: Option<u8>)
    requires
        at <= bytes@.len(),
    ensures
        match r {
            Some(t) => has_tag(bytes@.subrange(at as int, bytes@.len() as int)) && t == bytes@[at as int],
            None => !has_tag(bytes@.subrange(at as int, bytes@.len() as int)),
        },
{
    if bytes.len() - at < 4 {
        return None;
    }
    if bytes[at + 1] != 0 || bytes[at + 2] != 0 || bytes[at + 3] != 0 {
        return None;
    }
    Some(bytes[at])
}

impl WireRead for ClientGameEvent {
    open spec fn parse(bytes: Seq<u8>) -> Option<(ClientGameEvent, nat)> {
        if !has_tag(bytes) {
            None
        } else if bytes[0] == 0 {
            Some((ClientGameEvent::Test, 4))
        } else if bytes[0] == 1 {
            Some((ClientGameEvent::Forbidden, 4))
        } else {
            None
        }
    }

    fn decode(bytes: &[u8], at: usize) -> (r: Option<(ClientGameEvent, usize)>) {
        match read_tag(bytes, at) {
            Some(0) => Some((ClientGameEvent::Test, 4)),
            Some(1) => Some((ClientGameEvent::Forbidden, 4)),
            _ => None,
        }
    }

    proof fn lemma_parse_wire(x: Self, rest: Seq<u8>) {
        let b = x.wire() + rest;
        assert(b[1] == 0 && b[2] == 0 && b[3] == 0);
    }
}

impl<G: WireRead> WireRead for ClientEvent<G> {
    open spec fn parse(bytes: Seq<u8>) -> Option<(ClientEvent<G>, nat)> {
        if !has_tag(bytes) {
            None
        } else if bytes[0] == 0 {
            if bytes.len() >= 4 + NAME_LEN {
                Some(
                    (
                        ClientEvent::JoinRoom {
                            name: array_of(bytes.subrange(4, 4 + NAME_LEN as int)),
                        },
                        (4 + NAME_LEN) as nat,
                    ),
                )
            } else {
                None
            }
        } else if bytes[0] == 1 {
            Some((ClientEvent::LeaveRoom, 4))
        } else if bytes[0] == 2 {
            Some((ClientEvent::Unknown, 4))
        } else if bytes[0] == 3 {
            match G::parse(bytes.subrange(4, bytes.len() as int)) {
                Some((g, n)) => Some((ClientEvent::GameEvent(g), 4 + n)),
                None => None,
            }
        } else {
            None
        }
    }

    fn decode(bytes: &[u8], at: usize) -> (r: Option<(ClientEvent<G>, usize)>) {
        let ghost b = bytes@.subrange(at as int, bytes@.len() as int);
        let len = bytes.len();
        let tag = read_tag(bytes, at);
        if tag.is_some() {
            assert(b.len() >= 4);
            assert(at + 4 <= len);
        }
        match tag {
            Some(0) => {
                if bytes.len() - at < 4 + NAME_LEN {
                    return None;
                }
                let mut name = [0u8; NAME_LEN];
                let mut i: usize = 0;
                while i < NAME_LEN
                    invariant
                        i <= NAME_LEN,
                        len == bytes@.len(),
                        at + 4 + NAME_LEN <= bytes@.len(),
                        name@.len() == NAME_LEN,
                        forall|j: int| 0 <= j < i ==> name@[j] == bytes@[at + 4 + j],
                    decreases NAME_LEN - i,
                {
                    name[i] = bytes[at + 4 + i];
                    i += 1;
                }
                proof {
                    let s = b.subrange(4, 4 + NAME_LEN as int);
                    lemma_array_of::<u8, NAME_LEN>(s);
                    assert(name@ =~= s);
                    lemma_array_eq(name, array_of(s));
                }
                Some((ClientEvent::JoinRoom { name }, 4 + NAME_LEN))
            },
            Some(1) => Some((ClientEvent::LeaveRoom, 4)),
            Some(2) => Some((ClientEvent::Unknown, 4)),
            Some(3) => {
                let inner = G::decode(bytes, at + 4);
                proof {
                    assert(b.subrange(4, b.len() as int) =~= bytes@.subrange(
                        at + 4,
                        bytes@.len() as int,
                    ));
                }
                match inner {
                    Some((g, n)) => Some((ClientEvent::GameEvent(g), 4 + n)),
                    None => None,
                }
            },
            _ => None,
        }
    }

    proof fn lemma_parse_wire(x: Self, rest: Seq<u8>) {
        let b = x.wire() + rest;
        assert(b[1] == 0 && b[2] == 0 && b[3] == 0);
        match x {
            ClientEvent::JoinRoom { name } => {
                lemma_wire_bytes(name@);
                assert(b.subrange(4, 4 + NAME_LEN as int) =~= name@);
                lemma_array_of::<u8, NAME_LEN>(name@);
                lemma_array_eq(name, array_of(name@));
            },
            ClientEvent::GameEvent(g) => {
                assert(b.subrange(4, b.len() as int) =~= g.wire() + rest);
                G::lemma_parse_wire(g, rest);
            },
            _ => {},
        }
    }
}

proof fn lemma_wire_all_concat<T: Wire>(a: Seq<T>, b: Seq<T>)
    ensures
        wire_all(a + b) == wire_all(a) + wire_all(b),
    decreases b.len(),
{
    if b.len() == 0 {
        assert(a + b =~= a);
        assert(wire_all(a) + wire_all(b) =~= wire_all(a));
    } else {
        lemma_wire_all_concat(a, b.drop_last());
        assert((a + b).drop_last() =~= a + b.drop_last());
        assert(wire_all(a + b) =~= wire_all(a) + wire_all(b));
    }
}

impl WireRead for u8 {
    open spec fn parse(bytes: Seq<u8>) -> Option<(u8, nat)> {
        if bytes.len() >= 1 {
            Some((bytes[0], 1))
        } else {
            None
        }
    }

    fn decode(bytes: &[u8], at: usize) -> (r: Option<(u8, usize)>) {
        if at < bytes.len() {
            Some((bytes[at], 1))
        } else {
            None
        }
    }

    proof fn lemma_parse_wire(x: Self, rest: Seq<u8>) {
    }
}

impl WireRead for bool {
    open spec fn parse(bytes: Seq<u8>) -> Option<(bool, nat)> {
        if bytes.len() >= 1 && bytes[0] == 0 {
            Some((false, 1))
        } else if bytes.len() >= 1 && bytes[0] == 1 {
            Some((true, 1))
        } else {
            None
        }
    }

    fn decode(bytes: &[u8], at: usize) -> (r: Option<(bool, usize)>) {
        if at < bytes.len() && bytes[at] == 0 {
            Some((false, 1))
        } else if at < bytes.len() && bytes[at] == 1 {
            Some((true, 1))
        } else {
            None
        }
    }

    proof fn lemma_parse_wire(x: Self, rest: Seq<u8>) {
    }
}

impl<T: WireRead> WireRead for Option<T> {
    open spec fn parse(bytes: Seq<u8>) -> Option<(Option<T>, nat)> {
        if bytes.len() >= 1 && bytes[0] == 0 {
            Some((None, 1))
        } else if bytes.len() >= 1 && bytes[0] == 1 {
            match T::parse(bytes.subrange(1, bytes.len() as int)) {
                Some((v, n)) => Some((Some(v), 1 + n)),
                None => None,
            }
        } else {
            None
        }
    }

    fn decode(bytes: &[u8], at: usize) -> (r: Option<(Option<T>, usize)>) {
        if at < bytes.len() && bytes[at] == 0 {
            Some((None, 1))
        } else if at < bytes.len() && bytes[at] == 1 {
            let inner = T::decode(bytes, at + 1);
            proof {
                let b = bytes@.subrange(at as int, bytes@.len() as int);
                assert(b.subrange(1, b.len() as int) =~= bytes@.subrange(at + 1, bytes@.len() as int));
            }
            match inner {
                Some((v, n)) => Some((Some(v), 1 + n)),
                None => None,
            }
        } else {
            None
        }
    }

    proof fn lemma_parse_wire(x: Self, rest: Seq<u8>) {
        if let Some(v) = x {
            let b = x.wire() + rest;
            assert(b.subrange(1, b.len() as int) =~= v.wire() + rest);
            T::lemma_parse_wire(v, rest);
        }
    }
}

/// The first `k` values read one after another from `bytes`, with the
/// number of bytes they take.
pub open spec fn parse_many<T: WireRead>(bytes: Seq<u8>, k: nat) -> Option<(Seq<T>, nat)>
    decreases k,
{
    if k == 0 {
        Some((Seq::empty(), 0))
    } else {
        match parse_many::<T>(bytes, (k - 1) as nat) {
            Some((s, n)) => if n <= bytes.len() {
                match T::parse(bytes.subrange(n as int, bytes.len() as int)) {
                    Some((v, m)) => Some((s.push(v), n + m)),
                    None => None,
                }
            } else {
                None
            },
            None => None,
        }
    }
}

proof fn lemma_parse_many_wire<T: WireRead>(s: Seq<T>, rest: Seq<u8>, k: nat)
    requires
        k <= s.len(),
    ensures
        parse_many::<T>(wire_all(s) + rest, k) == Some(
            (s.take(k as int), wire_all(s.take(k as int)).len()),
        ),
    decreases k,
{
    let b = wire_all(s) + rest;
    if k == 0 {
        assert(s.take(0) =~= Seq::<T>::empty());
    } else {
        lemma_parse_many_wire(s, rest, (k - 1) as nat);
        let front = s.take(k - 1);
        let back = s.skip(k - 1);
        assert(s =~= front + back);
        lemma_wire_all_concat(front, back);
        let one = seq![s[k - 1]];
        assert(back =~= one + back.skip(1));
        lemma_wire_all_concat(one, back.skip(1));
        assert(one.len() == 1 && one.last() == s[k - 1]);
        assert(one.drop_last() =~= Seq::<T>::empty());
        assert(wire_all(one.drop_last()) == Seq::<u8>::empty());
        assert(wire_all(one) =~= s[k - 1].wire());
        let n = wire_all(front).len();
        assert(b.subrange(n as int, b.len() as int) =~= s[k - 1].wire() + (wire_all(back.skip(1))
            + rest));
        T::lemma_parse_wire(s[k - 1], wire_all(back.skip(1)) + rest);
        assert(s.take(k as int) =~= front.push(s[k - 1]));
        assert(s.take(k as int).drop_last() =~= front);
    }
}

proof fn lemma_parse_many_fails_on<T: WireRead>(bytes: Seq<u8>, k: nat, j: nat)
    requires
        k <= j,
        parse_many::<T>(bytes, k) is None,
    ensures
        parse_many::<T>(bytes, j) is None,
    decreases j,
{
    if k < j {
        lemma_parse_many_fails_on::<T>(bytes, k, (j - 1) as nat);
    }
}

impl<T: WireRead + Copy + Default, const N: usize> WireRead for [T; N] {
    open spec fn parse(bytes: Seq<u8>) -> Option<([T; N], nat)> {
        match parse_many::<T>(bytes, N as nat) {
            Some((s, n)) => Some((array_of(s), n)),
            None => None,
        }
    }

    fn decode(bytes: &[u8], at: usize) -> (r: Option<([T; N], usize)>) {
        let ghost b = bytes@.subrange(at as int, bytes@.len() as int);
        let len = bytes.len();
        let mut out: [T; N] = [T::default(); N];
        let mut used: usize = 0;
        let mut i: usize = 0;
        while i < N
            invariant
                i <= N,
                len == bytes@.len(),
                at <= bytes@.len(),
                b == bytes@.subrange(at as int, bytes@.len() as int),
                out@.len() == N,
                used <= bytes@.len() - at,
                parse_many::<T>(b, i as nat) matches Some((s, n)) && n == used && s
                    == out@.take(i as int),
            decreases N - i,
        {
            let item = T::decode(bytes, at + used);
            proof {
                assert(b.subrange(used as int, b.len() as int) =~= bytes@.subrange(
                    at + used,
                    bytes@.len() as int,
                ));
            }
            match item {
                Some((v, m)) => {
                    let ghost before = out@;
                    out[i] = v;
                    used = used + m;
                    proof {
                        let (s, n) = parse_many::<T>(b, i as nat)->Some_0;
                        assert(out@.take(i + 1) =~= before.take(i as int).push(v));
                    }
                },
                None => {
                    proof {
                        lemma_parse_many_fails_on::<T>(b, (i + 1) as nat, N as nat);
                    }
                    return None;
                },
            }
            i += 1;
        }
        proof {
            let (s, n) = parse_many::<T>(b, N as nat)->Some_0;
            assert(out@.take(N as int) =~= out@);
            lemma_array_of::<T, N>(s);
            lemma_array_eq(out, array_of(s));
        }
        Some((out, used))
    }

    proof fn lemma_parse_wire(x: Self, rest: Seq<u8>) {
        lemma_parse_many_wire(x@, rest, N as nat);
        assert(x@.take(N as int) =~= x@);
        lemma_array_of::<T, N>(x@);
        lemma_array_eq(x, array_of(x@));
    }
}

impl WireRead for PlayerOptional {
    open spec fn parse(bytes: Seq<u8>) -> Option<(PlayerOptional, nat)> {
        match Option::<[Option<u8>; NAME_LEN]>::parse(bytes) {
            Some((name, n1)) => match Option::<bool>::parse(
                bytes.subrange(n1 as int, bytes.len() as int),
            ) {
                Some((disconnected, n2)) => match Option::<u8>::parse(
                    bytes.subrange((n1 + n2) as int, bytes.len() as int),
                ) {
                    Some((cards, n3)) => Some(
                        (PlayerOptional { name, disconnected, cards }, n1 + n2 + n3),
                    ),
                    None => None,
                },
                None => None,
            },
            None => None,
        }
    }

    fn decode(bytes: &[u8], at: usize) -> (r: Option<(PlayerOptional, usize)>) {
        let ghost b = bytes@.subrange(at as int, bytes@.len() as int);
        let len = bytes.len();
        let (name, n1) = match Option::<[Option<u8>; NAME_LEN]>::decode(bytes, at) {
            Some(x) => x,
            None => {
                return None;
            },
        };
        proof {
            assert(b.subrange(n1 as int, b.len() as int) =~= bytes@.subrange(at + n1, len as int));
        }
        let (disconnected, n2) = match Option::<bool>::decode(bytes, at + n1) {
            Some(x) => x,
            None => {
                return None;
            },
        };
        proof {
            assert(b.subrange(n1 + n2, b.len() as int) =~= bytes@.subrange(at + n1 + n2, len as int));
        }
        let (cards, n3) = match Option::<u8>::decode(bytes, at + n1 + n2) {
            Some(x) => x,
            None => {
                return None;
            },
        };
        Some((PlayerOptional { name, disconnected, cards }, n1 + n2 + n3))
    }

    proof fn lemma_parse_wire(x: Self, rest: Seq<u8>) {
        let (a, b, c) = (x.name.wire(), x.disconnected.wire(), x.cards.wire());
        let bytes = x.wire() + rest;
        assert(bytes =~= a + (b + c + rest));
        Option::<[Option<u8>; NAME_LEN]>::lemma_parse_wire(x.name, b + c + rest);
        assert(bytes.subrange(a.len() as int, bytes.len() as int) =~= b + (c + rest));
        Option::<bool>::lemma_parse_wire(x.disconnected, c + rest);
        assert(bytes.subrange((a.len() + b.len()) as int, bytes.len() as int) =~= c + rest);
        Option::<u8>::lemma_parse_wire(x.cards, rest);
    }
}

impl WireRead for RoomOptional {
    open spec fn parse(bytes: Seq<u8>) -> Option<(RoomOptional, nat)> {
        match Option::<[Option<Option<PlayerOptional>>; MAX_PLAYERS]>::parse(bytes) {
            Some((players, n1)) => match Option::<u8>::parse(
                bytes.subrange(n1 as int, bytes.len() as int),
            ) {
                Some((host, n2)) => Some((RoomOptional { players, host }, n1 + n2)),
                None => None,
            },
            None => None,
        }
    }

    fn decode(bytes: &[u8], at: usize) -> (r: Option<(RoomOptional, usize)>) {
        let ghost b = bytes@.subrange(at as int, bytes@.len() as int);
        let len = bytes.len();
        let (players, n1) = match Option::<[Option<Option<PlayerOptional>>; MAX_PLAYERS]>::decode(
            bytes,
            at,
        ) {
            Some(x) => x,
            None => {
                return None;
            },
        };
        proof {
            assert(b.subrange(n1 as int, b.len() as int) =~= bytes@.subrange(at + n1, len as int));
        }
        let (host, n2) = match Option::<u8>::decode(bytes, at + n1) {
            Some(x) => x,
            None => {
                return None;
            },
        };
        Some((RoomOptional { players, host }, n1 + n2))
    }

    proof fn lemma_parse_wire(x: Self, rest: Seq<u8>) {
        let (a, b) = (x.players.wire(), x.host.wire());
        let bytes = x.wire() + rest;
        assert(bytes =~= a + (b + rest));
        Option::<[Option<Option<PlayerOptional>>; MAX_PLAYERS]>::lemma_parse_wire(
            x.players,
            b + rest,
        );
        assert(bytes.subrange(a.len() as int, bytes.len() as int) =~= b + rest);
        Option::<u8>::lemma_parse_wire(x.host, rest);
    }
}

impl WireRead for ServerGameEvent {
    open spec fn parse(bytes: Seq<u8>) -> Option<(ServerGameEvent, nat)> {
        if has_tag(bytes) && bytes[0] == 0 {
            Some((ServerGameEvent::Test, 4))
        } else {
            None
        }
    }

    fn decode(bytes: &[u8], at: usize) -> (r: Option<(ServerGameEvent, usize)>) {
        match read_tag(bytes, at) {
            Some(0) => Some((ServerGameEvent::Test, 4)),
            _ => None,
        }
    }

    proof fn lemma_parse_wire(x: Self, rest: Seq<u8>) {
        let b = x.wire() + rest;
        assert(b[0] == 0 && b[1] == 0 && b[2] == 0 && b[3] == 0);
    }
}

impl<G: WireRead> WireRead for ServerEvent<G> {
    open spec fn parse(bytes: Seq<u8>) -> Option<(ServerEvent<G>, nat)> {
        if !has_tag(bytes) {
            None
        } else if bytes[0] == 0 {
            Some((ServerEvent::RoomJoined, 4))
        } else if bytes[0] == 1 {
            Some((ServerEvent::PlayerJoined, 4))
        } else if bytes[0] == 2 {
            Some((ServerEvent::PlayerLeft, 4))
        } else if bytes[0] == 3 {
            Some((ServerEvent::PlayerDisconnected, 4))
        } else if bytes[0] == 4 {
            Some((ServerEvent::PlayerReconnected, 4))
        } else if bytes[0] == 5 {
            Some((ServerEvent::HostChanged, 4))
        } else if bytes[0] == 6 {
            Some((ServerEvent::Unknown, 4))
        } else if bytes[0] == 7 {
            match G::parse(bytes.subrange(4, bytes.len() as int)) {
                Some((g, n)) => Some((ServerEvent::GameEvent(g), 4 + n)),
                None => None,
            }
        } else {
            None
        }
    }

    fn decode(bytes: &[u8], at: usize) -> (r: Option<(ServerEvent<G>, usize)>) {
        let ghost b = bytes@.subrange(at as int, bytes@.len() as int);
        let len = bytes.len();
        let tag = read_tag(bytes, at);
        if tag.is_some() {
            assert(b.len() >= 4);
            assert(at + 4 <= len);
        }
        match tag {
            Some(0) => Some((ServerEvent::RoomJoined, 4)),
            Some(1) => Some((ServerEvent::PlayerJoined, 4)),
            Some(2) => Some((ServerEvent::PlayerLeft, 4)),
            Some(3) => Some((ServerEvent::PlayerDisconnected, 4)),
            Some(4) => Some((ServerEvent::PlayerReconnected, 4)),
            Some(5) => Some((ServerEvent::HostChanged, 4)),
            Some(6) => Some((ServerEvent::Unknown, 4)),
            Some(7) => {
                let inner = G::decode(bytes, at + 4);
                proof {
                    assert(b.subrange(4, b.len() as int) =~= bytes@.subrange(at + 4, len as int));
                }
                match inner {
                    Some((g, n)) => Some((ServerEvent::GameEvent(g), 4 + n)),
                    None => None,
                }
            },
            _ => None,
        }
    }

    proof fn lemma_parse_wire(x: Self, rest: Seq<u8>) {
        let b = x.wire() + rest;
        assert(b[1] == 0 && b[2] == 0 && b[3] == 0);
        if let ServerEvent::GameEvent(g) = x {
            assert(b.subrange(4, b.len() as int) =~= g.wire() + rest);
            G::lemma_parse_wire(g, rest);
        }
    }
}

impl<T: RoomLogic + Networked> WireRead for ServerMessage<T> where
    T::ServerGameEvent: WireRead,
    T::Optional: WireRead,
 {
    open spec fn parse(bytes: Seq<u8>) -> Option<(ServerMessage<T>, nat)> {
        match ServerEvent::<T::ServerGameEvent>::parse(bytes) {
            Some((event, n1)) => match Option::<T::Optional>::parse(
                bytes.subrange(n1 as int, bytes.len() as int),
            ) {
                Some((room, n2)) => Some((ServerMessage { event, room }, n1 + n2)),
                None => None,
            },
            None => None,
        }
    }

    fn decode(bytes: &[u8], at: usize) -> (r: Option<(ServerMessage<T>, usize)>) {
        let ghost b = bytes@.subrange(at as int, bytes@.len() as int);
        let len = bytes.len();
        let (event, n1) = match ServerEvent::<T::ServerGameEvent>::decode(bytes, at) {
            Some(x) => x,
            None => {
                return None;
            },
        };
        proof {
            assert(b.subrange(n1 as int, b.len() as int) =~= bytes@.subrange(at + n1, len as int));
        }
        let (room, n2) = match Option::<T::Optional>::decode(bytes, at + n1) {
            Some(x) => x,
            None => {
                return None;
            },
        };
        Some((ServerMessage { event, room }, n1 + n2))
    }

    proof fn lemma_parse_wire(x: Self, rest: Seq<u8>) {
        let (a, b) = (x.event.wire(), x.room.wire());
        let bytes = x.wire() + rest;
        assert(bytes =~= a + (b + rest));
        ServerEvent::<T::ServerGameEvent>::lemma_parse_wire(x.event, b + rest);
        assert(bytes.subrange(a.len() as int, bytes.len() as int) =~= b + rest);
        Option::<T::Optional>::lemma_parse_wire(x.room, rest);
    }
}

/// What a client makes of a frame from the server: the message it starts
/// with, if any.
pub fn decode_server_message<T: RoomLogic + Networked>(bytes: &[u8]) -> (r: Option<ServerMessage<T>>) where
    T::ServerGameEvent: WireRead,
    T::Optional: WireRead,

    ensures
        r == match ServerMessage::<T>::parse(bytes@) {
            Some((m, _)) => Some(m),
            None => None,
        },
{
    proof {
        assert(bytes@.subrange(0, bytes@.len() as int) =~= bytes@);
    }
    match ServerMessage::<T>::decode(bytes, 0) {
        Some((m, _)) => Some(m),
        None => None,
    }
}

/// Reading back the wire form of a server message, whatever follows it,
/// gives the message: the format is the same in both directions.
pub proof fn law_server_message_round_trip<T: RoomLogic + Networked>(
    m: ServerMessage<T>,
    rest: Seq<u8>,
) where T::ServerGameEvent: WireRead, T::Optional: WireRead
    ensures
        ServerMessage::<T>::parse(m.wire() + rest) == Some((m, m.wire().len())),
{
    ServerMessage::<T>::lemma_parse_wire(m, rest);
}

/// What the server makes of a frame from a client: the event it starts with,
/// or `Unknown` where it starts with none.
pub fn decode_client_event<G: WireRead>(bytes: &[u8]) -> (r: ClientEvent<G>)
    ensures
        r == match ClientEvent::<G>::parse(bytes@) {
            Some((e, _)) => e,
            None => ClientEvent::Unknown,
        },
{
    proof {
        assert(bytes@.subrange(0, bytes@.len() as int) =~= bytes@);
    }
    match ClientEvent::<G>::decode(bytes, 0) {
        Some((e, _)) => e,
        None => ClientEvent::Unknown,
    }
}

/// The name in the opening frame of a new client, where that frame asks to
/// join.
pub fn join_name<G: WireRead>(bytes: &[u8]) -> (r: Option<[u8; NAME_LEN]>)
    ensures
        r == match ClientEvent::<G>::parse(bytes@) {
            Some((ClientEvent::JoinRoom { name }, _)) => Some(name),
            _ => None,
        },
{
    match decode_client_event::<G>(bytes) {
        ClientEvent::JoinRoom { name } => Some(name),
        _ => None,
    }
}

/// Reading back the wire form of a client event, whatever follows it, gives
/// the event.
pub proof fn law_client_event_round_trip<G: WireRead>(e: ClientEvent<G>, rest: Seq<u8>)
    ensures
        ClientEvent::<G>::parse(e.wire() + rest) == Some((e, e.wire().len())),
{
    ClientEvent::<G>::lemma_parse_wire(e, rest);
}

proof fn lemma_wire_all_le<T: Wire>(s: Seq<T>, t: Seq<T>)
    requires
        s.len() == t.len(),
        forall|i: int| 0 <= i < s.len() ==> (#[trigger] s[i]).wire().len() <= t[i].wire().len(),
    ensures
        wire_all(s).len() <= wire_all(t).len(),
        (exists|i: int| 0 <= i < s.len() && (#[trigger] s[i]).wire().len() < t[i].wire().len())
            ==> wire_all(s).len() < wire_all(t).len(),
    decreases s.len(),
{
    if s.len() > 0 {
        let (s0, t0) = (s.drop_last(), t.drop_last());
        assert forall|i: int| 0 <= i < s0.len() implies (#[trigger] s0[i]).wire().len()
            <= t0[i].wire().len() by {
            assert(s0[i] == s[i] && t0[i] == t[i]);
        }
        lemma_wire_all_le(s0, t0);
        if exists|i: int| 0 <= i < s.len() && (#[trigger] s[i]).wire().len() < t[i].wire().len() {
            let i = choose|i: int| 0 <= i < s.len() && (#[trigger] s[i]).wire().len() < t[i].wire().len();
            if i < s.len() - 1 {
                assert(s0[i] == s[i] && t0[i] == t[i]);
            }
        }
    }
}

proof fn lemma_wire_all_at_least_len<T: Wire>(s: Seq<T>)
    requires
        forall|i: int| 0 <= i < s.len() ==> (#[trigger] s[i]).wire().len() >= 1,
    ensures
        wire_all(s).len() >= s.len(),
    decreases s.len(),
{
    if s.len() > 0 {
        let s0 = s.drop_last();
        assert forall|i: int| 0 <= i < s0.len() implies (#[trigger] s0[i]).wire().len() >= 1 by {
            assert(s0[i] == s[i]);
        }
        lemma_wire_all_at_least_len(s0);
    }
}

proof fn lemma_player_delta_size(x: Player, y: Player)
    requires
        x.diff_spec(&y) is Some,
    ensures
        x.diff_spec(&y)->Some_0.wire().len() <= y.into_spec().wire().len(),
{
    let d = x.diff_spec(&y)->Some_0;
    let snap = y.into_spec();
    if let Some(names) = d.name {
        let entries = entry_diffs(x.name, y.name);
        lemma_array_of::<Option<u8>, NAME_LEN>(entries);
        let full = Seq::new(NAME_LEN as nat, |i: int| Some(y.name@[i].into_spec()));
        lemma_array_of::<Option<u8>, NAME_LEN>(full);
        assert(names@ == entries);
        assert(snap.name->Some_0@ == full);
        lemma_wire_all_le(entries, full);
    }
}

proof fn lemma_slot_delta_size(x: Option<Player>, y: Option<Player>)
    ensures
        x.diff_spec(&y).wire().len() <= Some(y.into_spec()).wire().len(),
        x == y ==> x.diff_spec(&y).wire().len() < Some(y.into_spec()).wire().len(),
{
    <Option<Player> as Networked>::lemma_diff_self(x);
    if let (Some(a), Some(b)) = (x, y) {
        if a.diff_spec(&b) is Some {
            lemma_player_delta_size(a, b);
        }
    }
}

/// A room delta never encodes to more bytes than a full snapshot of the new
/// state, and to fewer once the host or any player slot is unchanged: so a
/// change of one leaf costs less than sending the whole room.
pub proof fn law_delta_never_larger(x: Room, y: Room)
    ensures
        x.diff_spec(&y).wire().len() <= Some(y.into_spec()).wire().len(),
        (x.host == y.host || exists|j: int| 0 <= j < MAX_PLAYERS && x.players@[j] == y.players@[j])
            ==> x.diff_spec(&y).wire().len() < Some(y.into_spec()).wire().len(),
{
    let full = Seq::new(MAX_PLAYERS as nat, |j: int| Some(y.players@[j].into_spec()));
    lemma_array_of::<Option<Option<PlayerOptional>>, MAX_PLAYERS>(full);
    assert(y.into_spec().players->Some_0@ == full);
    assert forall|j: int| 0 <= j < full.len() implies (#[trigger] full[j]).wire().len() >= 1 by {}
    lemma_wire_all_at_least_len(full);
    let entries = entry_diffs(x.players, y.players);
    lemma_array_of::<Option<Option<PlayerOptional>>, MAX_PLAYERS>(entries);
    assert forall|j: int| 0 <= j < entries.len() implies (#[trigger] entries[j]).wire().len()
        <= full[j].wire().len() by {
        lemma_slot_delta_size(x.players@[j], y.players@[j]);
    }
    if exists|j: int| 0 <= j < MAX_PLAYERS && x.players@[j] == y.players@[j] {
        let j = choose|j: int| 0 <= j < MAX_PLAYERS && x.players@[j] == y.players@[j];
        lemma_slot_delta_size(x.players@[j], y.players@[j]);
        assert(entries[j].wire().len() < full[j].wire().len());
    }
    lemma_wire_all_le(entries, full);
    if let Some(o) = x.diff_spec(&y) {
        if let Some(d) = o.players {
            assert(d@ == entries);
        }
    }
}

} // verus!
