//! The delta model: every networked value has a companion "optional" type
//! that describes how one value changes into another.
use vstd::prelude::*;

verus! {

/// A value that can be compared with another of its type to give a delta,
/// brought forward by such a delta, and turned into a full snapshot.
pub trait Networked: Sized {
    /// The companion delta type.
    type Optional: Copy;

    /// The delta from `self` to `other`; `None` when nothing differs.
    spec fn diff_spec(&self, other: &Self) -> Option<Self::Optional>;

    /// `self` brought forward by `optional`.
    spec fn apply_spec(&self, optional: Self::Optional) -> Self;

    /// The full snapshot of `self`.
    spec fn into_spec(&self) -> Self::Optional;

    /// The value that `optional` describes, with defaults where it says nothing.
    spec fn from_spec(optional: Self::Optional) -> Self;

    /// The value a missing part is given.
    spec fn default_spec() -> Self;

    /// Brings `self` forward by `optional`; `None` leaves it as it is.
    fn update_from_optional(&mut self, optional: Option<Self::Optional>)
        ensures
            match optional {
                Some(d) => *final(self) == old(self).apply_spec(d),
                None => *final(self) == *old(self),
            },
    ;

    /// The delta that turns `self` into `other`, if they differ.
    fn differences_with(&self, other: &Self) -> (r: Option<Self::Optional>)
        ensures
            r == self.diff_spec(other),
    ;

    /// A full snapshot of `self`.
    fn into_optional(&self) -> (r: Self::Optional)
        ensures
            r == self.into_spec(),
    ;

    /// The value `optional` describes, with defaults where it says nothing.
    fn from_optional(optional: Self::Optional) -> (r: Self)
        ensures
            r == Self::from_spec(optional),
    ;

    /// The value a missing part is given.
    fn default_value() -> (r: Self)
        ensures
            r == Self::default_spec(),
    ;

    /// A value does not differ from itself.
    proof fn lemma_diff_self(x: Self)
        ensures
            x.diff_spec(&x) is None,
    ;

    /// No delta means equal values; a delta brings the first value to the second.
    proof fn lemma_diff_apply(x: Self, y: Self)
        ensures
            match x.diff_spec(&y) {
                None => x == y,
                Some(d) => x.apply_spec(d) == y,
            },
    ;

    /// A snapshot describes the value it was taken of.
    proof fn lemma_from_into(x: Self)
        ensures
            Self::from_spec(x.into_spec()) == x,
    ;

    /// A snapshot applied to any value gives the value it was taken of.
    proof fn lemma_apply_into(x: Self, y: Self)
        ensures
            x.apply_spec(y.into_spec()) == y,
    ;
}

/// `x` brought forward by an optional delta: unchanged where it is absent.
pub open spec fn apply_field<T: Networked>(x: T, optional: Option<T::Optional>) -> T {
    match optional {
        Some(d) => x.apply_spec(d),
        None => x,
    }
}

/// The value an optional delta describes on its own: the default where it is absent.
pub open spec fn from_field<T: Networked>(optional: Option<T::Optional>) -> T {
    match optional {
        Some(d) => T::from_spec(d),
        None => T::default_spec(),
    }
}

/// Comparing a value with itself finds no change.
pub proof fn law_diff_reflexive<T: Networked>(x: T)
    ensures
        x.diff_spec(&x) is None,
{
    T::lemma_diff_self(x);
}

/// No delta means equal values; otherwise applying the delta to the first
/// value gives the second.
pub proof fn law_diff_round_trip<T: Networked>(x: T, y: T)
    ensures
        x.diff_spec(&y) is None ==> x == y,
        x.diff_spec(&y) is Some ==> x.apply_spec(x.diff_spec(&y)->Some_0) == y,
        apply_field(x, x.diff_spec(&y)) == y,
{
    T::lemma_diff_apply(x, y);
}

/// Materialising a full snapshot gives the value back.
pub proof fn law_snapshot_fidelity<T: Networked>(x: T)
    ensures
        T::from_spec(x.into_spec()) == x,
{
    T::lemma_from_into(x);
}

/// Applying a full snapshot of `y` to any value gives `y`.
pub proof fn law_snapshot_overrides<T: Networked>(x: T, y: T)
    ensures
        x.apply_spec(y.into_spec()) == y,
{
    T::lemma_apply_into(x, y);
}

impl Networked for u8 {
    type Optional = u8;

    open spec fn diff_spec(&self, other: &Self) -> Option<u8> {
        if *self != *other { Some(*other) } else { None }
    }

    open spec fn apply_spec(&self, optional: u8) -> u8 {
        optional
    }

    open spec fn into_spec(&self) -> u8 {
        *self
    }

    open spec fn from_spec(optional: u8) -> u8 {
        optional
    }

    open spec fn default_spec() -> u8 {
        0
    }

    fn update_from_optional(&mut self, optional: Option<u8>) {
        if let Some(value) = optional {
            *self = value;
        }
    }

    fn differences_with(&self, other: &Self) -> (r: Option<u8>) {
        if *self != *other { Some(*other) } else { None }
    }

    fn into_optional(&self) -> (r: u8) {
        *self
    }

    fn from_optional(optional: u8) -> (r: u8) {
        optional
    }

    fn default_value() -> (r: u8) {
        0
    }

    proof fn lemma_diff_self(x: Self) {
    }

    proof fn lemma_diff_apply(x: Self, y: Self) {
    }

    proof fn lemma_from_into(x: Self) {
    }

    proof fn lemma_apply_into(x: Self, y: Self) {
    }
}

impl Networked for u16 {
    type Optional = u16;

    open spec fn diff_spec(&self, other: &Self) -> Option<u16> {
        if *self != *other { Some(*other) } else { None }
    }

    open spec fn apply_spec(&self, optional: u16) -> u16 {
        optional
    }

    open spec fn into_spec(&self) -> u16 {
        *self
    }

    open spec fn from_spec(optional: u16) -> u16 {
        optional
    }

    open spec fn default_spec() -> u16 {
        0
    }

    fn update_from_optional(&mut self, optional: Option<u16>) {
        if let Some(value) = optional {
            *self = value;
        }
    }

    fn differences_with(&self, other: &Self) -> (r: Option<u16>) {
        if *self != *other { Some(*other) } else { None }
    }

    fn into_optional(&self) -> (r: u16) {
        *self
    }

    fn from_optional(optional: u16) -> (r: u16) {
        optional
    }

    fn default_value() -> (r: u16) {
        0
    }

    proof fn lemma_diff_self(x: Self) {
    }

    proof fn lemma_diff_apply(x: Self, y: Self) {
    }

    proof fn lemma_from_into(x: Self) {
    }

    proof fn lemma_apply_into(x: Self, y: Self) {
    }
}

impl Networked for u32 {
    type Optional = u32;

    open spec fn diff_spec(&self, other: &Self) -> Option<u32> {
        if *self != *other { Some(*other) } else { None }
    }

    open spec fn apply_spec(&self, optional: u32) -> u32 {
        optional
    }

    open spec fn into_spec(&self) -> u32 {
        *self
    }

    open spec fn from_spec(optional: u32) -> u32 {
        optional
    }

    open spec fn default_spec() -> u32 {
        0
    }

    fn update_from_optional(&mut self, optional: Option<u32>) {
        if let Some(value) = optional {
            *self = value;
        }
    }

    fn differences_with(&self, other: &Self) -> (r: Option<u32>) {
        if *self != *other { Some(*other) } else { None }
    }

    fn into_optional(&self) -> (r: u32) {
        *self
    }

    fn from_optional(optional: u32) -> (r: u32) {
        optional
    }

    fn default_value() -> (r: u32) {
        0
    }

    proof fn lemma_diff_self(x: Self) {
    }

    proof fn lemma_diff_apply(x: Self, y: Self) {
    }

    proof fn lemma_from_into(x: Self) {
    }

    proof fn lemma_apply_into(x: Self, y: Self) {
    }
}

impl Networked for u64 {
    type Optional = u64;

    open spec fn diff_spec(&self, other: &Self) -> Option<u64> {
        if *self != *other { Some(*other) } else { None }
    }

    open spec fn apply_spec(&self, optional: u64) -> u64 {
        optional
    }

    open spec fn into_spec(&self) -> u64 {
        *self
    }

    open spec fn from_spec(optional: u64) -> u64 {
        optional
    }

    open spec fn default_spec() -> u64 {
        0
    }

    fn update_from_optional(&mut self, optional: Option<u64>) {
        if let Some(value) = optional {
            *self = value;
        }
    }

    fn differences_with(&self, other: &Self) -> (r: Option<u64>) {
        if *self != *other { Some(*other) } else { None }
    }

    fn into_optional(&self) -> (r: u64) {
        *self
    }

    fn from_optional(optional: u64) -> (r: u64) {
        optional
    }

    fn default_value() -> (r: u64) {
        0
    }

    proof fn lemma_diff_self(x: Self) {
    }

    proof fn lemma_diff_apply(x: Self, y: Self) {
    }

    proof fn lemma_from_into(x: Self) {
    }

    proof fn lemma_apply_into(x: Self, y: Self) {
    }
}

impl Networked for usize {
    type Optional = usize;

    open spec fn diff_spec(&self, other: &Self) -> Option<usize> {
        if *self != *other { Some(*other) } else { None }
    }

    open spec fn apply_spec(&self, optional: usize) -> usize {
        optional
    }

    open spec fn into_spec(&self) -> usize {
        *self
    }

    open spec fn from_spec(optional: usize) -> usize {
        optional
    }

    open spec fn default_spec() -> usize {
        0
    }

    fn update_from_optional(&mut self, optional: Option<usize>) {
        if let Some(value) = optional {
            *self = value;
        }
    }

    fn differences_with(&self, other: &Self) -> (r: Option<usize>) {
        if *self != *other { Some(*other) } else { None }
    }

    fn into_optional(&self) -> (r: usize) {
        *self
    }

    fn from_optional(optional: usize) -> (r: usize) {
        optional
    }

    fn default_value() -> (r: usize) {
        0
    }

    proof fn lemma_diff_self(x: Self) {
    }

    proof fn lemma_diff_apply(x: Self, y: Self) {
    }

    proof fn lemma_from_into(x: Self) {
    }

    proof fn lemma_apply_into(x: Self, y: Self) {
    }
}

impl Networked for i8 {
    type Optional = i8;

    open spec fn diff_spec(&self, other: &Self) -> Option<i8> {
        if *self != *other { Some(*other) } else { None }
    }

    open spec fn apply_spec(&self, optional: i8) -> i8 {
        optional
    }

    open spec fn into_spec(&self) -> i8 {
        *self
    }

    open spec fn from_spec(optional: i8) -> i8 {
        optional
    }

    open spec fn default_spec() -> i8 {
        0
    }

    fn update_from_optional(&mut self, optional: Option<i8>) {
        if let Some(value) = optional {
            *self = value;
        }
    }

    fn differences_with(&self, other: &Self) -> (r: Option<i8>) {
        if *self != *other { Some(*other) } else { None }
    }

    fn into_optional(&self) -> (r: i8) {
        *self
    }

    fn from_optional(optional: i8) -> (r: i8) {
        optional
    }

    fn default_value() -> (r: i8) {
        0
    }

    proof fn lemma_diff_self(x: Self) {
    }

    proof fn lemma_diff_apply(x: Self, y: Self) {
    }

    proof fn lemma_from_into(x: Self) {
    }

    proof fn lemma_apply_into(x: Self, y: Self) {
    }
}

impl Networked for i16 {
    type Optional = i16;

    open spec fn diff_spec(&self, other: &Self) -> Option<i16> {
        if *self != *other { Some(*other) } else { None }
    }

    open spec fn apply_spec(&self, optional: i16) -> i16 {
        optional
    }

    open spec fn into_spec(&self) -> i16 {
        *self
    }

    open spec fn from_spec(optional: i16) -> i16 {
        optional
    }

    open spec fn default_spec() -> i16 {
        0
    }

    fn update_from_optional(&mut self, optional: Option<i16>) {
        if let Some(value) = optional {
            *self = value;
        }
    }

    fn differences_with(&self, other: &Self) -> (r: Option<i16>) {
        if *self != *other { Some(*other) } else { None }
    }

    fn into_optional(&self) -> (r: i16) {
        *self
    }

    fn from_optional(optional: i16) -> (r: i16) {
        optional
    }

    fn default_value() -> (r: i16) {
        0
    }

    proof fn lemma_diff_self(x: Self) {
    }

    proof fn lemma_diff_apply(x: Self, y: Self) {
    }

    proof fn lemma_from_into(x: Self) {
    }

    proof fn lemma_apply_into(x: Self, y: Self) {
    }
}

impl Networked for i32 {
    type Optional = i32;

    open spec fn diff_spec(&self, other: &Self) -> Option<i32> {
        if *self != *other { Some(*other) } else { None }
    }

    open spec fn apply_spec(&self, optional: i32) -> i32 {
        optional
    }

    open spec fn into_spec(&self) -> i32 {
        *self
    }

    open spec fn from_spec(optional: i32) -> i32 {
        optional
    }

    open spec fn default_spec() -> i32 {
        0
    }

    fn update_from_optional(&mut self, optional: Option<i32>) {
        if let Some(value) = optional {
            *self = value;
        }
    }

    fn differences_with(&self, other: &Self) -> (r: Option<i32>) {
        if *self != *other { Some(*other) } else { None }
    }

    fn into_optional(&self) -> (r: i32) {
        *self
    }

    fn from_optional(optional: i32) -> (r: i32) {
        optional
    }

    fn default_value() -> (r: i32) {
        0
    }

    proof fn lemma_diff_self(x: Self) {
    }

    proof fn lemma_diff_apply(x: Self, y: Self) {
    }

    proof fn lemma_from_into(x: Self) {
    }

    proof fn lemma_apply_into(x: Self, y: Self) {
    }
}

impl Networked for i64 {
    type Optional = i64;

    open spec fn diff_spec(&self, other: &Self) -> Option<i64> {
        if *self != *other { Some(*other) } else { None }
    }

    open spec fn apply_spec(&self, optional: i64) -> i64 {
        optional
    }

    open spec fn into_spec(&self) -> i64 {
        *self
    }

    open spec fn from_spec(optional: i64) -> i64 {
        optional
    }

    open spec fn default_spec() -> i64 {
        0
    }

    fn update_from_optional(&mut self, optional: Option<i64>) {
        if let Some(value) = optional {
            *self = value;
        }
    }

    fn differences_with(&self, other: &Self) -> (r: Option<i64>) {
        if *self != *other { Some(*other) } else { None }
    }

    fn into_optional(&self) -> (r: i64) {
        *self
    }

    fn from_optional(optional: i64) -> (r: i64) {
        optional
    }

    fn default_value() -> (r: i64) {
        0
    }

    proof fn lemma_diff_self(x: Self) {
    }

    proof fn lemma_diff_apply(x: Self, y: Self) {
    }

    proof fn lemma_from_into(x: Self) {
    }

    proof fn lemma_apply_into(x: Self, y: Self) {
    }
}

impl Networked for bool {
    type Optional = bool;

    open spec fn diff_spec(&self, other: &Self) -> Option<bool> {
        if *self != *other { Some(*other) } else { None }
    }

    open spec fn apply_spec(&self, optional: bool) -> bool {
        optional
    }

    open spec fn into_spec(&self) -> bool {
        *self
    }

    open spec fn from_spec(optional: bool) -> bool {
        optional
    }

    open spec fn default_spec() -> bool {
        false
    }

    fn update_from_optional(&mut self, optional: Option<bool>) {
        if let Some(value) = optional {
            *self = value;
        }
    }

    fn differences_with(&self, other: &Self) -> (r: Option<bool>) {
        if *self != *other { Some(*other) } else { None }
    }

    fn into_optional(&self) -> (r: bool) {
        *self
    }

    fn from_optional(optional: bool) -> (r: bool) {
        optional
    }

    fn default_value() -> (r: bool) {
        false
    }

    proof fn lemma_diff_self(x: Self) {
    }

    proof fn lemma_diff_apply(x: Self, y: Self) {
    }

    proof fn lemma_from_into(x: Self) {
    }

    proof fn lemma_apply_into(x: Self, y: Self) {
    }
}

impl<T: Networked + Copy> Networked for Option<T> {
    type Optional = Option<T::Optional>;

    open spec fn diff_spec(&self, other: &Self) -> Option<Option<T::Optional>> {
        match (*self, *other) {
            (Some(a), Some(b)) => match a.diff_spec(&b) {
                Some(d) => Some(Some(d)),
                None => None,
            },
            (None, Some(b)) => Some(Some(b.into_spec())),
            (Some(_), None) => Some(None),
            (None, None) => None,
        }
    }

    open spec fn apply_spec(&self, optional: Option<T::Optional>) -> Option<T> {
        match (*self, optional) {
            (Some(a), Some(d)) => Some(a.apply_spec(d)),
            (None, Some(d)) => Some(T::from_spec(d)),
            (_, None) => None,
        }
    }

    open spec fn into_spec(&self) -> Option<T::Optional> {
        match *self {
            Some(a) => Some(a.into_spec()),
            None => None,
        }
    }

    open spec fn from_spec(optional: Option<T::Optional>) -> Option<T> {
        match optional {
            Some(d) => Some(T::from_spec(d)),
            None => None,
        }
    }

    open spec fn default_spec() -> Option<T> {
        None
    }

    fn update_from_optional(&mut self, optional: Option<Option<T::Optional>>) {
        if let Some(inner) = optional {
            match inner {
                Some(d) => {
                    match *self {
                        Some(current) => {
                            let mut current = current;
                            current.update_from_optional(Some(d));
                            *self = Some(current);
                        },
                        None => {
                            *self = Some(T::from_optional(d));
                        },
                    }
                },
                None => {
                    *self = None;
                },
            }
        }
    }

    fn differences_with(&self, other: &Self) -> (r: Option<Option<T::Optional>>) {
        match (self, other) {
            (Some(a), Some(b)) => match a.differences_with(b) {
                Some(d) => Some(Some(d)),
                None => None,
            },
            (None, Some(b)) => Some(Some(b.into_optional())),
            (Some(_), None) => Some(None),
            (None, None) => None,
        }
    }

    fn into_optional(&self) -> (r: Option<T::Optional>) {
        match self {
            Some(a) => Some(a.into_optional()),
            None => None,
        }
    }

    fn from_optional(optional: Option<T::Optional>) -> (r: Option<T>) {
        match optional {
            Some(d) => Some(T::from_optional(d)),
            None => None,
        }
    }

    fn default_value() -> (r: Option<T>) {
        None
    }

    proof fn lemma_diff_self(x: Self) {
        if let Some(a) = x {
            T::lemma_diff_self(a);
        }
    }

    proof fn lemma_diff_apply(x: Self, y: Self) {
        match (x, y) {
            (Some(a), Some(b)) => T::lemma_diff_apply(a, b),
            (None, Some(b)) => T::lemma_from_into(b),
            _ => {},
        }
    }

    proof fn lemma_from_into(x: Self) {
        if let Some(a) = x {
            T::lemma_from_into(a);
        }
    }

    proof fn lemma_apply_into(x: Self, y: Self) {
        match (x, y) {
            (Some(a), Some(b)) => T::lemma_apply_into(a, b),
            (None, Some(b)) => T::lemma_from_into(b),
            _ => {},
        }
    }
}

/// The array of length `N` whose first `k` entries are those of `s`, the rest
/// those of `base`.
pub open spec fn array_build<A, const N: usize>(base: [A; N], s: Seq<A>, k: nat) -> [A; N]
    decreases k,
{
    if k == 0 {
        base
    } else {
        vstd::array::spec_array_update(array_build(base, s, (k - 1) as nat), k - 1, s[k - 1])
    }
}

/// The array of length `N` whose entries are those of `s`.
pub open spec fn array_of<A, const N: usize>(s: Seq<A>) -> [A; N] {
    array_build(vstd::pervasive::arbitrary::<[A; N]>(), s, N as nat)
}

proof fn lemma_array_build<A, const N: usize>(base: [A; N], s: Seq<A>, k: nat)
    requires
        s.len() == N,
        k <= N,
    ensures
        array_build(base, s, k)@.len() == N,
        forall|i: int| 0 <= i < k ==> #[trigger] array_build(base, s, k)@[i] == s[i],
    decreases k,
{
    if k > 0 {
        lemma_array_build(base, s, (k - 1) as nat);
    }
}

/// An array is determined by its entries, and `array_of` has the entries asked for.
pub proof fn lemma_array_of<A, const N: usize>(s: Seq<A>)
    requires
        s.len() == N,
    ensures
        array_of::<A, N>(s)@ == s,
{
    lemma_array_build(vstd::pervasive::arbitrary::<[A; N]>(), s, N as nat);
    assert(array_of::<A, N>(s)@ =~= s);
}

/// Two arrays with the same entries are equal.
pub proof fn lemma_array_eq<A, const N: usize>(a: [A; N], b: [A; N])
    requires
        a@ == b@,
    ensures
        a == b,
{
    assert(a =~= b);
}

/// The entry-wise deltas between two arrays.
pub open spec fn entry_diffs<T: Networked, const N: usize>(x: [T; N], y: [T; N]) -> Seq<
    Option<T::Optional>,
> {
    Seq::new(N as nat, |i: int| x@[i].diff_spec(&y@[i]))
}

impl<T: Networked + Copy, const N: usize> Networked for [T; N] {
    type Optional = [Option<T::Optional>; N];

    open spec fn diff_spec(&self, other: &Self) -> Option<[Option<T::Optional>; N]> {
        if exists|i: int| 0 <= i < N && (#[trigger] self@[i].diff_spec(&other@[i])) is Some {
            Some(array_of(entry_diffs(*self, *other)))
        } else {
            None
        }
    }

    open spec fn apply_spec(&self, optional: [Option<T::Optional>; N]) -> [T; N] {
        array_of(Seq::new(N as nat, |i: int| apply_field(self@[i], optional@[i])))
    }

    open spec fn into_spec(&self) -> [Option<T::Optional>; N] {
        array_of(Seq::new(N as nat, |i: int| Some(self@[i].into_spec())))
    }

    open spec fn from_spec(optional: [Option<T::Optional>; N]) -> [T; N] {
        array_of(Seq::new(N as nat, |i: int| from_field::<T>(optional@[i])))
    }

    open spec fn default_spec() -> [T; N] {
        array_of(Seq::new(N as nat, |i: int| T::default_spec()))
    }

    fn update_from_optional(&mut self, optional: Option<[Option<T::Optional>; N]>) {
        if let Some(entries) = optional {
            let mut i: usize = 0;
            while i < N
                invariant
                    i <= N,
                    self@.len() == N,
                    entries@.len() == N,
                    old(self)@.len() == N,
                    forall|j: int| 0 <= j < i ==> self@[j] == apply_field(old(self)@[j], entries@[j]),
                    forall|j: int| i <= j < N ==> self@[j] == old(self)@[j],
                decreases N - i,
            {
                let mut current = self[i];
                current.update_from_optional(entries[i]);
                self[i] = current;
                i += 1;
            }
            proof {
                let s = Seq::new(N as nat, |j: int| apply_field(old(self)@[j], entries@[j]));
                lemma_array_of::<T, N>(s);
                assert(self@ =~= s);
                lemma_array_eq(*self, old(self).apply_spec(entries));
            }
        }
    }

    fn differences_with(&self, other: &Self) -> (r: Option<[Option<T::Optional>; N]>) {
        let mut acc: [Option<T::Optional>; N] = [None; N];
        let mut changed = false;
        let mut i: usize = 0;
        while i < N
            invariant
                i <= N,
                self@.len() == N,
                other@.len() == N,
                acc@.len() == N,
                forall|j: int| 0 <= j < i ==> acc@[j] == self@[j].diff_spec(&other@[j]),
                changed <==> exists|j: int|
                    0 <= j < i && (#[trigger] self@[j].diff_spec(&other@[j])) is Some,
            decreases N - i,
        {
            let d = self[i].differences_with(&other[i]);
            if d.is_some() {
                changed = true;
            }
            acc[i] = d;
            i += 1;
        }
        proof {
            let s = entry_diffs(*self, *other);
            lemma_array_of::<Option<T::Optional>, N>(s);
            assert(acc@ =~= s);
            lemma_array_eq(acc, array_of::<Option<T::Optional>, N>(s));
        }
        if changed {
            Some(acc)
        } else {
            None
        }
    }

    fn into_optional(&self) -> (r: [Option<T::Optional>; N]) {
        let mut acc: [Option<T::Optional>; N] = [None; N];
        let mut i: usize = 0;
        while i < N
            invariant
                i <= N,
                self@.len() == N,
                acc@.len() == N,
                forall|j: int| 0 <= j < i ==> acc@[j] == Some(self@[j].into_spec()),
            decreases N - i,
        {
            acc[i] = Some(self[i].into_optional());
            i += 1;
        }
        proof {
            let s = Seq::new(N as nat, |j: int| Some(self@[j].into_spec()));
            lemma_array_of::<Option<T::Optional>, N>(s);
            assert(acc@ =~= s);
            lemma_array_eq(acc, self.into_spec());
        }
        acc
    }

    fn from_optional(optional: [Option<T::Optional>; N]) -> (r: [T; N]) {
        let mut acc: [T; N] = [T::default_value(); N];
        let mut i: usize = 0;
        while i < N
            invariant
                i <= N,
                optional@.len() == N,
                acc@.len() == N,
                forall|j: int| 0 <= j < i ==> acc@[j] == from_field::<T>(optional@[j]),
            decreases N - i,
        {
            match optional[i] {
                Some(d) => {
                    acc[i] = T::from_optional(d);
                },
                None => {
                    acc[i] = T::default_value();
                },
            }
            i += 1;
        }
        proof {
            let s = Seq::new(N as nat, |j: int| from_field::<T>(optional@[j]));
            lemma_array_of::<T, N>(s);
            assert(acc@ =~= s);
            lemma_array_eq(acc, Self::from_spec(optional));
        }
        acc
    }

    fn default_value() -> (r: [T; N]) {
        let acc: [T; N] = [T::default_value(); N];
        proof {
            let s = Seq::new(N as nat, |j: int| T::default_spec());
            lemma_array_of::<T, N>(s);
            assert(acc@ =~= s);
            lemma_array_eq(acc, Self::default_spec());
        }
        acc
    }

    proof fn lemma_diff_self(x: Self) {
        assert forall|i: int| 0 <= i < N implies (#[trigger] x@[i].diff_spec(&x@[i])) is None by {
            T::lemma_diff_self(x@[i]);
        }
    }

    proof fn lemma_diff_apply(x: Self, y: Self) {
        assert forall|i: int| 0 <= i < N implies apply_field(
            x@[i],
            #[trigger] x@[i].diff_spec(&y@[i]),
        ) == y@[i] by {
            T::lemma_diff_apply(x@[i], y@[i]);
        }
        let s = entry_diffs(x, y);
        lemma_array_of::<Option<T::Optional>, N>(s);
        match x.diff_spec(&y) {
            None => {
                assert forall|i: int| 0 <= i < N implies x@[i] == y@[i] by {
                    assert(x@[i].diff_spec(&y@[i]) is None);
                    T::lemma_diff_apply(x@[i], y@[i]);
                }
                assert(x@ =~= y@);
                lemma_array_eq(x, y);
            },
            Some(d) => {
                let t = Seq::new(N as nat, |i: int| apply_field(x@[i], d@[i]));
                lemma_array_of::<T, N>(t);
                assert(x.apply_spec(d)@ =~= y@);
                lemma_array_eq(x.apply_spec(d), y);
            },
        }
    }

    proof fn lemma_from_into(x: Self) {
        let s = Seq::new(N as nat, |i: int| Some(x@[i].into_spec()));
        lemma_array_of::<Option<T::Optional>, N>(s);
        let o = x.into_spec();
        let t = Seq::new(N as nat, |i: int| from_field::<T>(o@[i]));
        lemma_array_of::<T, N>(t);
        assert forall|i: int| 0 <= i < N implies #[trigger] t[i] == x@[i] by {
            T::lemma_from_into(x@[i]);
        }
        assert(Self::from_spec(o)@ =~= x@);
        lemma_array_eq(Self::from_spec(o), x);
    }

    proof fn lemma_apply_into(x: Self, y: Self) {
        let s = Seq::new(N as nat, |i: int| Some(y@[i].into_spec()));
        lemma_array_of::<Option<T::Optional>, N>(s);
        let o = y.into_spec();
        let t = Seq::new(N as nat, |i: int| apply_field(x@[i], o@[i]));
        lemma_array_of::<T, N>(t);
        assert forall|i: int| 0 <= i < N implies #[trigger] t[i] == y@[i] by {
            T::lemma_apply_into(x@[i], y@[i]);
        }
        assert(x.apply_spec(o)@ =~= y@);
        lemma_array_eq(x.apply_spec(o), y);
    }
}

/// The delta of an array is made of the deltas of its entries: absent exactly
/// when every entry is unchanged, and otherwise holding each entry's delta.
pub proof fn law_array_diff_composes<T: Networked + Copy, const N: usize>(x: [T; N], y: [T; N])
    ensures
        x.diff_spec(&y) is None <==> forall|i: int|
            0 <= i < N ==> (#[trigger] x@[i].diff_spec(&y@[i])) is None,
        x.diff_spec(&y) is Some ==> forall|i: int|
            0 <= i < N ==> (#[trigger] x.diff_spec(&y)->Some_0@[i]) == x@[i].diff_spec(&y@[i]),
{
    lemma_array_of::<Option<T::Optional>, N>(entry_diffs(x, y));
}

} // verus!
