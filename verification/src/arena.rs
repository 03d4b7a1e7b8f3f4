use crate::iter::{slot_key, slots_valid, IterKeyed, IterKeyedMut, Keys};
use vstd::prelude::*;
use vstd::std_specs::cmp::PartialEqSpec;
use vstd::std_specs::iter::IteratorSpec;

verus! {

/// Handle to a value stored in an [`Arena`]: the slot the value occupies and
/// the generation of that slot at the time the value was stored.
#[derive(Copy, Clone, Debug, PartialEq, Eq)]
pub struct Key {
    idx: u32,
    ver: u32,
}

impl Key {
    /// Generations start at one and never go back to zero.
    #[verifier::type_invariant]
    spec fn nonzero_generation(self) -> bool {
        self.ver != 0
    }

    /// The slot index of this key.
    pub closed spec fn spec_idx(&self) -> u32 {
        self.idx
    }

    /// The generation of this key.
    pub closed spec fn spec_ver(&self) -> u32 {
        self.ver
    }

    /// The key with the given slot index and generation.
    pub closed spec fn from_parts(idx: u32, ver: u32) -> Key {
        Key { idx, ver }
    }

    /// The slot index and generation of a key built from them.
    pub broadcast proof fn lemma_from_parts(idx: u32, ver: u32)
        ensures
            (#[trigger] Key::from_parts(idx, ver)).spec_idx() == idx,
            Key::from_parts(idx, ver).spec_ver() == ver,
    {
    }

    /// A key is determined by its slot index and its generation.
    pub broadcast proof fn lemma_parts_determine(k: Key)
        ensures
            k == Key::from_parts(#[trigger] k.spec_idx(), k.spec_ver()),
    {
    }

    /// Both facts about keys and their parts.
    pub broadcast group group_key_parts {
        Key::lemma_from_parts,
        Key::lemma_parts_determine,
    }

    /// Builds a key from a slot index and a (non-zero) generation.
    pub fn new(idx: u32, ver: u32) -> (k: Key)
        requires
            ver != 0,
        ensures
            k == Key::from_parts(idx, ver),
            k.idx() == idx,
            k.ver() == ver,
        no_unwind
    {
        Key { idx, ver }
    }

    /// Returns the index of the key in the arena's internal vector.
    #[verifier::when_used_as_spec(spec_idx)]
    pub fn idx(&self) -> (r: u32)
        ensures
            r == self.spec_idx(),
    {
        self.idx
    }

    /// Returns the version (generation) of the key; it is never zero.
    #[verifier::when_used_as_spec(spec_ver)]
    pub fn ver(&self) -> (r: u32)
        ensures
            r == self.spec_ver(),
            r != 0,
    {
        proof {
            use_type_invariant(self);
        }
        self.ver
    }

    /// Returns the index and the version of the key.
    pub fn parts(&self) -> (r: (u32, u32))
        ensures
            r == (self.spec_idx(), self.spec_ver()),
            r.1 != 0,
    {
        proof {
            use_type_invariant(self);
        }
        (self.idx, self.ver)
    }

    /// The unique 64-bit representation of the key: the version in the high
    /// half and the index in the low half.
    pub fn as_u64(&self) -> (r: u64)
        ensures
            r == self.spec_ver() * 0x1_0000_0000 + self.spec_idx(),
    {
        let v: u64 = self.ver as u64;
        let i: u64 = self.idx as u64;
        let r: u64 = (v << 32u64) | i;
        assert(r == v * 0x1_0000_0000 + i) by (bit_vector)
            requires
                v < 0x1_0000_0000,
                i < 0x1_0000_0000,
                r == (v << 32u64) | i,
        ;
        r
    }
}


impl core::hash::Hash for Key {
    /// Feeds the key to the hasher as one `u64`: the generation in the high
    /// half and the index in the low half, so a hashing-free hasher can use
    /// it as is.
    fn hash<H: core::hash::Hasher>(&self, state: &mut H) {
        hasher_write_u64(state, self.as_u64());
    }
}

/// `Hasher::write_u64`: feeds one `u64` into the hasher. What the hasher
/// does with it is the hasher's own; nothing is claimed of its new state.
#[verifier::external_body]
fn hasher_write_u64<H: core::hash::Hasher>(state: &mut H, v: u64) {
    state.write_u64(v);
}

/// The generation that follows `v`: one more, or `v` itself once the counter
/// has reached `u32::MAX`.
pub open spec fn next_generation(v: u32) -> u32 {
    if v == u32::MAX {
        v
    } else {
        (v + 1) as u32
    }
}

/// A generational arena.
///
/// Values are stored densely in `data`. Every value occupies a slot; `inner`
/// lists the slot of each dense position (and, past the live values, the free
/// slots in the order they will be reused), `outers` maps a live slot back to
/// its dense position, and `versions` holds the current generation of each slot.
/// `room` is the capacity of `data` as its storage reports it; it is read
/// again whenever the storage may have grown.
pub struct Arena<T> {
    outers: Vec<u32>,
    versions: Vec<u32>,
    data: Vec<T>,
    inner: Vec<u32>,
    room: usize,
}

impl<T> Arena<T> {
    /// The stored values in dense storage order.
    pub closed spec fn values(&self) -> Seq<T> {
        self.data@
    }

    /// The slot of each dense position: the first `len()` entries are the
    /// slots of the stored values, the rest are the free slots in the order
    /// in which `insert` reuses them.
    pub closed spec fn order(&self) -> Seq<u32> {
        self.inner@
    }

    /// The current generation of each slot.
    pub closed spec fn generations(&self) -> Seq<u32> {
        self.versions@
    }

    /// How many values the storage holds without growing.
    pub closed spec fn spec_capacity(&self) -> usize {
        self.room
    }

    /// The dense position of a live slot.
    pub closed spec fn position(&self, slot: int) -> int {
        self.outers@[slot] as int
    }

    /// Number of slots ever handed out.
    pub open spec fn slot_count(&self) -> nat {
        self.order().len()
    }

    /// Number of stored values.
    pub open spec fn spec_len(&self) -> nat {
        self.values().len()
    }

    /// The key of the value at dense position `i`.
    pub open spec fn key_at(&self, i: int) -> Key {
        Key::from_parts(self.order()[i], self.generations()[self.order()[i] as int])
    }

    /// The key the next insertion hands out: the first free slot with its
    /// current generation, or a fresh slot with generation one.
    pub open spec fn next_key(&self) -> Key {
        if self.spec_len() < self.slot_count() {
            self.key_at(self.spec_len() as int)
        } else {
            Key::from_parts(self.slot_count() as u32, 1)
        }
    }

    /// Whether `k` belongs to a past generation of an existing slot: its
    /// value was removed or cleared and the slot has moved on.
    pub open spec fn retired(&self, k: Key) -> bool {
        &&& k.spec_idx() < self.slot_count()
        &&& k.spec_ver() < self.generations()[k.spec_idx() as int]
    }

    /// Internal consistency of the four vectors.
    pub closed spec fn wf(&self) -> bool {
        let n = self.inner@.len();
        &&& self.outers@.len() == n
        &&& self.versions@.len() == n
        &&& self.data@.len() <= n
        &&& self.data@.len() <= self.room
        &&& n <= u32::MAX
        &&& forall|i: int| 0 <= i < n ==> #[trigger] self.inner@[i] < n
        &&& forall|i: int, j: int|
            0 <= i < n && 0 <= j < n && i != j ==> #[trigger] self.inner@[i] != #[trigger] self.inner@[j]
        &&& forall|i: int| 0 <= i < self.data@.len() ==> self.outers@[#[trigger] self.inner@[i] as int] == i
        &&& forall|s: int| 0 <= s < n ==> #[trigger] self.versions@[s] != 0
    }

    /// Whether `k` addresses a stored value: its slot is live and its
    /// generation is the slot's current one.
    spec fn holds(&self, k: Key) -> bool {
        let s = k.idx as int;
        &&& 0 <= s < self.inner@.len()
        &&& self.outers@[s] < self.data@.len()
        &&& self.inner@[self.outers@[s] as int] == k.idx
        &&& self.versions@[s] == k.ver
    }

    /// The arena as a map from the keys that are valid to their values.
    pub closed spec fn view(&self) -> Map<Key, T> {
        Map::new(|k: Key| self.holds(k), |k: Key| self.data@[self.outers@[k.idx as int] as int])
    }

    /// The valid keys are exactly the keys of the stored values, each value
    /// stored under the key of its dense position.
    pub proof fn lemma_view(&self)
        requires
            self.wf(),
        ensures
            forall|i: int|
                0 <= i < self.spec_len() ==> {
                    &&& #[trigger] self@.contains_key(self.key_at(i))
                    &&& self@[self.key_at(i)] == self.values()[i]
                    &&& self.position(self.order()[i] as int) == i
                },
            forall|k: Key|
                #[trigger] self@.contains_key(k) ==> {
                    &&& 0 <= self.position(k.spec_idx() as int) < self.spec_len()
                    &&& self.key_at(self.position(k.spec_idx() as int)) == k
                },
            forall|i: int| 0 <= i < self.slot_count() ==> #[trigger] self.order()[i] < self.slot_count(),
            forall|s: int| 0 <= s < self.slot_count() ==> #[trigger] self.generations()[s] != 0,
            self.slot_count() == self.generations().len(),
            self.spec_len() <= self.slot_count(),
            self.spec_len() <= self.spec_capacity(),
    {
        broadcast use Key::group_key_parts;
        assert forall|i: int| 0 <= i < self.spec_len() implies {
            &&& #[trigger] self@.contains_key(self.key_at(i))
            &&& self@[self.key_at(i)] == self.values()[i]
            &&& self.position(self.order()[i] as int) == i
        } by {
            assert(self.holds(self.key_at(i)));
        }
        assert forall|k: Key| #[trigger] self@.contains_key(k) implies {
            &&& 0 <= self.position(k.spec_idx() as int) < self.spec_len()
            &&& self.key_at(self.position(k.spec_idx() as int)) == k
        } by {
            assert(self.holds(k));
        }
    }

    /// Creates a new empty `Arena`.
    pub fn new() -> (a: Arena<T>)
        ensures
            a.wf(),
            a@ == Map::<Key, T>::empty(),
            a.values() == Seq::<T>::empty(),
            a.order() == Seq::<u32>::empty(),
            a.generations() == Seq::<u32>::empty(),
            a.spec_capacity() >= 32,
    {
        Self::with_capacity(32)
    }

    /// Creates a new empty `Arena` that asks its storage for room for
    /// `capacity` values up front.
    pub fn with_capacity(capacity: usize) -> (a: Arena<T>)
        ensures
            a.wf(),
            a@ == Map::<Key, T>::empty(),
            a.values() == Seq::<T>::empty(),
            a.order() == Seq::<u32>::empty(),
            a.generations() == Seq::<u32>::empty(),
            a.spec_capacity() >= capacity,
    {
        let data = Vec::with_capacity(capacity);
        // The storage promises room for at least the requested number of
        // values, so the larger of the two figures is the one it reports.
        let reported = vec_capacity(&data);
        let room = if reported < capacity { capacity } else { reported };
        let a = Arena {
            outers: Vec::with_capacity(capacity),
            versions: Vec::with_capacity(capacity),
            data,
            inner: Vec::with_capacity(capacity),
            room,
        };
        assert(a@ =~= Map::<Key, T>::empty());
        a
    }

    /// Returns the number of elements in the arena.
    pub fn len(&self) -> (r: usize)
        ensures
            r == self.spec_len(),
    {
        self.data.len()
    }

    /// Returns `true` if the arena is empty.
    pub fn is_empty(&self) -> (r: bool)
        ensures
            r <==> self.spec_len() == 0,
    {
        self.data.is_empty()
    }

    /// The dense position of the value `key` addresses, or `None` if the key
    /// is invalid; no indexing can go out of bounds.
    fn live_at(&self, key: Key) -> (r: Option<usize>)
        requires
            self.wf(),
        ensures
            r is Some <==> self.holds(key),
            r is Some ==> r->0 == self.outers@[key.idx as int] && r->0 < self.data@.len(),
    {
        let s = key.idx as usize;
        if s >= self.versions.len() {
            return None;
        }
        if self.versions[s] != key.ver {
            return None;
        }
        let p = self.outers[s] as usize;
        if p < self.data.len() && self.inner[p] == key.idx {
            Some(p)
        } else {
            None
        }
    }

    /// Returns a reference to the value associated with the key, or `None`
    /// if the key is invalid.
    pub fn get(&self, key: Key) -> (r: Option<&T>)
        requires
            self.wf(),
        ensures
            r == (if self@.contains_key(key) { Some(&self@[key]) } else { None }),
    {
        match self.live_at(key) {
            Some(p) => Some(&self.data[p]),
            None => None,
        }
    }

    /// Returns a reference to the value associated with the key, or `None`
    /// if the key is invalid. The key's slot must exist in the arena.
    pub fn get_unchecked(&self, key: Key) -> (r: Option<&T>)
        requires
            self.wf(),
            key.spec_idx() < self.slot_count(),
        ensures
            r == (if self@.contains_key(key) { Some(&self@[key]) } else { None }),
    {
        let s = key.idx as usize;
        if self.versions[s] != key.ver {
            return None;
        }
        let outer = self.outers[s] as usize;
        if outer < self.data.len() && self.inner[outer] == key.idx {
            Some(&self.data[outer])
        } else {
            None
        }
    }

    /// Returns a mutable reference to the value associated with the key, or
    /// `None` if the key is invalid. The key's slot must exist in the arena.
    pub fn get_unchecked_mut(&mut self, key: Key) -> (r: Option<&mut T>)
        requires
            old(self).wf(),
            key.spec_idx() < old(self).slot_count(),
        ensures
            final(self).wf(),
            old(self)@.contains_key(key) ==> {
                &&& r is Some
                &&& 0 <= old(self).position(key.spec_idx() as int) < old(self).spec_len()
                &&& *r->0 == old(self)@[key]
                &&& final(self)@ == old(self)@.insert(key, *final(r->0))
                &&& final(self).values() == old(self).values().update(
                    old(self).position(key.spec_idx() as int),
                    *final(r->0),
                )
                &&& final(self).order() == old(self).order()
                &&& final(self).generations() == old(self).generations()
                &&& final(self).spec_capacity() == old(self).spec_capacity()
            },
            !old(self)@.contains_key(key) ==> r is None && *final(self) == *old(self),
    {
        let s = key.idx as usize;
        if self.versions[s] != key.ver {
            return None;
        }
        let outer = self.outers[s] as usize;
        if outer < self.data.len() && self.inner[outer] == key.idx {
            Some(&mut self.data[outer])
        } else {
            None
        }
    }

    /// Returns `true` if the value is present.
    pub fn contains(&self, value: &T) -> (r: bool) where T: PartialEq<T>
        requires
            self.wf(),
        ensures
            T::obeys_eq_spec() ==> (r <==> exists|i: int|
                0 <= i < self.spec_len() && #[trigger] self.values()[i].eq_spec(value)),
            T::obeys_eq_spec() ==> (r <==> exists|k: Key|
                self@.contains_key(k) && #[trigger] self@[k].eq_spec(value)),
    {
        proof {
            self.lemma_view();
            assert((exists|i: int| 0 <= i < self.spec_len() && #[trigger] self.values()[i].eq_spec(value))
                <==> (exists|k: Key| self@.contains_key(k) && #[trigger] self@[k].eq_spec(value))) by {
                if exists|k: Key| self@.contains_key(k) && #[trigger] self@[k].eq_spec(value) {
                    let k = choose|k: Key| self@.contains_key(k) && #[trigger] self@[k].eq_spec(value);
                    let p = self.position(k.spec_idx() as int);
                    assert(self.values()[p].eq_spec(value));
                }
                if exists|i: int| 0 <= i < self.spec_len() && #[trigger] self.values()[i].eq_spec(value) {
                    let i = choose|i: int| 0 <= i < self.spec_len() && #[trigger] self.values()[i].eq_spec(value);
                    assert(self@.contains_key(self.key_at(i)));
                    assert(self@[self.key_at(i)].eq_spec(value));
                }
            }
        }
        let n = self.data.len();
        let mut i: usize = 0;
        while i < n
            invariant
                0 <= i <= n,
                n == self.data@.len(),
                T::obeys_eq_spec() ==> forall|j: int| 0 <= j < i ==> !#[trigger] self.values()[j].eq_spec(value),
                (exists|j: int| 0 <= j < self.spec_len() && #[trigger] self.values()[j].eq_spec(value))
                    <==> (exists|k: Key| self@.contains_key(k) && #[trigger] self@[k].eq_spec(value)),
            decreases n - i,
        {
            if self.data[i] == *value {
                assert(T::obeys_eq_spec() ==> self.values()[i as int].eq_spec(value));
                return true;
            }
            i = i + 1;
        }
        false
    }

    /// Returns `true` if the key is valid and the value is present.
    pub fn contains_key(&self, key: Key) -> (r: bool)
        requires
            self.wf(),
        ensures
            r == self@.contains_key(key),
    {
        self.live_at(key).is_some()
    }

    /// What an insertion of `value` that hands out `key` does to `old`,
    /// giving `new`: the key is the one `next_key` announced and was not
    /// valid before, the value is appended to the dense storage, a fresh slot
    /// (generation one) is added only when no slot was free, and the map view
    /// gains exactly the new entry. While there was room, the capacity stays;
    /// it never falls below the number of values.
    pub open spec fn inserted(old: Self, new: Self, key: Key, value: T) -> bool {
        &&& key == old.next_key()
        &&& !old@.contains_key(key)
        &&& new@ == old@.insert(key, value)
        &&& new.values() == old.values().push(value)
        &&& if old.spec_len() < old.slot_count() {
            &&& new.order() == old.order()
            &&& new.generations() == old.generations()
        } else {
            &&& new.order() == old.order().push(old.slot_count() as u32)
            &&& new.generations() == old.generations().push(1)
        }
        &&& old.spec_len() < old.spec_capacity() ==> new.spec_capacity() == old.spec_capacity()
        &&& new.spec_len() <= new.spec_capacity()
    }

    /// Appends `value` to the dense storage, reading the storage's capacity
    /// again when it had to grow.
    fn push_value(&mut self, value: T)
        requires
            old(self).data@.len() <= old(self).room,
        ensures
            final(self).data@ == old(self).data@.push(value),
            final(self).outers == old(self).outers,
            final(self).versions == old(self).versions,
            final(self).inner == old(self).inner,
            final(self).data@.len() <= final(self).room,
            old(self).data@.len() < old(self).room ==> final(self).room == old(self).room,
    {
        let full = self.data.len() == self.room;
        self.data.push(value);
        if full {
            self.room = vec_capacity(&self.data);
        }
    }

    /// Picks the slot for the value about to be appended at dense position
    /// `len()` and returns its key; the value itself is pushed by the caller.
    fn claim_slot(&mut self) -> (key: Key)
        requires
            old(self).wf(),
            old(self).spec_len() < u32::MAX,
        ensures
            key == old(self).next_key(),
            final(self).data == old(self).data,
            final(self).room == old(self).room,
            ({
                let n = old(self).inner@.len();
                let len = old(self).data@.len();
                if len < n {
                    &&& final(self).inner == old(self).inner
                    &&& final(self).versions == old(self).versions
                    &&& final(self).outers@ == old(self).outers@.update(old(self).inner@[len as int] as int, len as u32)
                } else {
                    &&& final(self).inner@ == old(self).inner@.push(len as u32)
                    &&& final(self).versions@ == old(self).versions@.push(1)
                    &&& final(self).outers@ == old(self).outers@.push(len as u32)
                }
            }),
    {
        broadcast use Key::group_key_parts;
        let index = self.data.len() as u32;
        if self.data.len() == self.outers.len() {
            self.outers.push(index);
            self.versions.push(1);
            self.inner.push(index);
            Key { idx: index, ver: 1 }
        } else {
            let key_index = self.inner[index as usize];
            self.outers.set(key_index as usize, index);
            let ver = self.versions[key_index as usize];
            Key { idx: key_index, ver }
        }
    }

    /// The effect of `claim_slot` followed by pushing `value` is an insertion.
    proof fn lemma_claim_then_push(old: Self, new: Self, key: Key, value: T)
        requires
            old.wf(),
            old.spec_len() < u32::MAX,
            key == old.next_key(),
            new.data@ == old.data@.push(value),
            new.data@.len() <= new.room,
            old.data@.len() < old.room ==> new.room == old.room,
            ({
                let n = old.inner@.len();
                let len = old.data@.len();
                if len < n {
                    &&& new.inner == old.inner
                    &&& new.versions == old.versions
                    &&& new.outers@ == old.outers@.update(old.inner@[len as int] as int, len as u32)
                } else {
                    &&& new.inner@ == old.inner@.push(len as u32)
                    &&& new.versions@ == old.versions@.push(1)
                    &&& new.outers@ == old.outers@.push(len as u32)
                }
            }),
        ensures
            new.wf(),
            Self::inserted(old, new, key, value),
    {
        broadcast use Key::group_key_parts;
        let len = old.data@.len();
        let n = old.inner@.len();
        let slot = key.idx as int;
        assert forall|k: Key| #[trigger] new.holds(k) == (old.holds(k) || k == key) by {
            if k.idx as int != slot {
                if new.holds(k) {
                    assert(new.outers@[k.idx as int] == old.outers@[k.idx as int]);
                }
            }
        }
        assert(new@ =~= old@.insert(key, value)) by {
            assert forall|k: Key| #[trigger] new@.contains_key(k) implies new@[k] == old@.insert(key, value)[k] by {
                if k != key {
                    assert(old.holds(k));
                }
            }
        }
    }

    /// Inserts a value into the arena and returns the key it is stored under.
    pub fn insert(&mut self, value: T) -> (key: Key)
        requires
            old(self).wf(),
            old(self).spec_len() < u32::MAX,
        ensures
            final(self).wf(),
            Self::inserted(*old(self), *final(self), key, value),
    {
        let ghost old_self = *self;
        let key = self.claim_slot();
        self.push_value(value);
        proof {
            Self::lemma_claim_then_push(old_self, *self, key, value);
        }
        key
    }

    /// What a removal of `key` that returns `r` does to `old`, giving `new`.
    /// A valid key gives back its value and leaves the map view without it;
    /// its slot's generation advances; the last stored value moves into the
    /// vacated dense position (as `Vec::swap_remove` does) and the vacated
    /// slot becomes the first free one. Any other key changes nothing.
    pub open spec fn removed(old: Self, new: Self, key: Key, r: Option<T>) -> bool {
        if old@.contains_key(key) {
            let p = old.position(key.spec_idx() as int);
            let last = old.spec_len() - 1;
            &&& 0 <= p <= last
            &&& old.order()[p] == key.spec_idx()
            &&& r == Some(old@[key])
            &&& new@ == old@.remove(key)
            &&& new.generations() == old.generations().update(
                key.spec_idx() as int,
                next_generation(key.spec_ver()),
            )
            &&& new.values() == old.values().update(p, old.values()[last]).drop_last()
            &&& new.order() == old.order().update(p, old.order()[last]).update(last, key.spec_idx())
            &&& new.spec_capacity() == old.spec_capacity()
        } else {
            &&& r is None
            &&& new == old
        }
    }

    /// Removes a value from the arena. Returns the removed value, or `None`
    /// if the key is invalid.
    pub fn remove(&mut self, key: Key) -> (r: Option<T>)
        requires
            old(self).wf(),
        ensures
            final(self).wf(),
            Self::removed(*old(self), *final(self), key, r),
    {
        broadcast use Key::group_key_parts;
        let ghost old_self = *self;
        proof {
            old_self.lemma_view();
        }
        let remove_index = match self.live_at(key) {
            Some(p) => p,
            None => return None,
        };
        let s = key.idx as usize;
        let version = self.versions[s];
        self.versions.set(s, version.saturating_add(1));
        let removed = self.data.swap_remove(remove_index);
        let last = self.data.len();
        let update_index = self.inner[last];
        self.inner.set(last, key.idx);
        self.inner.set(remove_index, update_index);
        self.outers.set(update_index as usize, remove_index as u32);
        proof {
            let new = *self;
            let old = old_self;
            assert forall|k: Key| #[trigger] new.holds(k) == (old.holds(k) && k != key) by {
                let t = k.idx as int;
                if t != s as int && t == update_index as int {
                    assert(old.outers@[t] == last);
                }
            }
            assert(new@ =~= old@.remove(key)) by {
                assert forall|k: Key| #[trigger] new@.contains_key(k) implies new@[k] == old@[k] by {
                    assert(old.holds(k));
                    let t = k.idx as int;
                    if t == update_index as int {
                        assert(old.outers@[t] == last);
                    }
                }
            }
            assert(new.values() =~= old.values().update(remove_index as int, old.values()[last as int]).drop_last());
            assert(new.order() =~= old.order().update(remove_index as int, old.order()[last as int]).update(last as int, key.spec_idx()));
            assert(new.generations() =~= old.generations().update(key.spec_idx() as int, next_generation(key.spec_ver())));
        }
        Some(removed)
    }

    /// What `clear` does to `old`, giving `new`: no value is left, every
    /// slot's generation advances, and the free slots are reused in index order.
    pub open spec fn cleared(old: Self, new: Self) -> bool {
        &&& new@ == Map::<Key, T>::empty()
        &&& new.spec_capacity() == old.spec_capacity()
        &&& new.values() == Seq::<T>::empty()
        &&& new.slot_count() == old.slot_count()
        &&& forall|i: int| 0 <= i < new.slot_count() ==> #[trigger] new.order()[i] == i
        &&& new.generations().len() == old.generations().len()
        &&& forall|s: int|
            0 <= s < new.generations().len() ==> #[trigger] new.generations()[s] == next_generation(
                old.generations()[s],
            )
    }

    /// Clears the arena, removing all elements.
    /// This increments the version counter for all slots.
    pub fn clear(&mut self)
        requires
            old(self).wf(),
        ensures
            final(self).wf(),
            Self::cleared(*old(self), *final(self)),
    {
        let ghost old_self = *self;
        self.data.clear();
        let n = self.versions.len();
        let mut i: usize = 0;
        while i < n
            invariant
                0 <= i <= n,
                n == self.versions@.len(),
                self.versions@.len() == old_self.versions@.len(),
                forall|j: int| 0 <= j < i ==> #[trigger] self.versions@[j] == next_generation(old_self.versions@[j]),
                forall|j: int| i <= j < n ==> #[trigger] self.versions@[j] == old_self.versions@[j],
                self.inner == old_self.inner,
                self.outers == old_self.outers,
                self.data@.len() == 0,
                self.room == old_self.room,
            decreases n - i,
        {
            let v = self.versions[i];
            self.versions.set(i, v.saturating_add(1));
            i = i + 1;
        }
        let m = self.inner.len();
        let mut j: usize = 0;
        while j < m
            invariant
                0 <= j <= m,
                m == self.inner@.len(),
                m <= u32::MAX,
                forall|t: int| 0 <= t < j ==> #[trigger] self.inner@[t] == t as u32,
                forall|t: int| 0 <= t < m ==> #[trigger] self.inner@[t] < m,
                self.outers@.len() == m,
                self.versions@.len() == m,
                forall|t: int| 0 <= t < m ==> #[trigger] self.versions@[t] != 0,
                self.data@.len() == 0,
                self.room == old_self.room,
                self.versions@.len() == old_self.versions@.len(),
                forall|t: int| 0 <= t < m ==> #[trigger] self.versions@[t] == next_generation(old_self.versions@[t]),
            decreases m - j,
        {
            self.inner.set(j, j as u32);
            j = j + 1;
        }
        proof {
            assert forall|a: int, b: int|
                0 <= a < m && 0 <= b < m && a != b implies #[trigger] self.inner@[a] != #[trigger] self.inner@[b] by {
                assert(self.inner@[a] == a as u32);
                assert(self.inner@[b] == b as u32);
            }
            assert(self@ =~= Map::<Key, T>::empty());
            assert(self.values() =~= Seq::<T>::empty());
            assert forall|i: int| 0 <= i < self.slot_count() implies #[trigger] self.order()[i] == i by {
                assert(self.inner@[i] == i as u32);
            }
        }
    }

    /// Returns a mutable reference to the value associated with the key, or
    /// `None` if the key is invalid. Whatever the reference holds when it is
    /// released is what the arena then stores under the key.
    pub fn get_mut(&mut self, key: Key) -> (r: Option<&mut T>)
        requires
            old(self).wf(),
        ensures
            final(self).wf(),
            old(self)@.contains_key(key) ==> {
                &&& r is Some
                &&& 0 <= old(self).position(key.spec_idx() as int) < old(self).spec_len()
                &&& *r->0 == old(self)@[key]
                &&& final(self)@ == old(self)@.insert(key, *final(r->0))
                &&& final(self).values() == old(self).values().update(
                    old(self).position(key.spec_idx() as int),
                    *final(r->0),
                )
                &&& final(self).order() == old(self).order()
                &&& final(self).generations() == old(self).generations()
                &&& final(self).spec_capacity() == old(self).spec_capacity()
            },
            !old(self)@.contains_key(key) ==> r is None && *final(self) == *old(self),
    {
        match self.live_at(key) {
            Some(p) => {
                Some(&mut self.data[p])
            },
            None => None,
        }
    }

    /// Inserts a value into the arena using a closure that provides the key.
    /// This is useful for a data type that requires a self-referential key.
    /// The closure is called once, with the key that is returned.
    pub fn insert_with_key<F: FnOnce(Key) -> T>(&mut self, closure: F) -> (key: Key)
        requires
            old(self).wf(),
            old(self).spec_len() < u32::MAX,
            closure.requires((old(self).next_key(),)),
        ensures
            final(self).wf(),
            closure.ensures((key,), final(self).values().last()),
            Self::inserted(*old(self), *final(self), key, final(self).values().last()),
    {
        let ghost old_self = *self;
        let key = self.claim_slot();
        let value = closure(key);
        self.push_value(value);
        proof {
            Self::lemma_claim_then_push(old_self, *self, key, value);
        }
        key
    }

    /// Returns the capacity of the arena: how many values its storage holds
    /// without growing. It is never below `len()`.
    pub fn capacity(&self) -> (r: usize)
        ensures
            r >= self.spec_len(),
            self.spec_len() <= self.spec_capacity() ==> r == self.spec_capacity(),
    {
        let len = self.data.len();
        if self.room < len {
            len
        } else {
            self.room
        }
    }

    /// What `try_insert(value)` does to `old`, giving `new` and `r`: a full
    /// arena (as many values as its capacity) hands the value back and stays
    /// as it is; any other inserts the value.
    pub open spec fn try_inserted(old: Self, new: Self, value: T, r: Result<Key, T>) -> bool {
        if old.spec_len() == old.spec_capacity() {
            &&& r == Err::<Key, T>(value)
            &&& new == old
        } else {
            &&& r is Ok
            &&& Self::inserted(old, new, r->Ok_0, value)
        }
    }

    /// What `try_insert_with_key(closure)` does to `old`, giving `new` and
    /// `r`: a full arena hands the closure back uncalled and stays as it is;
    /// any other inserts what the closure made from the key it hands out.
    pub open spec fn try_inserted_with_key<F: FnOnce(Key) -> T>(old: Self, new: Self, closure: F, r: Result<Key, F>) -> bool {
        if old.spec_len() == old.spec_capacity() {
            &&& r == Err::<Key, F>(closure)
            &&& new == old
        } else {
            &&& r is Ok
            &&& call_ensures(closure, (r->Ok_0,), new.values().last())
            &&& Self::inserted(old, new, r->Ok_0, new.values().last())
        }
    }

    /// Inserts `value` unless the arena already holds `capacity` values, in
    /// which case the value is handed back and nothing changes.
    pub fn insert_below(&mut self, value: T, capacity: usize) -> (r: Result<Key, T>)
        requires
            old(self).wf(),
            old(self).spec_len() < u32::MAX,
        ensures
            final(self).wf(),
            old(self).spec_len() == capacity ==> r == Err::<Key, T>(value) && *final(self) == *old(self),
            old(self).spec_len() != capacity ==> r is Ok && Self::inserted(*old(self), *final(self), r->Ok_0, value),
    {
        if self.data.len() == capacity {
            return Err(value);
        }
        Ok(self.insert(value))
    }

    /// Inserts a value into the arena only if the internal vec is not at
    /// capacity. Returns the key that was used to store the value. If the
    /// arena is full, the value is returned instead and nothing changes.
    pub fn try_insert(&mut self, value: T) -> (r: Result<Key, T>)
        requires
            old(self).wf(),
            old(self).spec_len() < u32::MAX,
        ensures
            final(self).wf(),
            r is Err ==> r == Err::<Key, T>(value) && *final(self) == *old(self),
            r is Ok ==> Self::inserted(*old(self), *final(self), r->Ok_0, value),
            Self::try_inserted(*old(self), *final(self), value, r),
    {
        let capacity = self.capacity();
        self.insert_below(value, capacity)
    }

    /// Inserts the value made by `closure` from its key unless the arena
    /// already holds `capacity` values, in which case the closure is handed
    /// back uncalled and nothing changes.
    pub fn insert_with_key_below<F: FnOnce(Key) -> T>(&mut self, closure: F, capacity: usize) -> (r: Result<Key, F>)
        requires
            old(self).wf(),
            old(self).spec_len() < u32::MAX,
            closure.requires((old(self).next_key(),)),
        ensures
            final(self).wf(),
            old(self).spec_len() == capacity ==> r == Err::<Key, F>(closure) && *final(self) == *old(self),
            old(self).spec_len() != capacity ==> {
                &&& r is Ok
                &&& closure.ensures((r->Ok_0,), final(self).values().last())
                &&& Self::inserted(*old(self), *final(self), r->Ok_0, final(self).values().last())
            },
    {
        if self.data.len() == capacity {
            return Err(closure);
        }
        Ok(self.insert_with_key(closure))
    }

    /// Inserts a value into the arena using a closure that provides the key.
    ///
    /// This is useful for a data type that requires a self-referential key.
    /// If the arena is at capacity, the closure is returned instead.
    pub fn try_insert_with_key<F: FnOnce(Key) -> T>(&mut self, closure: F) -> (r: Result<Key, F>)
        requires
            old(self).wf(),
            old(self).spec_len() < u32::MAX,
            closure.requires((old(self).next_key(),)),
        ensures
            final(self).wf(),
            r is Err ==> r == Err::<Key, F>(closure) && *final(self) == *old(self),
            r is Ok ==> {
                &&& closure.ensures((r->Ok_0,), final(self).values().last())
                &&& Self::inserted(*old(self), *final(self), r->Ok_0, final(self).values().last())
            },
            Self::try_inserted_with_key(*old(self), *final(self), closure, r),
    {
        let capacity = self.capacity();
        self.insert_with_key_below(closure, capacity)
    }
}

impl<T> Arena<T> {
    /// Returns an iterator over the values in the arena, in dense storage order.
    pub fn iter(&self) -> (r: std::slice::Iter<'_, T>)
        ensures
            r.remaining() == self.values().as_ref(),
    {
        self.data.as_slice().iter()
    }

    /// `new` holds the keys of `old`, in the same order and generations,
    /// with the stored values replaced by `vals`. When `vals` has as many
    /// entries as `old` had values, `new` is consistent and every key valid
    /// in `old` is valid in `new` and reads the value written at its dense
    /// position.
    pub open spec fn rewritten(old: Self, new: Self, vals: Seq<T>) -> bool {
        &&& new.values() == vals
        &&& new.order() == old.order()
        &&& new.generations() == old.generations()
        &&& new.spec_capacity() == old.spec_capacity()
        &&& vals.len() == old.spec_len() ==> {
            &&& new.wf()
            &&& new@.dom() == old@.dom()
            &&& forall|i: int| 0 <= i < old.spec_len() ==> #[trigger] new@[old.key_at(i)] == vals[i]
        }
    }

    /// Replacing the stored values by as many others keeps the arena
    /// consistent and its keys valid.
    broadcast proof fn lemma_values_replaced(old: Self, new: Self)
        requires
            old.wf(),
            new.outers == old.outers,
            new.inner == old.inner,
            new.versions == old.versions,
            new.room == old.room,
        ensures
            #[trigger] Self::rewritten(old, new, new.data@),
    {
        broadcast use Key::group_key_parts;
        if new.data@.len() == old.data@.len() {
            assert forall|k: Key| #[trigger] new.holds(k) == old.holds(k) by {}
            assert(new@.dom() =~= old@.dom());
            assert forall|i: int| 0 <= i < old.spec_len() implies #[trigger] new@[old.key_at(i)] == new.data@[i] by {
                assert(old.holds(old.key_at(i)));
            }
        }
    }

    /// Returns the values in the arena as a mutable slice, in dense storage
    /// order; iterate it to visit every value. Whatever the slice holds when
    /// released is what the arena then stores; keys are unaffected. A slice
    /// cannot change its length, so the arena stays consistent.
    pub fn iter_mut(&mut self) -> (r: &mut [T])
        requires
            old(self).wf(),
        ensures
            r@ == old(self).values(),
            Self::rewritten(*old(self), *final(self), final(r)@),
    {
        broadcast use Arena::lemma_values_replaced;
        self.data.as_mut_slice()
    }
}

impl<T> Arena<T> {
    /// The slots of the stored values, in dense storage order, and the
    /// generations of all slots.
    fn live_slots(&self) -> (r: (&[u32], &[u32]))
        requires
            self.wf(),
        ensures
            r.0@ == self.generations(),
            r.1@ == self.order().take(self.spec_len() as int),
            slots_valid(r.0@, r.1@),
            forall|i: int| 0 <= i < self.spec_len() ==> slot_key(r.0@, r.1@, i) == #[trigger] self.key_at(i),
    {
        let slots = self.inner.as_slice().split_at(self.data.len()).0;
        (self.versions.as_slice(), slots)
    }

    /// Returns an iterator over the keys in the arena, in dense storage order.
    pub fn keys(&self) -> (r: Keys<'_>)
        requires
            self.wf(),
        ensures
            r.remaining() == Seq::new(self.spec_len(), |i: int| self.key_at(i)),
    {
        let (versions, slots) = self.live_slots();
        let r = Keys::new(versions, slots);
        assert(r.remaining() =~= Seq::new(self.spec_len(), |i: int| self.key_at(i)));
        r
    }

    /// Returns an iterator over the arena as key-value pairs, in dense
    /// storage order.
    pub fn iter_keyed(&self) -> (r: IterKeyed<'_, T>)
        requires
            self.wf(),
        ensures
            r.remaining() == Seq::new(self.spec_len(), |i: int| (self.key_at(i), &self.values()[i])),
    {
        let (versions, slots) = self.live_slots();
        let r = IterKeyed::new(versions, slots, self.data.as_slice());
        assert(r.remaining() =~= Seq::new(self.spec_len(), |i: int| (self.key_at(i), &self.values()[i])));
        r
    }

    /// Returns a mutable iterator over the arena as key-value pairs, in dense
    /// storage order. Whatever the values hold when released is what the
    /// arena then stores; keys are unaffected.
    pub fn iter_keyed_mut(&mut self) -> (r: IterKeyedMut<'_, T>)
        requires
            old(self).wf(),
        ensures
            r.remaining() == Seq::new(old(self).spec_len(), |i: int| (old(self).key_at(i), old(self).values()[i])),
            r.inv(),
            r.slice()@ == old(self).values(),
            Self::rewritten(*old(self), *final(self), final(r.slice())@),
    {
        broadcast use Arena::lemma_values_replaced;
        let len = self.data.len();
        let slots = self.inner.as_slice().split_at(len).0;
        let ghost old_self = *self;
        let r = IterKeyedMut::new(self.versions.as_slice(), slots, self.data.as_mut_slice());
        assert(r.remaining() =~= Seq::new(old_self.spec_len(), |i: int| (old_self.key_at(i), old_self.values()[i])));
        r
    }
}

impl<'a, T> IntoIterator for &'a Arena<T> {
    type Item = &'a T;
    type IntoIter = std::slice::Iter<'a, T>;

    fn into_iter(self) -> (r: std::slice::Iter<'a, T>)
        ensures
            r.remaining() == self.values().as_ref(),
    {
        self.iter()
    }
}

impl<T> Default for Arena<T> {
    /// An empty arena with room for 32 values.
    fn default() -> (a: Self)
        ensures
            a.wf(),
            a@ == Map::<Key, T>::empty(),
            a.values() == Seq::<T>::empty(),
            a.order() == Seq::<u32>::empty(),
            a.generations() == Seq::<u32>::empty(),
            a.spec_capacity() >= 32,
    {
        Self::with_capacity(32)
    }
}

impl<T: Clone> Clone for Arena<T> {
    /// A copy of the arena: the same slots, generations and order, with
    /// each value cloned. The copy's storage reports its own capacity.
    fn clone(&self) -> (r: Self)
        ensures
            r.order() == self.order(),
            r.generations() == self.generations(),
            r.values().len() == self.values().len(),
            forall|i: int| 0 <= i < r.values().len() ==> cloned::<T>(self.values()[i], #[trigger] r.values()[i]),
            r.spec_len() <= r.spec_capacity(),
            self.wf() ==> r.wf() && r@.dom() == self@.dom(),
    {
        broadcast use Key::group_key_parts;
        let data = self.data.clone();
        let room = vec_capacity(&data);
        let r = Arena {
            outers: self.outers.clone(),
            versions: self.versions.clone(),
            data,
            inner: self.inner.clone(),
            room,
        };
        proof {
            assert(r.outers@ =~= self.outers@);
            assert(r.inner@ =~= self.inner@);
            assert(r.versions@ =~= self.versions@);
            if self.wf() {
                assert forall|k: Key| #[trigger] r.holds(k) == self.holds(k) by {}
                assert(r@.dom() =~= self@.dom());
            }
        }
        r
    }
}

/// `Vec::capacity`: the number of elements the vector can hold without
/// reallocating. Its documentation promises no less than the length; the
/// exact figure is the allocator's and is left unsaid.
#[verifier::external_body]
fn vec_capacity<T>(v: &Vec<T>) -> (r: usize)
    ensures
        r >= v@.len(),
{
    v.capacity()
}

} // verus!