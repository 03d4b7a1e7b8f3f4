//! Iteration over an arena together with the keys of its values.

use crate::arena::Key;
use vstd::prelude::*;

verus! {

/// The key of the value whose slot is `slots[i]`, given the slot generations.
pub open spec fn slot_key(versions: Seq<u32>, slots: Seq<u32>, i: int) -> Key {
    Key::from_parts(slots[i], versions[slots[i] as int])
}

/// Every listed slot exists and has a non-zero generation.
pub open spec fn slots_valid(versions: Seq<u32>, slots: Seq<u32>) -> bool {
    forall|i: int|
        0 <= i < slots.len() ==> {
            &&& #[trigger] slots[i] < versions.len()
            &&& versions[slots[i] as int] != 0
        }
}

/// The keys of the listed slots, in order.
pub open spec fn slot_keys(versions: Seq<u32>, slots: Seq<u32>) -> Seq<Key> {
    Seq::new(slots.len(), |i: int| slot_key(versions, slots, i))
}

/// Iterator over `Key`s in dense storage order.
pub struct Keys<'a> {
    versions: &'a [u32],
    slots: &'a [u32],
    pos: usize,
    end: usize,
}

impl<'a> Keys<'a> {
    #[verifier::type_invariant]
    spec fn keys_inv(self) -> bool {
        &&& self.pos <= self.end
        &&& self.end == self.slots@.len()
        &&& slots_valid(self.versions@, self.slots@)
    }

    /// The keys this iterator has yet to yield.
    pub closed spec fn remaining(&self) -> Seq<Key> {
        slot_keys(self.versions@, self.slots@).skip(self.pos as int)
    }

    /// An iterator over the keys of `slots`, each with its slot's generation.
    pub(crate) fn new(versions: &'a [u32], slots: &'a [u32]) -> (r: Keys<'a>)
        requires
            slots_valid(versions@, slots@),
        ensures
            r.remaining() == slot_keys(versions@, slots@),
    {
        let r = Keys { versions, slots, pos: 0, end: slots.len() };
        assert(r.remaining() =~= slot_keys(versions@, slots@));
        r
    }

    /// Yields the next key, or `None` once all keys have been yielded.
    pub fn next(&mut self) -> (r: Option<Key>)
        ensures
            old(self).remaining().len() > 0 ==> {
                &&& r == Some(old(self).remaining()[0])
                &&& final(self).remaining() == old(self).remaining().drop_first()
            },
            old(self).remaining().len() == 0 ==> r is None && final(self).remaining() == old(self).remaining(),
        no_unwind
    {
        proof {
            use_type_invariant(&*self);
        }
        if self.pos >= self.end {
            return None;
        }
        let idx = self.slots[self.pos];
        let ver = self.versions[idx as usize];
        self.pos = self.pos + 1;
        let k = Key::new(idx, ver);
        assert(self.remaining() =~= old(self).remaining().drop_first());
        Some(k)
    }

    /// The number of keys left, as a lower and an exact upper bound.
    pub fn size_hint(&self) -> (r: (usize, Option<usize>))
        ensures
            r.0 == self.remaining().len(),
            r.1 == Some(r.0),
    {
        proof {
            use_type_invariant(self);
        }
        let n = self.end - self.pos;
        (n, Some(n))
    }
}

/// Iterator over `(Key, &T)` pairs in dense storage order.
pub struct IterKeyed<'a, T> {
    keys: Keys<'a>,
    values: &'a [T],
}

impl<'a, T> IterKeyed<'a, T> {
    #[verifier::type_invariant]
    spec fn iter_keyed_inv(self) -> bool {
        self.keys.remaining().len() <= self.values@.len()
    }

    /// The pairs this iterator has yet to yield.
    pub closed spec fn remaining(&self) -> Seq<(Key, &'a T)> {
        let keys = self.keys.remaining();
        let skip = self.values@.len() - keys.len();
        Seq::new(keys.len(), |i: int| (keys[i], &self.values@[skip + i]))
    }

    /// An iterator over the keys of `slots` paired with `values`.
    pub(crate) fn new(versions: &'a [u32], slots: &'a [u32], values: &'a [T]) -> (r: IterKeyed<'a, T>)
        requires
            slots_valid(versions@, slots@),
            slots@.len() == values@.len(),
        ensures
            r.remaining() == Seq::new(
                values@.len(),
                |i: int| (slot_key(versions@, slots@, i), &values@[i]),
            ),
    {
        let r = IterKeyed { keys: Keys::new(versions, slots), values };
        assert(r.remaining() =~= Seq::new(
            values@.len(),
            |i: int| (slot_key(versions@, slots@, i), &values@[i]),
        ));
        r
    }

    /// Yields the next pair, or `None` once all pairs have been yielded.
    pub fn next(&mut self) -> (r: Option<(Key, &'a T)>)
        ensures
            old(self).remaining().len() > 0 ==> {
                &&& r == Some(old(self).remaining()[0])
                &&& final(self).remaining() == old(self).remaining().drop_first()
            },
            old(self).remaining().len() == 0 ==> r is None && final(self).remaining() == old(self).remaining(),
    {
        proof {
            use_type_invariant(&*self);
        }
        let n = self.values.len();
        let left = self.keys.size_hint().0;
        match self.keys.next() {
            Some(k) => {
                let v = &self.values[n - left];
                assert(self.remaining() =~= old(self).remaining().drop_first());
                Some((k, v))
            },
            None => None,
        }
    }

    /// The number of pairs left, as a lower and an exact upper bound.
    pub fn size_hint(&self) -> (r: (usize, Option<usize>))
        ensures
            r.0 == self.remaining().len(),
            r.1 == Some(r.0),
    {
        self.keys.size_hint()
    }
}

/// Iterator over `(Key, &mut T)` pairs in dense storage order.
pub struct IterKeyedMut<'a, T> {
    keys: Keys<'a>,
    values: Option<&'a mut [T]>,
}

impl<'a, T> IterKeyedMut<'a, T> {
    /// The keys still to be yielded match the values still to be handed out.
    pub closed spec fn inv(&self) -> bool {
        &&& self.values is Some
        &&& self.keys.remaining().len() == self.values->0@.len()
    }

    /// The slice of values still to be handed out.
    pub closed spec fn slice(&self) -> &'a mut [T] {
        self.values->0
    }

    /// The pairs this iterator has yet to yield, with the values as they are now.
    pub closed spec fn remaining(&self) -> Seq<(Key, T)> {
        let keys = self.keys.remaining();
        Seq::new(keys.len(), |i: int| (keys[i], self.values->0@[i]))
    }

    /// An iterator over the keys of `slots` paired with mutable references
    /// into `values`.
    pub(crate) fn new(versions: &'a [u32], slots: &'a [u32], values: &'a mut [T]) -> (r: IterKeyedMut<'a, T>)
        requires
            slots_valid(versions@, slots@),
            slots@.len() == old(values)@.len(),
        ensures
            r.inv(),
            r.slice()@ == old(values)@,
            final(r.slice())@ == final(values)@,
            r.remaining() == Seq::new(
                old(values)@.len(),
                |i: int| (slot_key(versions@, slots@, i), old(values)@[i]),
            ),
    {
        let ghost start = values@;
        let r = IterKeyedMut { keys: Keys::new(versions, slots), values: Some(values) };
        assert(r.remaining() =~= Seq::new(
            start.len(),
            |i: int| (slot_key(versions@, slots@, i), start[i]),
        ));
        r
    }

    /// Once the iterator is dropped, the values still to be handed out stay
    /// as they are.
    pub proof fn lemma_resolved(&self)
        requires
            self.inv(),
            has_resolved(*self),
        ensures
            final(self.slice())@ == self.slice()@,
    {
    }

    /// Yields the next key with a mutable reference to its value, or `None`
    /// once all pairs have been yielded. The slice held before the call ends
    /// up as the handed-out value followed by the slice kept.
    pub fn next(&mut self) -> (r: Option<(Key, &'a mut T)>)
        requires
            old(self).inv(),
        ensures
            final(self).inv(),
            old(self).remaining().len() > 0 ==> {
                &&& r matches Some((k, v)) && {
                    &&& k == old(self).remaining()[0].0
                    &&& *v == old(self).remaining()[0].1
                    &&& final(old(self).slice())@ == seq![*final(v)] + final(final(self).slice())@
                }
                &&& final(self).remaining() == old(self).remaining().drop_first()
                &&& final(self).slice()@ == old(self).slice()@.drop_first()
            },
            old(self).remaining().len() == 0 ==> {
                &&& r is None
                &&& final(self).slice()@ == old(self).slice()@
                &&& final(final(self).slice())@ == final(old(self).slice())@
            },
    {
        let s = match self.values.take() {
            Some(s) => s,
            None => return None,
        };
        if s.len() == 0 {
            self.values = Some(s);
            return None;
        }
        let k = match self.keys.next() {
            Some(k) => k,
            None => {
                self.values = Some(s);
                return None;
            },
        };
        let (head, tail) = s.split_at_mut(1);
        self.values = Some(tail);
        assert(self.remaining() =~= old(self).remaining().drop_first());
        match head.first_mut() {
            Some(v) => Some((k, v)),
            None => None,
        }
    }

    /// The number of pairs left, as a lower and an exact upper bound.
    pub fn size_hint(&self) -> (r: (usize, Option<usize>))
        requires
            self.inv(),
        ensures
            r.0 == self.remaining().len(),
            r.1 == Some(r.0),
    {
        self.keys.size_hint()
    }
}

} // verus!
