//! Properties of the arena that span several operations, stated over the
//! post-states that `insert`, `remove` and `clear` promise.

use crate::arena::{Arena, Key};
use vstd::prelude::*;

verus! {

broadcast use Key::group_key_parts;

/// A value inserted under a key is what the key reads back, and no other
/// key's value changes.
pub proof fn law_insert_then_get<T>(a: Arena<T>, b: Arena<T>, k: Key, v: T, other: Key)
    requires
        Arena::inserted(a, b, k, v),
    ensures
        b@.contains_key(k),
        b@[k] == v,
        other != k ==> (b@.contains_key(other) == a@.contains_key(other)),
        other != k && a@.contains_key(other) ==> b@[other] == a@[other],
{
}

/// The key an insertion hands out differs from every key valid before it.
pub proof fn law_insert_fresh_key<T>(a: Arena<T>, b: Arena<T>, k: Key, v: T, other: Key)
    requires
        Arena::inserted(a, b, k, v),
        a@.contains_key(other),
    ensures
        other != k,
{
}

/// Removing the key an insertion handed out gives the value back and
/// restores the previous contents.
pub proof fn law_insert_then_remove<T>(a: Arena<T>, b: Arena<T>, c: Arena<T>, k: Key, v: T, r: Option<T>)
    requires
        Arena::inserted(a, b, k, v),
        Arena::removed(b, c, k, r),
    ensures
        r == Some(v),
        c@ == a@,
{
    assert(c@ =~= a@);
}

/// After a removal the key no longer reads anything, and every other key
/// reads what it read before.
pub proof fn law_remove_then_get<T>(a: Arena<T>, b: Arena<T>, k: Key, r: Option<T>, other: Key)
    requires
        Arena::removed(a, b, k, r),
    ensures
        !b@.contains_key(k),
        other != k ==> b@.contains_key(other) == a@.contains_key(other),
        other != k && a@.contains_key(other) ==> b@[other] == a@[other],
{
}

/// A removed key retires, unless its generation had already reached
/// `u32::MAX`, where the counter saturates.
pub proof fn law_remove_retires<T>(a: Arena<T>, b: Arena<T>, k: Key, r: Option<T>)
    requires
        a.wf(),
        Arena::removed(a, b, k, r),
        r is Some,
        k.spec_ver() < u32::MAX,
    ensures
        b.retired(k),
{
    a.lemma_view();
    let p = a.position(k.spec_idx() as int);
    assert(a.key_at(p) == k);
}

/// Clearing retires every key valid before, unless its generation had
/// already reached `u32::MAX`, and leaves no key valid.
pub proof fn law_clear_retires<T>(a: Arena<T>, b: Arena<T>, k: Key)
    requires
        a.wf(),
        Arena::cleared(a, b),
    ensures
        !b@.contains_key(k),
        a@.contains_key(k) && k.spec_ver() < u32::MAX ==> b.retired(k),
{
    a.lemma_view();
    if a@.contains_key(k) {
        let p = a.position(k.spec_idx() as int);
        assert(a.key_at(p) == k);
    }
}

/// A retired key reads nothing.
pub proof fn law_retired_is_invalid<T>(a: Arena<T>, k: Key)
    requires
        a.wf(),
        a.retired(k),
    ensures
        !a@.contains_key(k),
{
    a.lemma_view();
    if a@.contains_key(k) {
        let p = a.position(k.spec_idx() as int);
        assert(a.key_at(p) == k);
    }
}

/// An insertion never hands out a retired key, and a retired key stays
/// unreadable after it.
pub proof fn law_insert_never_revives<T>(a: Arena<T>, b: Arena<T>, k: Key, v: T, stale: Key)
    requires
        a.wf(),
        b.wf(),
        a.retired(stale),
        Arena::inserted(a, b, k, v),
    ensures
        k != stale,
        !b@.contains_key(stale),
{
    law_retired_stays_retired(a, b, stale, k, v, None);
    law_retired_is_invalid(b, stale);
}

/// Insertion, removal and clearing keep every retired key retired: slots are
/// never dropped and generations never go back.
pub proof fn law_retired_stays_retired<T>(a: Arena<T>, b: Arena<T>, k: Key, key: Key, v: T, r: Option<T>)
    requires
        a.wf(),
        a.retired(k),
        Arena::inserted(a, b, key, v) || Arena::removed(a, b, key, r) || Arena::cleared(a, b),
    ensures
        b.retired(k),
{
    law_generations_never_decrease(a, b, key, v, r, k.spec_idx() as int);
}

/// Every operation keeps all slots and never lowers a slot's generation.
pub proof fn law_generations_never_decrease<T>(a: Arena<T>, b: Arena<T>, key: Key, v: T, r: Option<T>, s: int)
    requires
        a.wf(),
        Arena::inserted(a, b, key, v) || Arena::removed(a, b, key, r) || Arena::cleared(a, b),
        0 <= s < a.slot_count(),
    ensures
        a.slot_count() <= b.slot_count(),
        a.generations()[s] <= b.generations()[s],
{
    a.lemma_view();
    if Arena::removed(a, b, key, r) && a@.contains_key(key) {
        let p = a.position(key.spec_idx() as int);
        assert(a.key_at(p) == key);
    }
}

/// The number of stored values is the number of valid keys, and the keys of
/// the dense positions are pairwise distinct.
pub proof fn law_len_is_key_count<T>(a: Arena<T>)
    requires
        a.wf(),
    ensures
        a@.dom().finite(),
        a@.dom().len() == a.spec_len(),
        forall|i: int, j: int|
            0 <= i < a.spec_len() && 0 <= j < a.spec_len() && i != j ==> a.key_at(i) != a.key_at(j),
{
    a.lemma_view();
    let keys = Seq::new(a.spec_len(), |i: int| a.key_at(i));
    assert forall|i: int, j: int|
        0 <= i < a.spec_len() && 0 <= j < a.spec_len() && i != j implies a.key_at(i) != a.key_at(j) by {
        assert(a@.contains_key(a.key_at(i)));
        assert(a@.contains_key(a.key_at(j)));
    }
    assert(keys.no_duplicates());
    assert(keys.to_set() =~= a@.dom()) by {
        assert forall|k: Key| a@.dom().contains(k) implies keys.to_set().contains(k) by {
            let i = a.position(k.spec_idx() as int);
            assert(keys[i] == k);
        }
    }
    keys.unique_seq_to_set();
}

/// The dense order lists every valid key exactly once, each with the value
/// it reads, so iterating the values visits each valid key's value once.
pub proof fn law_dense_order_lists_live_entries<T>(a: Arena<T>)
    requires
        a.wf(),
    ensures
        Seq::new(a.spec_len(), |i: int| a.key_at(i)).no_duplicates(),
        Seq::new(a.spec_len(), |i: int| a.key_at(i)).to_set() == a@.dom(),
        forall|i: int| 0 <= i < a.spec_len() ==> #[trigger] a@[a.key_at(i)] == a.values()[i],
{
    law_len_is_key_count(a);
    a.lemma_view();
    let keys = Seq::new(a.spec_len(), |i: int| a.key_at(i));
    assert(keys.to_set() =~= a@.dom()) by {
        assert forall|k: Key| a@.dom().contains(k) implies keys.to_set().contains(k) by {
            let i = a.position(k.spec_idx() as int);
            assert(keys[i] == k);
        }
        assert forall|k: Key| keys.to_set().contains(k) implies a@.dom().contains(k) by {
            let i = choose|i: int| 0 <= i < keys.len() && keys[i] == k;
            assert(a@.contains_key(a.key_at(i)));
        }
    }
    assert forall|i: int| 0 <= i < a.spec_len() implies #[trigger] a@[a.key_at(i)] == a.values()[i] by {
        assert(a@.contains_key(a.key_at(i)));
    }
}

/// The stored values are exactly the values of the valid keys.
pub proof fn law_values_are_view_values<T>(a: Arena<T>, v: T)
    requires
        a.wf(),
    ensures
        (exists|i: int| 0 <= i < a.spec_len() && a.values()[i] == v) <==> (exists|k: Key|
            a@.contains_key(k) && #[trigger] a@[k] == v),
{
    a.lemma_view();
    if exists|i: int| 0 <= i < a.spec_len() && a.values()[i] == v {
        let i = choose|i: int| 0 <= i < a.spec_len() && a.values()[i] == v;
        assert(a@.contains_key(a.key_at(i)));
        assert(a@[a.key_at(i)] == v);
    }
    if exists|k: Key| a@.contains_key(k) && #[trigger] a@[k] == v {
        let k = choose|k: Key| a@.contains_key(k) && #[trigger] a@[k] == v;
        let i = a.position(k.spec_idx() as int);
        assert(a.values()[i] == v);
    }
}

/// A key's 64-bit representation determines the key.
pub proof fn law_key_bits_unique(a: Key, b: Key)
    ensures
        a.spec_ver() * 0x1_0000_0000 + a.spec_idx() == b.spec_ver() * 0x1_0000_0000 + b.spec_idx() ==> a == b,
{
    broadcast use Key::group_key_parts;
}

/// Rebuilding a key from its parts gives the same key.
pub proof fn law_key_parts_roundtrip(k: Key)
    ensures
        Key::from_parts(k.spec_idx(), k.spec_ver()) == k,
{
    broadcast use Key::group_key_parts;
}

/// `try_insert` refuses exactly when the arena holds as many values as its
/// capacity. A refusal hands the value back and changes nothing; otherwise
/// the value is stored under a key that was not valid before, and while
/// there was room the capacity stays.
pub proof fn law_try_insert_refuses_only_when_full<T>(a: Arena<T>, b: Arena<T>, v: T, r: Result<Key, T>)
    requires
        a.wf(),
        Arena::try_inserted(a, b, v, r),
    ensures
        r is Err <==> a.spec_len() == a.spec_capacity(),
        a.spec_len() < a.spec_capacity() ==> r is Ok,
        r is Err ==> r == Err::<Key, T>(v) && b@ == a@ && b.spec_len() == a.spec_len(),
        r is Ok ==> {
            &&& !a@.contains_key(r->Ok_0)
            &&& b@.contains_key(r->Ok_0)
            &&& b@[r->Ok_0] == v
            &&& b.spec_len() == a.spec_len() + 1
            &&& b.spec_capacity() == a.spec_capacity()
        },
{
    a.lemma_view();
}

/// `try_insert_with_key` refuses exactly when the arena is full, handing the
/// closure back uncalled and changing nothing; otherwise the key it hands
/// out reads what the closure made from that key.
pub proof fn law_try_insert_with_key_refuses_only_when_full<T, F: FnOnce(Key) -> T>(
    a: Arena<T>,
    b: Arena<T>,
    f: F,
    r: Result<Key, F>,
)
    requires
        a.wf(),
        Arena::try_inserted_with_key(a, b, f, r),
    ensures
        r is Err <==> a.spec_len() == a.spec_capacity(),
        a.spec_len() < a.spec_capacity() ==> r is Ok,
        r is Err ==> r == Err::<Key, F>(f) && b@ == a@ && b.spec_len() == a.spec_len(),
        r is Ok ==> {
            &&& !a@.contains_key(r->Ok_0)
            &&& b@.contains_key(r->Ok_0)
            &&& call_ensures(f, (r->Ok_0,), b@[r->Ok_0])
            &&& b.spec_len() == a.spec_len() + 1
            &&& b.spec_capacity() == a.spec_capacity()
        },
{
    a.lemma_view();
}

/// An empty arena whose capacity is at least `n` accepts `n` successive
/// `try_insert`s: each one succeeds, the arena then holds one more value,
/// and the capacity does not move.
pub proof fn law_room_for_requested_capacity<T>(
    states: Seq<Arena<T>>,
    vals: Seq<T>,
    results: Seq<Result<Key, T>>,
    n: nat,
)
    requires
        states.len() == vals.len() + 1,
        results.len() == vals.len(),
        vals.len() <= n,
        states[0].values() == Seq::<T>::empty(),
        states[0].spec_capacity() >= n,
        forall|i: int|
            0 <= i < vals.len() ==> #[trigger] Arena::try_inserted(
                states[i],
                states[i + 1],
                vals[i],
                results[i],
            ),
    ensures
        forall|i: int| 0 <= i < vals.len() ==> #[trigger] results[i] is Ok,
        states.last().spec_len() == vals.len(),
        states.last().spec_capacity() == states[0].spec_capacity(),
    decreases vals.len(),
{
    if vals.len() > 0 {
        let m = vals.len() - 1;
        law_room_for_requested_capacity(
            states.drop_last(),
            vals.drop_last(),
            results.drop_last(),
            n,
        );
        assert(Arena::try_inserted(states[m], states[m + 1], vals[m], results[m]));
        assert forall|i: int| 0 <= i < vals.len() implies #[trigger] results[i] is Ok by {
            if i < m {
                assert(results.drop_last()[i] is Ok);
            }
        }
    }
}

/// Clearing keeps the capacity, so an arena that had any room accepts a
/// `try_insert` right after.
pub proof fn law_clear_keeps_room<T>(a: Arena<T>, b: Arena<T>, c: Arena<T>, v: T, r: Result<Key, T>)
    requires
        Arena::cleared(a, b),
        Arena::try_inserted(b, c, v, r),
    ensures
        b.spec_capacity() == a.spec_capacity(),
        b.spec_len() == 0,
        a.spec_capacity() > 0 ==> r is Ok && c@.contains_key(r->Ok_0) && c@[r->Ok_0] == v,
{
}

} // verus!
