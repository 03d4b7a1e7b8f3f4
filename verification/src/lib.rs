//! A generational arena: values live in a densely packed vector and are
//! addressed by keys made of a slot index and the generation of that slot.

pub mod arena;
pub mod iter;
pub mod laws;

pub use arena::Arena;
pub use arena::Key;
pub use iter::IterKeyed;
pub use iter::IterKeyedMut;
pub use iter::Keys;

use vstd::prelude::*;

verus! {

/// Creates a new empty [`Arena`].
pub fn new<T>() -> (a: Arena<T>)
    ensures
        a.wf(),
        a@ == Map::<Key, T>::empty(),
        a.values() == Seq::<T>::empty(),
        a.order() == Seq::<u32>::empty(),
        a.generations() == Seq::<u32>::empty(),
        a.spec_capacity() >= 32,
{
    Arena::new()
}

/// Creates a new empty [`Arena`] that asks its storage for room for
/// `capacity` values up front.
pub fn with_capacity<T>(capacity: usize) -> (a: Arena<T>)
    ensures
        a.wf(),
        a@ == Map::<Key, T>::empty(),
        a.values() == Seq::<T>::empty(),
        a.order() == Seq::<u32>::empty(),
        a.generations() == Seq::<u32>::empty(),
        a.spec_capacity() >= capacity,
{
    Arena::with_capacity(capacity)
}

} // verus!
