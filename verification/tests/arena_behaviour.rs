use std::hash::Hash;
use vibarena::{Arena, Key};

#[test]
fn readme_example_flow() {
    let mut arena = Arena::new();
    let index = arena.insert(("John", 38));
    assert!(arena.len() == 1);
    let (name, age) = arena.get(index).unwrap();
    assert!(*name == "John");
    assert!(*age == 38);
    arena.get_mut(index).unwrap().1 += 1;
    assert!(arena.get(index).unwrap().1 == 39);
    arena.clear();
    let index_2 = arena.insert(("Steve", 40));
    assert!(index_2.idx() == index.idx() && index_2.ver() != index.ver());
    assert!(arena.get(index).is_none());
}

#[test]
fn insert_then_get_reads_back_and_keeps_others() {
    let mut arena = Arena::new();
    let a = arena.insert(10u32);
    let b = arena.insert(20u32);
    assert_eq!(arena.get(a), Some(&10));
    assert_eq!(arena.get(b), Some(&20));
    assert_ne!(a, b);
    assert_eq!(arena.len(), 2);
}

#[test]
fn insert_then_remove_restores_contents() {
    let mut arena = Arena::new();
    let a = arena.insert(1u8);
    let b = arena.insert(2u8);
    assert_eq!(arena.remove(b), Some(2));
    assert_eq!(arena.len(), 1);
    assert_eq!(arena.get(a), Some(&1));
    assert_eq!(arena.get(b), None);
}

#[test]
fn fresh_slots_start_at_generation_one_in_index_order() {
    let mut arena = Arena::new();
    let a = arena.insert('a');
    let b = arena.insert('b');
    assert_eq!(a.parts(), (0, 1));
    assert_eq!(b.parts(), (1, 1));
}

#[test]
fn remove_reuses_slot_with_next_generation() {
    let mut arena = Arena::new();
    let a = arena.insert(1i64);
    let _b = arena.insert(2i64);
    assert_eq!(arena.remove(a), Some(1));
    let c = arena.insert(3i64);
    assert_eq!(c.parts(), (0, 2));
    assert!(!arena.contains_key(a));
    assert_eq!(arena.get(c), Some(&3));
}

#[test]
fn remove_moves_last_value_into_gap() {
    let mut arena = Arena::new();
    let a = arena.insert(1);
    let b = arena.insert(2);
    let c = arena.insert(3);
    assert_eq!(arena.remove(a), Some(1));
    let values: Vec<i32> = arena.iter().copied().collect();
    assert_eq!(values, vec![3, 2]);
    let mut keys = arena.keys();
    assert_eq!(keys.next(), Some(c));
    assert_eq!(keys.next(), Some(b));
    assert_eq!(keys.next(), None);
}

#[test]
fn remove_invalid_key_changes_nothing() {
    let mut arena = Arena::new();
    let a = arena.insert(5);
    assert_eq!(arena.remove(Key::new(7, 1)), None);
    assert_eq!(arena.remove(Key::new(0, 2)), None);
    assert_eq!(arena.len(), 1);
    assert_eq!(arena.get(a), Some(&5));
}

#[test]
fn forged_key_for_free_slot_reads_nothing() {
    let mut arena = Arena::with_capacity(1);
    let a = arena.try_insert(9).unwrap();
    assert_eq!(arena.remove(a), Some(9));
    let forged = Key::new(0, 2);
    assert!(!arena.contains_key(forged));
    assert_eq!(arena.get(forged), None);
    assert_eq!(arena.get_unchecked(forged), None);
    assert!(arena.get_mut(forged).is_none());
    assert_eq!(arena.remove(forged), None);
}

#[test]
fn clear_advances_every_generation_and_reuses_in_index_order() {
    let mut arena = Arena::new();
    let a = arena.insert(1);
    let b = arena.insert(2);
    assert_eq!(arena.remove(a), Some(1));
    arena.clear();
    assert!(arena.is_empty());
    assert!(!arena.contains_key(a));
    assert!(!arena.contains_key(b));
    let c = arena.insert(3);
    let d = arena.insert(4);
    assert_eq!(c.parts(), (0, 3));
    assert_eq!(d.parts(), (1, 2));
}

#[test]
fn try_insert_on_full_arena_gives_value_back() {
    let mut arena: Arena<u16> = Arena::with_capacity(2);
    let cap = arena.capacity();
    assert!(cap >= 2);
    for i in 0..cap {
        assert!(arena.try_insert(i as u16).is_ok());
    }
    assert_eq!(arena.try_insert(7), Err(7));
    assert_eq!(arena.len(), cap);
}

#[test]
fn insert_below_follows_given_capacity() {
    let mut arena = Arena::new();
    assert_eq!(arena.insert_below(1, 0), Err(1));
    assert!(arena.is_empty());
    let k = arena.insert_below(1, 5).unwrap();
    assert_eq!(arena.get(k), Some(&1));
    assert_eq!(arena.insert_below(2, 1), Err(2));
}

#[test]
fn insert_with_key_below_hands_closure_back() {
    let mut arena: Arena<(u32, Key)> = Arena::new();
    let f = arena.insert_with_key_below(|k| (1, k), 0).unwrap_err();
    let k = arena.insert_with_key_below(f, 4).ok().unwrap();
    assert_eq!(arena.get(k), Some(&(1, k)));
}

#[test]
fn get_unchecked_variants() {
    let mut arena = Arena::new();
    let a = arena.insert(3);
    assert_eq!(arena.get_unchecked(a), Some(&3));
    *arena.get_unchecked_mut(a).unwrap() = 4;
    assert_eq!(arena.get(a), Some(&4));
    assert_eq!(arena.get_unchecked(Key::new(0, 5)), None);
    assert!(arena.get_unchecked_mut(Key::new(0, 5)).is_none());
}

#[test]
fn contains_finds_values() {
    let mut arena = Arena::new();
    arena.insert(11);
    let b = arena.insert(12);
    assert!(arena.contains(&11));
    assert!(arena.contains(&12));
    assert!(!arena.contains(&13));
    arena.remove(b);
    assert!(!arena.contains(&12));
}

#[test]
fn iter_keyed_pairs_each_value_with_its_key() {
    let mut arena = Arena::new();
    let a = arena.insert("x");
    let b = arena.insert("y");
    let mut it = arena.iter_keyed();
    assert_eq!(it.size_hint(), (2, Some(2)));
    assert_eq!(it.next(), Some((a, &"x")));
    assert_eq!(it.next(), Some((b, &"y")));
    assert_eq!(it.next(), None);
    assert_eq!(it.size_hint(), (0, Some(0)));
}

#[test]
fn iter_keyed_mut_writes_back() {
    let mut arena = Arena::new();
    let a = arena.insert(1);
    let b = arena.insert(2);
    {
        let mut it = arena.iter_keyed_mut();
        while let Some((k, v)) = it.next() {
            if k == b {
                *v += 10;
            }
        }
    }
    assert_eq!(arena.get(a), Some(&1));
    assert_eq!(arena.get(b), Some(&12));
}

#[test]
fn iter_mut_writes_back() {
    let mut arena = Arena::new();
    let a = arena.insert(1);
    let b = arena.insert(2);
    for v in arena.iter_mut() {
        *v *= 3;
    }
    assert_eq!(arena.get(a), Some(&3));
    assert_eq!(arena.get(b), Some(&6));
}

#[test]
fn keys_size_hint_counts_down() {
    let mut arena = Arena::new();
    arena.insert(());
    arena.insert(());
    let mut keys = arena.keys();
    assert_eq!(keys.size_hint(), (2, Some(2)));
    keys.next();
    assert_eq!(keys.size_hint(), (1, Some(1)));
}

#[test]
fn key_u64_representation() {
    let k = Key::new(3, 2);
    assert_eq!(k.as_u64(), (2u64 << 32) | 3);
    assert_eq!(k.idx(), 3);
    assert_eq!(k.ver(), 2);
    assert_eq!(Key::new(u32::MAX, u32::MAX).as_u64(), u64::MAX);
}

#[test]
fn default_and_free_constructors_are_empty() {
    let a: Arena<u8> = Arena::default();
    assert!(a.is_empty());
    assert!(a.capacity() >= 32);
    let b: Arena<u8> = vibarena::new();
    assert_eq!(b.len(), 0);
    let c: Arena<u8> = vibarena::with_capacity(4);
    assert!(c.capacity() >= 4);
    assert!(c.is_empty());
}

#[test]
fn clone_is_independent() {
    let mut arena = Arena::new();
    let a = arena.insert(String::from("v"));
    let copy = arena.clone();
    arena.remove(a);
    assert_eq!(copy.get(a).map(|s| s.as_str()), Some("v"));
    assert_eq!(arena.get(a), None);
}

#[test]
fn stale_key_never_revives_across_reuse() {
    let mut arena = Arena::with_capacity(1);
    let first = arena.insert(0u32);
    assert_eq!(arena.remove(first), Some(0));
    for round in 1..50u32 {
        let k = arena.insert(round);
        assert_ne!(k, first);
        assert!(!arena.contains_key(first));
        assert_eq!(k.idx(), first.idx());
        assert_eq!(k.ver(), round + 1);
        assert_eq!(arena.remove(k), Some(round));
    }
}

#[test]
fn keys_are_distinct_and_count_matches_len() {
    let mut arena = Arena::new();
    let mut ks = Vec::new();
    for i in 0..20 {
        ks.push(arena.insert(i));
    }
    for k in ks.iter().step_by(3) {
        arena.remove(*k);
    }
    let mut seen = std::collections::HashSet::new();
    let mut keys = arena.keys();
    while let Some(k) = keys.next() {
        assert!(seen.insert(k.as_u64()));
        assert!(arena.contains_key(k));
    }
    assert_eq!(seen.len(), arena.len());
}

#[test]
fn iter_keyed_mut_after_removal_writes_under_the_right_key() {
    let mut a: Arena<i32> = Arena::new();
    let k0 = a.insert(10);
    let k1 = a.insert(11);
    let k2 = a.insert(12);
    assert_eq!(a.remove(k0), Some(10));
    {
        let mut it = a.iter_keyed_mut();
        assert_eq!(it.size_hint(), (2, Some(2)));
        while let Some((k, x)) = it.next() {
            if k == k1 {
                *x += 100;
            }
        }
        assert_eq!(it.size_hint(), (0, Some(0)));
    }
    assert_eq!(a.get(k1), Some(&111));
    assert_eq!(a.get(k2), Some(&12));
    assert_eq!(a.len(), 2);
    assert!(!a.contains_key(k0));
}

struct RecordingHasher {
    writes: Vec<u64>,
    other_writes: usize,
}

impl std::hash::Hasher for RecordingHasher {
    fn finish(&self) -> u64 {
        0
    }
    fn write(&mut self, _: &[u8]) {
        self.other_writes += 1;
    }
    fn write_u64(&mut self, n: u64) {
        self.writes.push(n);
    }
}

#[test]
fn key_hashes_as_one_u64() {
    let k = Key::new(5, 3);
    let mut h = RecordingHasher { writes: Vec::new(), other_writes: 0 };
    k.hash(&mut h);
    assert_eq!(h.writes, vec![(3u64 << 32) | 5]);
    assert_eq!(h.other_writes, 0);
}
