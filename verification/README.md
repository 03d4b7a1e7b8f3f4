# vibarena

A generational arena. Values are stored densely in a vector; each value is
addressed by a `Key` made of a slot index and the generation of that slot.
Removing a value advances its slot's generation, so old keys stop matching.

Layout:

- `src/arena.rs`: `Key` and `Arena`, their specifications (a map view from
  keys to values, the dense value order, the slot order and the generations)
  and the verified operations.
- `src/iter.rs`: key, key/value and key/mutable-value iterators.
- `src/laws.rs`: proved properties that span several operations.
- `app/lib.rs`: hashing-free maps and sets keyed by arena keys, and std
  `Iterator` adapters.
- `tests/`: behaviour tests.
