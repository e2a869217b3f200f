# automic_core

Automata that walk tapes of cells, with their behaviour stated in contracts and proved
with Verus.

- `src/utils/kvec.rs`: `KVec<N>`, vectors of `i64` coordinates, with coordinate-wise
  `+` and `-` and the partial order in which `a < b` when every coordinate is below.
- `src/store.rs`: the `Store` trait, a fixed run of cells, and its `Vec` implementation.
  A store says whether it describes its cells; only such stores (like `Vec`) can be
  looked into by verified code.
  `src/store/mmap.rs` holds the computing parts of a file-backed store: the random
  hexadecimal name of the backing file, its length, and the loop that fills it.
- `src/tape.rs`: the `Tape` trait (lookups that hit or miss, writes through the cell
  found), and its implementation for `&mut T`.
  - `src/tape/grid.rs`: `Grid`, a box of cells between two corners, stored with the
    first coordinate varying fastest. Its laws: every position of the box has its own
    cell, every cell belongs to a position of the box, and a write is read back there
    and nowhere else in the box.
  - `src/tape/map.rs`: `TapeMap`, a tape looked up through a map on positions (such as
    a wrap-around onto a torus).
  - `src/tape/extend.rs`: `TapeExtension`, a tape that never misses. Where the base
    hits, a lookup gives the base's own cell; where it misses, the position gets a cell
    of its own, which starts as the fill value and keeps what is written to it, and which
    the base never sees. The cells are kept as a list of (position, value) entries with no
    position twice, searched with the position type's `==`; the extension works for any
    position type whose `==` is equality (for `KVec`, `lemma_kvec_eq_is_identity`).
- `src/automaton.rs`: `Automaton`, a head that reads the cell under it, writes the value
  its transition gives, and moves by the offset it gives.
- `app/`: `MmapVec`, the store backed by a memory-mapped file in `/var/tmp`.
