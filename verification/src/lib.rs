//! Automata that walk tapes: grids of cells, tapes seen through a map on positions, and
//! tapes extended so that no lookup misses.

pub mod automaton;
pub mod store;
pub mod tape;
pub mod utils;

pub use automaton::Automaton;
pub use store::mmap;
pub use tape::map::TapeMap;
pub use tape::{extend, grid, Tape, TapeEntry};
pub use utils::kvec;
