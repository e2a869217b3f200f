use automic_core::extend::extend_tape;
use automic_core::grid::Grid;
use automic_core::kvec::KVec;
use automic_core::{Automaton, Tape, TapeEntry};

fn read<T: Tape<KVec<1>, u8>>(t: &mut T, x: i64) -> Option<u8> {
    match t.get(&KVec([x])) {
        TapeEntry::Hit(v) => Some(*v),
        TapeEntry::Miss => None,
    }
}

#[test]
fn automaton_without_start_does_nothing() {
    let mut g: Grid<1, u8, Vec<u8>> = Grid::fill(KVec([0]), KVec([3]), 0);
    let mut a = Automaton::new(|v: &u8| (KVec([1]), *v + 1));
    assert_eq!(a.next(&mut g), None);
    assert_eq!(read(&mut g, 0), Some(0));
}

#[test]
fn automaton_writes_and_moves() {
    let mut g: Grid<1, u8, Vec<u8>> = Grid::fill(KVec([0]), KVec([3]), 0);
    let mut a = Automaton::new(|v: &u8| (KVec([1]), *v + 1));
    a.start(KVec([0]));
    assert_eq!(a.next(&mut g), Some((KVec([0]), 1)));
    assert_eq!(a.next(&mut g), Some((KVec([1]), 1)));
    assert_eq!(read(&mut g, 0), Some(1));
    assert_eq!(read(&mut g, 1), Some(1));
    assert_eq!(read(&mut g, 2), Some(0));
}

#[test]
fn automaton_stops_where_the_tape_misses() {
    let mut g: Grid<1, u8, Vec<u8>> = Grid::fill(KVec([0]), KVec([2]), 0);
    let mut a = Automaton::new(|v: &u8| (KVec([1]), *v + 5));
    a.start(KVec([1]));
    assert_eq!(a.next(&mut g), Some((KVec([1]), 5)));
    assert_eq!(a.next(&mut g), Some((KVec([2]), 5)));
    assert_eq!(a.next(&mut g), None);
    assert_eq!(a.next(&mut g), None);
    assert_eq!(read(&mut g, 0), Some(0));
}

#[test]
fn automaton_can_be_restarted() {
    let mut g: Grid<1, u8, Vec<u8>> = Grid::fill(KVec([0]), KVec([1]), 0);
    let mut a = Automaton::new(|v: &u8| (KVec([5]), *v + 1));
    a.start(KVec([0]));
    assert_eq!(a.next(&mut g), Some((KVec([0]), 1)));
    assert_eq!(a.next(&mut g), None);
    a.start(KVec([0]));
    assert_eq!(a.next(&mut g), Some((KVec([0]), 2)));
}

#[test]
fn automaton_turns_on_what_it_reads() {
    // A value of zero sends the head right, anything else sends it left.
    let mut g: Grid<1, u8, Vec<u8>> = Grid::fill(KVec([0]), KVec([4]), 0);
    let mut a = Automaton::new(|v: &u8| {
        if *v == 0 {
            (KVec([1]), 1u8)
        } else {
            (KVec([-1]), 0u8)
        }
    });
    a.start(KVec([2]));
    assert_eq!(a.next(&mut g), Some((KVec([2]), 1)));
    assert_eq!(a.next(&mut g), Some((KVec([3]), 1)));
    assert_eq!(a.next(&mut g), Some((KVec([4]), 1)));
    assert_eq!(a.next(&mut g), None);
}

#[test]
fn automaton_on_an_extended_tape_never_stops() {
    let g: Grid<1, u8, Vec<u8>> = Grid::fill(KVec([0]), KVec([1]), 0);
    let mut e = extend_tape(g, 0u8);
    let mut a = Automaton::new(|v: &u8| (KVec([1]), *v + 2));
    a.start(KVec([0]));
    for k in 0..10 {
        assert_eq!(a.next(&mut e), Some((KVec([k]), 2)));
    }
    assert_eq!(read(&mut e, 9), Some(2));
    assert_eq!(read(&mut e, 10), Some(0));
}

#[test]
fn automaton_through_a_mutable_reference() {
    let mut g: Grid<1, u8, Vec<u8>> = Grid::fill(KVec([0]), KVec([3]), 0);
    let mut a = Automaton::new(|v: &u8| (KVec([2]), *v + 3));
    a.start(KVec([0]));
    {
        let mut r = &mut g;
        assert_eq!(a.next(&mut r), Some((KVec([0]), 3)));
    }
    assert_eq!(read(&mut g, 0), Some(3));
    assert_eq!(a.next(&mut g), Some((KVec([2]), 3)));
}
