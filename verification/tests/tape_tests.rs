use automic_core::extend::extend_tape;
use automic_core::grid::Grid;
use automic_core::kvec::KVec;
use automic_core::{Tape, TapeEntry, TapeMap};

fn read<T: Tape<KVec<2>, u8>>(t: &mut T, x: i64, y: i64) -> Option<u8> {
    match t.get(&KVec([x, y])) {
        TapeEntry::Hit(v) => Some(*v),
        TapeEntry::Miss => None,
    }
}

fn write<T: Tape<KVec<2>, u8>>(t: &mut T, x: i64, y: i64, v: u8) -> bool {
    match t.get_mut(&KVec([x, y])) {
        TapeEntry::Hit(c) => {
            *c = v;
            true
        }
        TapeEntry::Miss => false,
    }
}

fn grid() -> Grid<2, u8, Vec<u8>> {
    Grid::fill(KVec([0, 0]), KVec([3, 3]), 0)
}

#[test]
fn map_wraps_positions_onto_a_torus() {
    let mut g = grid();
    let mut torus = (&mut g).map(|p: &KVec<2>| KVec([p.0[0].rem_euclid(4), p.0[1].rem_euclid(4)]));
    assert!(write(&mut torus, 5, -1, 9));
    assert_eq!(read(&mut torus, 1, 3), Some(9));
    assert_eq!(read(&mut torus, -3, 7), Some(9));
    assert_eq!(read(&mut torus, 0, 0), Some(0));
    assert_eq!(read(&mut g, 1, 3), Some(9));
}

#[test]
fn map_new_reads_base_at_mapped_position() {
    let g = grid();
    let mut shifted = TapeMap::new(g, |p: &KVec<2>| *p + KVec([1, 1]));
    assert!(write(&mut shifted, 0, 0, 4));
    assert_eq!(read(&mut shifted, 0, 0), Some(4));
    assert_eq!(read(&mut shifted, 3, 3), None);
    assert_eq!(read(&mut shifted.base, 1, 1), Some(4));
}

#[test]
fn extension_never_misses() {
    let g = grid();
    let mut e = extend_tape(g, 7u8);
    assert_eq!(read(&mut e, 100, 100), Some(7));
    assert_eq!(read(&mut e, -5, -5), Some(7));
    assert_eq!(read(&mut e, 2, 2), Some(0));
}

#[test]
fn extension_keeps_writes_outside_the_base() {
    let g = grid();
    let mut e = extend_tape(g, 7u8);
    assert!(write(&mut e, 100, 100, 1));
    assert!(write(&mut e, 101, 100, 2));
    assert_eq!(read(&mut e, 100, 100), Some(1));
    assert_eq!(read(&mut e, 101, 100), Some(2));
    assert_eq!(read(&mut e, 102, 100), Some(7));
}

#[test]
fn extension_writes_inside_the_base_reach_the_base() {
    let g = grid();
    let mut e = extend_tape(g, 7u8);
    assert!(write(&mut e, 1, 2, 5));
    assert!(write(&mut e, -1, -1, 6));
    let mut base = e.base();
    assert_eq!(read(&mut base, 1, 2), Some(5));
    assert_eq!(read(&mut base, -1, -1), None);
}

#[test]
fn extension_of_a_mapped_tape() {
    let mut g = grid();
    {
        let shifted = (&mut g).map(|p: &KVec<2>| *p - KVec([10, 10]));
        let mut e = extend_tape(shifted, 8u8);
        assert!(write(&mut e, 11, 11, 3));
        assert_eq!(read(&mut e, 0, 0), Some(8));
    }
    assert_eq!(read(&mut g, 1, 1), Some(3));
}

#[test]
fn extension_scenario_on_a_small_grid() {
    let g: Grid<1, u8, Vec<u8>> = Grid::fill(KVec([0]), KVec([1]), 1);
    let mut e = automic_core::extend::extend_tape(g, 9u8);
    if let TapeEntry::Hit(r) = e.get_mut(&KVec([5])) {
        *r = 4;
    }
    assert!(matches!(e.get(&KVec([5])), TapeEntry::Hit(&4)));
    assert!(matches!(e.get(&KVec([0])), TapeEntry::Hit(&1)));
    assert!(matches!(e.get(&KVec([6])), TapeEntry::Hit(&9)));
    assert!(matches!(e.get(&KVec([-1])), TapeEntry::Hit(&9)));
    match e.get_mut(&KVec([1])) {
        TapeEntry::Hit(r) => assert_eq!(*r, 1),
        TapeEntry::Miss => panic!("an extension never misses"),
    }
    let mut b = e.base();
    assert!(matches!(b.get(&KVec([5])), TapeEntry::Miss));
}
