use automic_core::grid::Grid;
use automic_core::kvec::KVec;
use automic_core::{Tape, TapeEntry};

fn read<T: Tape<KVec<2>, u8>>(t: &mut T, x: i64, y: i64) -> Option<u8> {
    match t.get(&KVec([x, y])) {
        TapeEntry::Hit(v) => Some(*v),
        TapeEntry::Miss => None,
    }
}

fn write<T: Tape<KVec<2>, u8>>(t: &mut T, x: i64, y: i64, v: u8) -> bool {
    match t.get_mut(&KVec([x, y])) {
        TapeEntry::Hit(c) => {
            *c = v;
            true
        }
        TapeEntry::Miss => false,
    }
}

fn grid() -> Grid<2, u8, Vec<u8>> {
    Grid::fill(KVec([0, 0]), KVec([9, 9]), 3)
}

#[test]
fn grid_fill_sets_corners_and_size() {
    let g = grid();
    assert_eq!(g.lower(), KVec([0, 0]));
    assert_eq!(g.upper(), KVec([9, 9]));
    assert_eq!(g.size(), KVec([10, 10]));
}

#[test]
fn grid_size_of_offset_box() {
    let g: Grid<3, u8, Vec<u8>> = Grid::fill(KVec([-2, 5, 1]), KVec([3, 7, 2]), 0);
    assert_eq!(g.size(), KVec([6, 3, 2]));
}

#[test]
fn grid_fill_reads_fill_everywhere_in_the_box() {
    let mut g = grid();
    for x in 0..10 {
        for y in 0..10 {
            assert_eq!(read(&mut g, x, y), Some(3));
        }
    }
}

#[test]
fn grid_read_gives_back_a_write() {
    let mut g = grid();
    assert!(write(&mut g, 4, 7, 42));
    assert_eq!(read(&mut g, 4, 7), Some(42));
}

#[test]
fn grid_write_leaves_other_cells() {
    let mut g = grid();
    assert!(write(&mut g, 4, 7, 42));
    for x in 0..10 {
        for y in 0..10 {
            if (x, y) != (4, 7) {
                assert_eq!(read(&mut g, x, y), Some(3));
            }
        }
    }
}

#[test]
fn grid_every_cell_is_its_own() {
    let mut g = grid();
    for x in 0..10 {
        for y in 0..10 {
            assert!(write(&mut g, x, y, (10 * x + y) as u8));
        }
    }
    for x in 0..10 {
        for y in 0..10 {
            assert_eq!(read(&mut g, x, y), Some((10 * x + y) as u8));
        }
    }
}

#[test]
fn grid_misses_below_in_every_coordinate() {
    let mut g = grid();
    assert_eq!(read(&mut g, -1, -1), None);
    assert!(!write(&mut g, -1, -5, 1));
}

#[test]
fn grid_misses_above_in_every_coordinate() {
    let mut g = grid();
    assert_eq!(read(&mut g, 10, 10), None);
    assert!(!write(&mut g, 12, 30, 1));
}

#[test]
fn grid_partly_outside_position_finds_the_linear_cell() {
    // (-1, 5) is below the box in x only: its offset (-1, 5) gives index 5 * 10 - 1 = 49,
    // the cell of (9, 4).
    let mut g = grid();
    assert!(write(&mut g, 9, 4, 77));
    assert_eq!(read(&mut g, -1, 5), Some(77));
    assert!(write(&mut g, 10, 0, 55));
    assert_eq!(read(&mut g, 0, 1), Some(55));
}

#[test]
fn grid_reading_changes_nothing() {
    let mut g = grid();
    assert!(write(&mut g, 2, 2, 9));
    let _ = read(&mut g, 2, 2);
    let _ = read(&mut g, 5, 5);
    assert_eq!(read(&mut g, 2, 2), Some(9));
    assert_eq!(read(&mut g, 5, 5), Some(3));
}

#[test]
fn grid_through_a_mutable_reference() {
    let mut g = grid();
    {
        let mut r = &mut g;
        assert!(write(&mut r, 1, 1, 8));
        assert_eq!(read(&mut r, 1, 1), Some(8));
    }
    assert_eq!(read(&mut g, 1, 1), Some(8));
}

#[test]
fn grid_try_fill_with_vec_gives_a_grid() {
    let g: Option<Grid<1, u8, Vec<u8>>> = Grid::try_fill(KVec([0]), KVec([4]), 1);
    assert!(g.is_some());
    assert_eq!(g.unwrap().size(), KVec([5]));
}

#[test]
fn grid_one_dimensional_box() {
    let mut g: Grid<1, i32, Vec<i32>> = Grid::fill(KVec([-3]), KVec([3]), -1);
    if let TapeEntry::Hit(c) = g.get_mut(&KVec([-3])) {
        *c = 100;
    }
    match g.get(&KVec([-3])) {
        TapeEntry::Hit(v) => assert_eq!(*v, 100),
        TapeEntry::Miss => panic!("expected a cell"),
    }
    assert!(matches!(g.get(&KVec([4])), TapeEntry::Miss));
    assert!(matches!(g.get(&KVec([-4])), TapeEntry::Miss));
}
