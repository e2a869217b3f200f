use automic_core::mmap::{backing_len, backing_name, backing_name_for, fill_slice};
use automic_core::store::Store;

#[test]
fn vec_store_fill_get_and_write() {
    let mut s: Vec<u16> = <Vec<u16> as Store<u16>>::fill(4, 9).unwrap();
    assert_eq!(s.len(), 4);
    assert_eq!(*Store::get(&mut s, 3), 9);
    *Store::get_mut(&mut s, 2) = 11;
    assert_eq!(*Store::get(&mut s, 2), 11);
    assert_eq!(s, vec![9, 9, 11, 9]);
}

#[test]
fn vec_store_of_nothing() {
    let s: Vec<u8> = <Vec<u8> as Store<u8>>::fill(0, 1).unwrap();
    assert!(s.is_empty());
}

#[test]
fn backing_name_is_lowercase_hex() {
    let name = [0x00, 0x01, 0x0f, 0x10, 0xab, 0xff, 0x7e, 0x80, 0, 0, 0, 0, 0, 0, 0, 0x5a];
    assert_eq!(backing_name_for(&name), "00010f10abff7e80000000000000005a");
}

#[test]
fn fresh_backing_names_are_thirty_two_hex_digits() {
    let a = backing_name();
    assert_eq!(a.len(), 32);
    assert!(a.chars().all(|c| c.is_ascii_digit() || ('a'..='f').contains(&c)));
}

#[test]
fn backing_len_is_cell_size_times_count() {
    assert_eq!(backing_len::<u32>(10), 40);
    assert_eq!(backing_len::<[u8; 3]>(5), 15);
    assert_eq!(backing_len::<u64>(0), 0);
}

#[test]
fn fill_slice_sets_every_cell() {
    let mut b = [1u8, 2, 3, 4, 5];
    fill_slice(&mut b, &7);
    assert_eq!(b, [7; 5]);
    let mut e: [String; 2] = [String::new(), String::from("x")];
    fill_slice(&mut e, &String::from("ab"));
    assert_eq!(e, [String::from("ab"), String::from("ab")]);
}
