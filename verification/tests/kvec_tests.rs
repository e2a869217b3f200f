use std::cmp::Ordering;

use automic_core::kvec::KVec;

#[test]
fn kvec_add_is_coordinatewise() {
    assert_eq!(KVec([1, -2, 3]) + KVec([10, 20, -30]), KVec([11, 18, -27]));
}

#[test]
fn kvec_sub_is_coordinatewise() {
    assert_eq!(KVec([1, -2, 3]) - KVec([10, 20, -30]), KVec([-9, -22, 33]));
}

#[test]
fn kvec_sub_undoes_add() {
    let a = KVec([7, -3]);
    let b = KVec([-100, 42]);
    assert_eq!((a + b) - b, a);
    assert_eq!((a - b) + b, a);
}

#[test]
fn kvec_add_commutes() {
    let a = KVec([7, -3, 5]);
    let b = KVec([-100, 42, 0]);
    assert_eq!(a + b, b + a);
}

#[test]
fn kvec_zero_is_neutral() {
    let z: KVec<3> = KVec::zero();
    assert_eq!(z, KVec([0, 0, 0]));
    assert_eq!(KVec([4, 5, 6]) + z, KVec([4, 5, 6]));
}

#[test]
fn kvec_equality_compares_all_coordinates() {
    assert!(KVec([1, 2, 3]) == KVec([1, 2, 3]));
    assert!(KVec([1, 2, 3]) != KVec([1, 2, 4]));
    assert!(KVec([0, 2, 3]) != KVec([1, 2, 3]));
}

#[test]
fn kvec_all_below_is_less() {
    assert_eq!(KVec([0, 0]).partial_cmp(&KVec([1, 5])), Some(Ordering::Less));
    assert!(KVec([0, 0]) < KVec([1, 5]));
    assert!(KVec([0, 0]) <= KVec([1, 5]));
}

#[test]
fn kvec_all_above_is_greater() {
    assert_eq!(KVec([3, 9]).partial_cmp(&KVec([1, 5])), Some(Ordering::Greater));
    assert!(KVec([3, 9]) > KVec([1, 5]));
}

#[test]
fn kvec_all_equal_is_equal() {
    assert_eq!(KVec([3, 9]).partial_cmp(&KVec([3, 9])), Some(Ordering::Equal));
    assert!(KVec([3, 9]) <= KVec([3, 9]));
    assert!(KVec([3, 9]) >= KVec([3, 9]));
}

#[test]
fn kvec_mixed_is_unordered() {
    assert_eq!(KVec([0, 9]).partial_cmp(&KVec([1, 5])), None);
    assert_eq!(KVec([1, 9]).partial_cmp(&KVec([1, 5])), None);
    assert!(!(KVec([0, 5]) <= KVec([1, 5])));
    assert!(!(KVec([0, 5]) < KVec([1, 5])));
    assert!(!(KVec([0, 5]) > KVec([1, 5])));
}

#[test]
fn kvec_order_is_swapped_by_swapping_operands() {
    let a = KVec([0, 1, 2]);
    let b = KVec([5, 6, 7]);
    assert_eq!(a.partial_cmp(&b), Some(Ordering::Less));
    assert_eq!(b.partial_cmp(&a), Some(Ordering::Greater));
}

#[test]
fn kvec_less_is_transitive() {
    let a = KVec([0, 1]);
    let b = KVec([2, 3]);
    let c = KVec([4, 5]);
    assert!(a < b && b < c && a < c);
}

#[test]
fn kvec_of_no_coordinates_compares_equal() {
    let a: KVec<0> = KVec([]);
    assert_eq!(a.partial_cmp(&KVec([])), Some(Ordering::Equal));
}
