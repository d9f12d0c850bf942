use rendy_shader::util::{cast_cow, cast_slice, cast_vec, is_slice_sorted, is_slice_sorted_by_key};
use std::borrow::Cow;

#[test]
fn sorted_slices() {
    assert!(is_slice_sorted::<u32>(&[]));
    assert!(is_slice_sorted(&[5]));
    assert!(is_slice_sorted(&[1, 2, 2, 3]));
    assert!(!is_slice_sorted(&[1, 3, 2]));
    assert!(!is_slice_sorted(&[2, 1]));
}

#[test]
fn sorted_by_key() {
    let items = [(9, 1), (3, 2), (7, 2), (1, 5)];
    assert!(is_slice_sorted_by_key(&items, |p: &(i32, i32)| p.1));
    assert!(!is_slice_sorted_by_key(&items, |p: &(i32, i32)| p.0));
    let words = ["a", "bb", "ccc", "dd"];
    assert!(!is_slice_sorted_by_key(&words, |w: &&str| w.len()));
}

#[test]
fn casts_are_little_endian() {
    assert_eq!(cast_slice(&[0x04030201u32, 0xddccbbaa]), vec![1, 2, 3, 4, 0xaa, 0xbb, 0xcc, 0xdd]);
    assert_eq!(cast_vec(vec![0x07230203u32]), vec![0x03, 0x02, 0x23, 0x07]);
    assert!(cast_slice(&[]).is_empty());
    let words = [0x11223344u32];
    let borrowed = cast_cow(Cow::Borrowed(&words[..]));
    assert_eq!(&*borrowed, &[0x44u8, 0x33, 0x22, 0x11][..]);
    let owned = cast_cow(Cow::Owned(vec![1u32]));
    assert_eq!(&*owned, &[1u8, 0, 0, 0][..]);
}

