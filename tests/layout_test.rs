use std::fmt::Debug;
use unsized_stack::fat_ptr::{check_valid, FatPtr};
use unsized_stack::layout::{is_power_of_two, next_power_of_two, round_up_to, Layout};
use unsized_stack::raw::{Offset, TableItem};

#[test]
fn layout_validity() {
    assert_eq!(Layout::from_size_align(16, 8), Some(Layout { size: 16, align: 8 }));
    assert_eq!(Layout::from_size_align(0, 1), Some(Layout { size: 0, align: 1 }));
    assert_eq!(Layout::from_size_align(3, 3), None);
    assert_eq!(Layout::from_size_align(8, 0), None);
    assert_eq!(Layout::from_size_align(isize::MAX as usize, 2), None);
    assert_eq!(
        Layout::from_size_align(isize::MAX as usize - 1, 2),
        Some(Layout { size: isize::MAX as usize - 1, align: 2 })
    );
    let v: &[u16] = &[1, 2, 3];
    assert_eq!(Layout::for_value(v), Layout { size: 6, align: 2 });
}

#[test]
fn power_of_two_arithmetic() {
    assert!(is_power_of_two(1));
    assert!(is_power_of_two(64));
    assert!(!is_power_of_two(0));
    assert!(!is_power_of_two(12));
    assert_eq!(next_power_of_two(0), 1);
    assert_eq!(next_power_of_two(1), 1);
    assert_eq!(next_power_of_two(5), 8);
    assert_eq!(next_power_of_two(64), 64);
    assert_eq!(next_power_of_two(65), 128);
    assert_eq!(round_up_to(0, 8), 0);
    assert_eq!(round_up_to(13, 8), 16);
    assert_eq!(round_up_to(16, 8), 16);
    assert_eq!(round_up_to(33, 1), 33);
}

#[test]
fn fat_pointers_of_entries() {
    let data = TableItem::new(Offset::Data(8), 24);
    let p = data.to_fat_ptr(100);
    assert_eq!(p.ptr(), 108);
    assert_eq!(p.metadata(), 24);

    let zst = TableItem::new(Offset::Zst(64), 0);
    let q = zst.to_fat_ptr(100);
    assert_eq!(q.ptr(), 64);
    assert_eq!(q.metadata(), 0);

    let wrapped = TableItem::new(Offset::Data(4), 1).to_fat_ptr(usize::MAX);
    assert_eq!(wrapped.ptr(), 3);

    let f = FatPtr::new(7, 9);
    assert_eq!((f.ptr(), f.metadata()), (7, 9));
}

#[test]
fn element_types_must_have_two_word_references() {
    assert!(check_valid::<dyn Debug>());
    assert!(check_valid::<str>());
    assert!(check_valid::<[i32]>());
    assert!(!check_valid::<u8>());
}
