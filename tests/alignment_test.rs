use std::fmt::Debug;
use unsized_stack::layout::Layout;
use unsized_stack::raw::{Offset, RawUnsizedStack};
use unsized_stack::UnsizedStack;

fn layout(size: usize, align: usize) -> Layout {
    Layout::from_size_align(size, align).unwrap()
}

#[test]
pub fn alignment_test() {
    let mut stack = RawUnsizedStack::<dyn Debug>::new();

    stack.reserve_for_push(layout(32, 32));
    stack.reserve_for_push(layout(128, 128));
    stack.reserve_for_push(layout(512, 512));
    stack.reserve_for_push(layout(0, 1024)); // zero-sized

    assert_eq!(stack.buf_layout().align(), 512);
}

#[test]
fn offsets_follow_alignment_and_powers_of_two() {
    let mut stack = RawUnsizedStack::<dyn Debug>::new();
    assert_eq!(stack.buf_layout(), layout(0, 16));

    assert_eq!(stack.reserve_for_push(layout(32, 32)), Offset::Data(0));
    assert_eq!(stack.bytes_occupied(), 32);
    assert_eq!(stack.buf_layout(), layout(32, 32));

    assert_eq!(stack.reserve_for_push(layout(128, 128)), Offset::Data(128));
    assert_eq!(stack.bytes_occupied(), 256);
    assert_eq!(stack.buf_layout(), layout(256, 128));

    assert_eq!(stack.reserve_for_push(layout(512, 512)), Offset::Data(512));
    assert_eq!(stack.bytes_occupied(), 1024);
    assert_eq!(stack.buf_layout(), layout(1024, 512));

    assert_eq!(stack.reserve_for_push(layout(0, 1024)), Offset::Zst(1024));
    assert_eq!(stack.bytes_occupied(), 1024);
    assert_eq!(stack.buf_layout(), layout(1024, 512));

    assert_eq!(stack.reserve_for_push(layout(3, 1)), Offset::Data(1024));
    assert_eq!(stack.bytes_occupied(), 1027);
    assert_eq!(stack.buf_layout(), layout(2048, 512));
    assert_eq!(stack.len(), 0);
}

#[test]
fn table_records_offsets_and_zero_size_alignment() {
    let mut raw = RawUnsizedStack::<dyn Debug>::new();
    raw.push(1u8, |item| item);
    raw.push(2u32, |item| item);
    raw.push([0u64; 0], |item| item);
    raw.push(3u16, |item| item);
    let table = raw.table();
    assert_eq!(table.len(), 4);
    assert_eq!(table[0].offset, Offset::Data(0));
    assert_eq!(table[0].metadata, 1);
    assert_eq!(table[1].offset, Offset::Data(4));
    assert_eq!(table[1].metadata, 4);
    assert_eq!(table[2].offset, Offset::Zst(8));
    assert_eq!(table[2].metadata, 0);
    assert_eq!(table[3].offset, Offset::Data(8));
    assert_eq!(table[3].metadata, 2);
    assert_eq!(raw.bytes_occupied(), 10);
    assert_eq!(raw.buf_layout(), layout(16, 16));
    assert!(raw.table_capacity() >= 4);
    assert_eq!(raw.len(), 4);
}

#[test]
fn zero_size_push_keeps_region() {
    let mut stack = UnsizedStack::<dyn Debug>::new();
    stack.push(7u64, |item| item);
    let before = stack.buf_layout();
    let occupied = stack.bytes_occupied();
    stack.push([0u64; 0], |item| item);
    stack.push((), |item| item);
    assert_eq!(stack.buf_layout(), before);
    assert_eq!(stack.bytes_occupied(), occupied);
    assert_eq!(stack.len(), 3);
}
