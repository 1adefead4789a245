use std::fmt::Debug;
use unsized_stack::UnsizedStack;

#[test]
fn variant_test_trait_stack_test() {
    let mut stack = UnsizedStack::<dyn Debug>::new();

    stack.push("str", |item| item as _);
    stack.push(1, |item| item as _);
    stack.push(28342.2, |item| item as _);
    stack.push("String".to_string(), |item| item as _);

    assert_eq!(stack.len(), 4);
}

#[test]
fn variant_test_str_stack_test() {
    let mut stack = UnsizedStack::<str>::new();

    stack.push("", |item| Box::from(*item)); // zero-sized
    stack.push("ASDF", |item| Box::from(*item));

    assert_eq!(stack.get(1), Some("ASDF"));
    assert_eq!(stack.len(), 2);
}

#[test]
fn slice_stack_test() {
    let mut stack = UnsizedStack::<[i32]>::new();

    stack.push([1, 2, 3, 4], |item| item);
    stack.push([5, 6], |item| item);
    stack.push([7, 8, 9], |item| item);

    assert_eq!(stack.get(1), Some(&[5, 6][..]));
    assert_eq!(stack.len(), 3);
}

#[test]
fn slice_values_change_in_place() {
    let mut stack = UnsizedStack::<[i32]>::new();
    stack.push([1, 2, 3, 4], |item| item);
    stack.push([5, 6], |item| item);
    stack.push([7, 8, 9], |item| item);

    stack.get_mut(1).unwrap()[0] = 50;
    stack.last_mut().unwrap()[2] = 90;
    assert_eq!(stack.get(1), Some(&[50, 6][..]));
    assert_eq!(stack.get(2), Some(&[7, 8, 90][..]));

    let mut it = stack.iter_mut();
    while let Some(s) = it.next() {
        s[0] += 1;
    }
    assert_eq!(stack.get(0), Some(&[2, 2, 3, 4][..]));
    assert_eq!(stack.get(1), Some(&[51, 6][..]));
    assert_eq!(stack.get(2), Some(&[8, 8, 90][..]));
    assert_eq!(stack.bytes_occupied(), 36);
}

#[test]
fn zero_size_values_never_allocate() {
    let mut stack = UnsizedStack::<str>::new();
    for round in 0..3 {
        for _ in 0..100 {
            stack.push("", |item| Box::from(*item));
            assert_eq!(stack.buf_layout().size(), 0);
        }
        assert_eq!(stack.len(), 100);
        for _ in 0..(40 + round) {
            assert_eq!(stack.pop(), Some(()));
        }
        stack.clear();
        assert_eq!(stack.buf_layout().size(), 0);
        assert_eq!(stack.bytes_occupied(), 0);
    }
    assert_eq!(stack.get(0), None);
}
