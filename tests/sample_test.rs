use std::fmt::Debug;
use unsized_stack::UnsizedStack;

fn show(stack: &UnsizedStack<dyn Debug>) -> Vec<String> {
    let mut out = Vec::new();
    let mut it = stack.iter();
    while let Some(v) = it.next() {
        out.push(format!("{:?}", v));
    }
    out
}

#[test]
fn sample_test_trait_stack_test() {
    let mut stack = UnsizedStack::<dyn Debug>::new();

    stack.push("str", |item| item as _);
    stack.push(1, |item| item as _);
    stack.push(28342.2, |item| item as _);
    stack.push("String".to_string(), |item| item as _);

    println!("{:?}", show(&stack));
    assert_eq!(stack.len(), 4);

    stack.pop();
    stack.pop();
    stack.pop();
    stack.pop();

    assert_eq!(stack.len(), 0);
}

#[test]
fn sample_test_str_stack_test() {
    let mut stack = UnsizedStack::<str>::new();

    stack.push("String", |item| Box::from(*item));
    stack.push("ASDF", |item| Box::from(*item));

    assert_eq!(stack.get(0), Some("String"));
    assert_eq!(stack.len(), 2);

    stack.pop();
    stack.pop();

    assert_eq!(stack.len(), 0);
}

#[test]
fn get_gives_each_pushed_value() {
    let mut stack = UnsizedStack::<dyn Debug>::new();
    stack.push("str", |item| item as _);
    stack.push(1, |item| item as _);
    stack.push(28342.2, |item| item as _);
    stack.push("String".to_string(), |item| item as _);

    let expected = ["\"str\"", "1", "28342.2", "\"String\""];
    for (i, e) in expected.iter().enumerate() {
        assert_eq!(format!("{:?}", stack.get(i).unwrap()), *e);
    }
    assert!(stack.get(4).is_none());
    assert_eq!(format!("{:?}", stack.last().unwrap()), "\"String\"");
    assert_eq!(show(&stack), expected.to_vec());
}

#[test]
fn empty_stack_gives_nothing() {
    let mut stack = UnsizedStack::<dyn Debug>::new();
    assert!(stack.is_empty());
    assert!(stack.last().is_none());
    assert!(stack.last_mut().is_none());
    assert!(stack.get(0).is_none());
    assert!(stack.get_mut(0).is_none());
    assert_eq!(stack.pop(), None);
    assert_eq!(stack.len(), 0);
}
