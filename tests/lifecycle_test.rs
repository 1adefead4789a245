use std::cell::Cell;
use std::fmt::Debug;
use std::rc::Rc;
use unsized_stack::UnsizedStack;

#[derive(Debug)]
struct Counted {
    drops: Rc<Cell<usize>>,
    tag: u64,
}

impl Drop for Counted {
    fn drop(&mut self) {
        self.drops.set(self.drops.get() + 1);
    }
}

fn counted(drops: &Rc<Cell<usize>>, tag: u64) -> Counted {
    Counted { drops: drops.clone(), tag }
}

#[test]
fn pops_undo_pushes_and_drop_each_once() {
    let drops = Rc::new(Cell::new(0));
    let mut stack = UnsizedStack::<dyn Debug>::new();
    stack.push(counted(&drops, 1), |item| item);
    stack.push("between", |item| item as _);
    stack.push(counted(&drops, 2), |item| item);
    stack.push([1u8, 2, 3], |item| item);
    stack.push(counted(&drops, 3), |item| item);
    assert_eq!(stack.len(), 5);
    assert_eq!(drops.get(), 0);

    for _ in 0..5 {
        assert_eq!(stack.pop(), Some(()));
    }
    assert_eq!(stack.len(), 0);
    assert_eq!(drops.get(), 3);
    assert_eq!(stack.pop(), None);
    assert_eq!(drops.get(), 3);
}

#[test]
fn end_to_end_scenario_drops_each_once() {
    let drops = Rc::new(Cell::new(0));
    let mut stack = UnsizedStack::<dyn Debug>::new();
    stack.push("str", |item| item as _);
    stack.push(1, |item| item as _);
    stack.push(28342.2, |item| item as _);
    stack.push(counted(&drops, 4), |item| item as _);
    assert_eq!(stack.len(), 4);
    stack.pop();
    assert_eq!(drops.get(), 1);
    stack.pop();
    stack.pop();
    stack.pop();
    assert_eq!(stack.len(), 0);
    assert_eq!(drops.get(), 1);
}

#[test]
fn truncate_keeps_prefix_and_reuses_region() {
    let drops = Rc::new(Cell::new(0));
    let mut stack = UnsizedStack::<dyn Debug>::new();
    stack.push(1u64, |item| item);
    stack.push(counted(&drops, 2), |item| item);
    stack.push(counted(&drops, 3), |item| item);
    stack.push(4u64, |item| item);
    let size = stack.buf_layout().size();
    let occupied = stack.bytes_occupied();

    stack.truncate(2);
    assert_eq!(stack.len(), 2);
    assert_eq!(drops.get(), 1);
    assert!(stack.get(2).is_none());
    assert_eq!(format!("{:?}", stack.get(0).unwrap()), "1");
    assert!(stack.bytes_occupied() < occupied);
    assert_eq!(stack.bytes_occupied(), 8 + std::mem::size_of::<Counted>());

    stack.push(5u64, |item| item);
    assert_eq!(stack.buf_layout().size(), size);
    assert_eq!(format!("{:?}", stack.last().unwrap()), "5");

    stack.truncate(10);
    assert_eq!(stack.len(), 3);
    assert_eq!(drops.get(), 1);
}

#[test]
fn clear_drops_all_and_keeps_region() {
    let drops = Rc::new(Cell::new(0));
    let mut stack = UnsizedStack::<dyn Debug>::new();
    stack.push(counted(&drops, 1), |item| item);
    stack.push(counted(&drops, 2), |item| item);
    let layout = stack.buf_layout();
    stack.clear();
    assert_eq!(drops.get(), 2);
    assert_eq!(stack.len(), 0);
    assert_eq!(stack.bytes_occupied(), 0);
    assert_eq!(stack.buf_layout(), layout);
}

#[test]
fn dropping_the_stack_drops_the_rest() {
    let drops = Rc::new(Cell::new(0));
    {
        let mut stack = UnsizedStack::<dyn Debug>::new();
        stack.push(counted(&drops, 1), |item| item);
        stack.push(counted(&drops, 2), |item| item);
        stack.pop();
        assert_eq!(drops.get(), 1);
    }
    assert_eq!(drops.get(), 2);
}

#[test]
fn iteration_forward_backward_and_lengths() {
    let mut stack = UnsizedStack::<str>::new();
    for s in ["a", "bb", "", "dddd"] {
        stack.push(s, |item| Box::from(*item));
    }

    let mut it = stack.iter();
    assert_eq!(it.len(), 4);
    assert_eq!(it.size_hint(), (4, Some(4)));
    assert_eq!(it.next(), Some("a"));
    assert_eq!(it.len(), 3);
    assert_eq!(it.next_back(), Some("dddd"));
    assert_eq!(it.len(), 2);
    assert_eq!(it.next(), Some("bb"));
    assert_eq!(it.next(), Some(""));
    assert_eq!(it.len(), 0);
    assert_eq!(it.next(), None);
    assert_eq!(it.next_back(), None);

    let mut back = stack.iter();
    let mut reversed = Vec::new();
    while let Some(s) = back.next_back() {
        reversed.push(s.to_string());
    }
    assert_eq!(reversed, vec!["dddd", "", "bb", "a"]);

    let mut it = stack.iter();
    assert_eq!(it.nth(2), Some(""));
    assert_eq!(it.len(), 1);
    assert_eq!(it.nth(1), None);
    assert_eq!(it.len(), 0);

    let mut it = stack.iter();
    assert_eq!(it.nth_back(1), Some(""));
    assert_eq!(it.count(), 2);

    let mut it = stack.iter_mut();
    assert_eq!(it.len(), 4);
    assert_eq!(it.nth_back(0).map(|s| s.len()), Some(4));
    assert_eq!(it.nth(1).map(|s| s.len()), Some(2));
    assert_eq!(it.size_hint(), (1, Some(1)));
    assert_eq!(it.next().map(|s| s.len()), Some(0));
    assert_eq!(it.next(), None);
}

#[test]
fn truncate_matches_repeated_pops() {
    let mut cut = UnsizedStack::<dyn Debug>::new();
    let mut popped = UnsizedStack::<dyn Debug>::new();
    for stack in [&mut cut, &mut popped] {
        stack.push(1u8, |item| item);
        stack.push([0u32; 0], |item| item);
        stack.push(2u64, |item| item);
        stack.push((), |item| item);
        stack.push(3u16, |item| item);
    }
    cut.truncate(1);
    for _ in 0..4 {
        popped.pop();
    }
    assert_eq!(cut.len(), popped.len());
    assert_eq!(cut.bytes_occupied(), popped.bytes_occupied());
    assert_eq!(cut.bytes_occupied(), 8);
    assert_eq!(cut.buf_layout(), popped.buf_layout());
}
