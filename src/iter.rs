//! Iteration over the values of a stack, from the front and from the back.
use vstd::prelude::*;

use crate::raw::RawUnsizedStack;

verus! {

/// Shared iteration over a stack's values, in push order.
pub struct Iter<'a, T: ?Sized> {
    items: &'a [Box<T>],
    front: usize,
    back: usize,
}

impl<'a, T: ?Sized> Iter<'a, T> {
    #[verifier::type_invariant]
    closed spec fn inv(&self) -> bool {
        self.front <= self.back <= self.items@.len()
    }

    /// The values still to come, front first.
    pub closed spec fn remaining(&self) -> Seq<Box<T>> {
        self.items@.subrange(self.front as int, self.back as int)
    }

    /// Starts at the first value pushed and ends at the last.
    pub fn new(raw: &'a RawUnsizedStack<T>) -> (r: Self)
        requires
            raw.wf(),
        ensures
            r.remaining() == raw@.items,
    {
        let items = raw.items_slice();
        let r = Iter { items, front: 0, back: items.len() };
        assert(r.remaining() =~= raw@.items);
        r
    }

    /// The number of values still to come.
    pub fn len(&self) -> (r: usize)
        ensures
            r == self.remaining().len(),
    {
        proof {
            use_type_invariant(self);
        }
        self.back - self.front
    }

    /// The exact number of values still to come, as lower and upper bound.
    pub fn size_hint(&self) -> (r: (usize, Option<usize>))
        ensures
            r.0 == self.remaining().len(),
            r.1 == Some(r.0),
    {
        let n = self.len();
        (n, Some(n))
    }

    /// Consumes the iterator and says how many values were still to come.
    pub fn count(self) -> (r: usize)
        ensures
            r == self.remaining().len(),
    {
        self.len()
    }

    /// The next value from the front.
    pub fn next(&mut self) -> (r: Option<&'a T>)
        ensures
            old(self).remaining().len() == 0 ==> r is None && final(self).remaining()
                == old(self).remaining(),
            old(self).remaining().len() > 0 ==> r == Some(&*old(self).remaining()[0])
                && final(self).remaining() == old(self).remaining().drop_first(),
    {
        self.nth(0)
    }

    /// Skips `n` values from the front and gives the one after them. When
    /// fewer than `n + 1` are left, gives nothing and leaves nothing to come.
    pub fn nth(&mut self, n: usize) -> (r: Option<&'a T>)
        ensures
            n < old(self).remaining().len() ==> r == Some(&*old(self).remaining()[n as int])
                && final(self).remaining() == old(self).remaining().subrange(
                n + 1,
                old(self).remaining().len() as int,
            ),
            n >= old(self).remaining().len() ==> r is None && final(self).remaining() == Seq::<
                Box<T>,
            >::empty(),
    {
        proof {
            use_type_invariant(&*self);
        }
        let ghost rem = self.remaining();
        if n < self.back - self.front {
            let i = self.front + n;
            self.front = i + 1;
            assert(self.remaining() =~= rem.subrange(n + 1, rem.len() as int));
            Some(&*self.items[i])
        } else {
            self.front = self.back;
            assert(self.remaining() =~= Seq::<Box<T>>::empty());
            None
        }
    }

    /// The next value from the back.
    pub fn next_back(&mut self) -> (r: Option<&'a T>)
        ensures
            old(self).remaining().len() == 0 ==> r is None && final(self).remaining()
                == old(self).remaining(),
            old(self).remaining().len() > 0 ==> r == Some(&*old(self).remaining().last())
                && final(self).remaining() == old(self).remaining().drop_last(),
    {
        self.nth_back(0)
    }

    /// Skips `n` values from the back and gives the one before them. When
    /// fewer than `n + 1` are left, gives nothing and leaves nothing to come.
    pub fn nth_back(&mut self, n: usize) -> (r: Option<&'a T>)
        ensures
            n < old(self).remaining().len() ==> r == Some(
                &*old(self).remaining()[old(self).remaining().len() - 1 - n],
            ) && final(self).remaining() == old(self).remaining().subrange(
                0,
                old(self).remaining().len() - 1 - n,
            ),
            n >= old(self).remaining().len() ==> r is None && final(self).remaining() == Seq::<
                Box<T>,
            >::empty(),
    {
        proof {
            use_type_invariant(&*self);
        }
        let ghost rem = self.remaining();
        if n < self.back - self.front {
            let i = self.back - 1 - n;
            self.back = i;
            assert(self.remaining() =~= rem.subrange(0, rem.len() - 1 - n));
            Some(&*self.items[i])
        } else {
            self.back = self.front;
            assert(self.remaining() =~= Seq::<Box<T>>::empty());
            None
        }
    }
}

/// Iteration over a stack's values in push order, each given for mutation in place.
pub struct IterMut<'a, T: ?Sized> {
    items: Option<&'a mut [Box<T>]>,
}

impl<'a, T: ?Sized> IterMut<'a, T> {
    /// The values still to come, front first.
    pub closed spec fn remaining(&self) -> Seq<Box<T>> {
        match self.items {
            Some(s) => s@,
            None => Seq::empty(),
        }
    }

    /// Starts at the first value pushed and ends at the last. The stack's
    /// table and region are left as they are; its values are those the
    /// references handed out leave behind.
    pub fn new(raw: &'a mut RawUnsizedStack<T>) -> (r: Self)
        requires
            old(raw).wf(),
        ensures
            r.remaining() == old(raw)@.items,
            final(raw)@.buf_layout == old(raw)@.buf_layout,
            final(raw)@.occupied == old(raw)@.occupied,
            final(raw)@.table == old(raw)@.table,
            final(raw)@.layouts == old(raw)@.layouts,
    {
        IterMut { items: Some(raw.items_mut_slice()) }
    }

    /// The number of values still to come.
    pub fn len(&self) -> (r: usize)
        ensures
            r == self.remaining().len(),
    {
        match &self.items {
            Some(s) => s.len(),
            None => 0,
        }
    }

    /// The exact number of values still to come, as lower and upper bound.
    pub fn size_hint(&self) -> (r: (usize, Option<usize>))
        ensures
            r.0 == self.remaining().len(),
            r.1 == Some(r.0),
    {
        let n = self.len();
        (n, Some(n))
    }

    /// Consumes the iterator and says how many values were still to come.
    pub fn count(self) -> (r: usize)
        ensures
            r == self.remaining().len(),
    {
        self.len()
    }

    /// The next value from the front.
    pub fn next(&mut self) -> (r: Option<&'a mut T>)
        ensures
            old(self).remaining().len() == 0 ==> r is None && final(self).remaining()
                == old(self).remaining(),
            old(self).remaining().len() > 0 ==> r is Some && &*r->0 == &*old(self).remaining()[0]
                && final(self).remaining() == old(self).remaining().drop_first(),
    {
        self.nth(0)
    }

    /// Skips `n` values from the front and gives the one after them. When
    /// fewer than `n + 1` are left, gives nothing and leaves nothing to come.
    pub fn nth(&mut self, n: usize) -> (r: Option<&'a mut T>)
        ensures
            n < old(self).remaining().len() ==> r is Some && &*r->0 == &*old(
                self,
            ).remaining()[n as int] && final(self).remaining() == old(self).remaining().subrange(
                n + 1,
                old(self).remaining().len() as int,
            ),
            n >= old(self).remaining().len() ==> r is None && final(self).remaining() == Seq::<
                Box<T>,
            >::empty(),
    {
        match self.items.take() {
            None => None,
            Some(s) => {
                if n < s.len() {
                    let (_, tail) = s.split_at_mut(n);
                    let (first, rest) = tail.split_at_mut(1);
                    self.items = Some(rest);
                    match first.first_mut() {
                        Some(b) => Some(&mut **b),
                        None => None,
                    }
                } else {
                    None
                }
            },
        }
    }

    /// The next value from the back.
    pub fn next_back(&mut self) -> (r: Option<&'a mut T>)
        ensures
            old(self).remaining().len() == 0 ==> r is None && final(self).remaining()
                == old(self).remaining(),
            old(self).remaining().len() > 0 ==> r is Some && &*r->0 == &*old(
                self,
            ).remaining().last() && final(self).remaining() == old(self).remaining().drop_last(),
    {
        self.nth_back(0)
    }

    /// Skips `n` values from the back and gives the one before them. When
    /// fewer than `n + 1` are left, gives nothing and leaves nothing to come.
    pub fn nth_back(&mut self, n: usize) -> (r: Option<&'a mut T>)
        ensures
            n < old(self).remaining().len() ==> r is Some && &*r->0 == &*old(
                self,
            ).remaining()[old(self).remaining().len() - 1 - n] && final(self).remaining() == old(
                self,
            ).remaining().subrange(0, old(self).remaining().len() - 1 - n),
            n >= old(self).remaining().len() ==> r is None && final(self).remaining() == Seq::<
                Box<T>,
            >::empty(),
    {
        match self.items.take() {
            None => None,
            Some(s) => {
                if n < s.len() {
                    let (head, _) = s.split_at_mut(s.len() - n);
                    let last = head.len() - 1;
                    let (rest, tail) = head.split_at_mut(last);
                    self.items = Some(rest);
                    match tail.first_mut() {
                        Some(b) => Some(&mut **b),
                        None => None,
                    }
                } else {
                    None
                }
            },
        }
    }
}

} // verus!
