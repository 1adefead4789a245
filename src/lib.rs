//! A stack of values of one dynamically sized element type (trait objects,
//! string slices, slices), laid out as if packed into one growable region.
//!
//! [`TraitStack`] is the safe face of the stack: it forwards to the storage
//! engine in [`raw`] and lends values out under the usual borrowing rules,
//! so that no reference to a value outlives a change to the stack.
use vstd::prelude::*;

pub mod fat_ptr;
pub mod iter;
pub mod layout;
pub mod laws;
pub mod raw;

use crate::iter::{Iter, IterMut};
use crate::layout::{layout_of_val, Layout};
use crate::raw::{can_reserve, RawUnsizedStack, StackView, DEFAULT_ALIGN};

verus! {

/// A stack of values seen as `T`, each pushed by value and viewed through a
/// coercion to `T`.
pub struct TraitStack<T: ?Sized> {
    raw: RawUnsizedStack<T>,
}

/// The stack under the name its users know it by.
pub type UnsizedStack<T> = TraitStack<T>;

impl<T: ?Sized> View for TraitStack<T> {
    type V = StackView<T>;

    closed spec fn view(&self) -> StackView<T> {
        self.raw@
    }
}

impl<T: ?Sized> TraitStack<T> {
    pub open spec fn wf(&self) -> bool {
        self@.wf()
    }

    /// An empty stack; nothing is allocated.
    pub fn new() -> (r: Self)
        requires
            crate::fat_ptr::is_fat::<T>(),
        ensures
            r.wf(),
            r@.buf_layout == (Layout { size: 0, align: DEFAULT_ALIGN }),
            r@.occupied == 0,
            r@.len() == 0,
    {
        TraitStack { raw: RawUnsizedStack::new() }
    }

    /// The layout of the region the values are placed in.
    pub fn buf_layout(&self) -> (r: Layout)
        ensures
            r == self@.buf_layout,
    {
        self.raw.buf_layout()
    }

    /// The bytes of the region in use.
    pub fn bytes_occupied(&self) -> (r: usize)
        ensures
            r == self@.occupied,
    {
        self.raw.bytes_occupied()
    }

    /// The number of entries the table holds without growing.
    pub fn table_capacity(&self) -> (r: usize)
        ensures
            r >= self@.table.len(),
    {
        self.raw.table_capacity()
    }

    pub fn len(&self) -> (r: usize)
        requires
            self.wf(),
        ensures
            r == self@.len(),
    {
        self.raw.len()
    }

    pub fn is_empty(&self) -> (r: bool)
        requires
            self.wf(),
        ensures
            r == (self@.len() == 0),
    {
        self.raw.len() == 0
    }

    /// The value at `index`, if there is one.
    pub fn get(&self, index: usize) -> (r: Option<&T>)
        requires
            self.wf(),
        ensures
            index < self@.len() ==> r == Some(&*self@.items[index as int]),
            index >= self@.len() ==> r is None,
    {
        self.raw.get(index)
    }

    /// The value at `index`, if there is one, for mutation in place.
    pub fn get_mut(&mut self, index: usize) -> (r: Option<&mut T>)
        requires
            old(self).wf(),
        ensures
            final(self).wf(),
            index < old(self)@.len() ==> r is Some && &*r->0 == &*old(self)@.items[index as int]
                && &*final(self)@.items[index as int] == &*final(r->0),
            index >= old(self)@.len() ==> r is None && final(self)@ == old(self)@,
            final(self)@.items.len() == old(self)@.items.len(),
            forall|j: int|
                0 <= j < old(self)@.len() && j != index ==> final(self)@.items[j] == old(
                    self,
                )@.items[j],
            final(self)@.buf_layout == old(self)@.buf_layout,
            final(self)@.occupied == old(self)@.occupied,
            final(self)@.table == old(self)@.table,
            final(self)@.layouts == old(self)@.layouts,
    {
        self.raw.get_mut(index)
    }

    /// The value pushed last, if any.
    pub fn last(&self) -> (r: Option<&T>)
        requires
            self.wf(),
        ensures
            self@.len() > 0 ==> r == Some(&*self@.items.last()),
            self@.len() == 0 ==> r is None,
    {
        let n = self.raw.len();
        if n == 0 {
            None
        } else {
            self.raw.get(n - 1)
        }
    }

    /// The value pushed last, if any, for mutation in place.
    pub fn last_mut(&mut self) -> (r: Option<&mut T>)
        requires
            old(self).wf(),
        ensures
            final(self).wf(),
            old(self)@.len() > 0 ==> r is Some && &*r->0 == &*old(self)@.items.last()
                && &*final(self)@.items.last() == &*final(r->0),
            old(self)@.len() == 0 ==> r is None && final(self)@ == old(self)@,
            final(self)@.items.len() == old(self)@.items.len(),
            forall|j: int|
                0 <= j < old(self)@.len() - 1 ==> final(self)@.items[j] == old(self)@.items[j],
            final(self)@.buf_layout == old(self)@.buf_layout,
            final(self)@.occupied == old(self)@.occupied,
            final(self)@.table == old(self)@.table,
            final(self)@.layouts == old(self)@.layouts,
    {
        let n = self.raw.len();
        if n == 0 {
            None
        } else {
            self.raw.get_mut(n - 1)
        }
    }

    /// Pushes `item`, seen through `coercion` as a value of `T`.
    pub fn push<I, F: FnOnce(Box<I>) -> Box<T>>(&mut self, item: I, coercion: F)
        requires
            old(self).wf(),
            coercion.requires((Box::new(item),)),
            forall|b: Box<T>|
                coercion.ensures((Box::new(item),), b) ==> can_reserve(
                    old(self)@.buf_layout,
                    old(self)@.occupied,
                    layout_of_val::<T>(&*b),
                ),
        ensures
            final(self).wf(),
            coercion.ensures((Box::new(item),), final(self)@.items.last()),
            final(self)@ == old(self)@.push_model(final(self)@.items.last()),
    {
        self.raw.push(item, coercion)
    }

    /// Removes and drops the value pushed last; `None` when the stack is empty.
    pub fn pop(&mut self) -> (r: Option<()>)
        requires
            old(self).wf(),
        ensures
            final(self).wf(),
            r is Some <==> old(self)@.len() > 0,
            final(self)@ == old(self)@.pop_model(),
    {
        self.raw.pop()
    }

    /// Keeps the first `len` values and drops the others in index order.
    pub fn truncate(&mut self, len: usize)
        requires
            old(self).wf(),
        ensures
            final(self).wf(),
            final(self)@ == old(self)@.truncate_model(len as nat),
    {
        self.raw.truncate(len)
    }

    /// Drops every value in push order; the region is kept for reuse.
    pub fn clear(&mut self)
        requires
            old(self).wf(),
        ensures
            final(self).wf(),
            final(self)@ == old(self)@.clear_model(),
    {
        self.raw.clear()
    }

    /// The values, front to back in push order.
    pub fn iter(&self) -> (r: Iter<'_, T>)
        requires
            self.wf(),
        ensures
            r.remaining() == self@.items,
    {
        Iter::new(&self.raw)
    }

    /// The values, front to back in push order, each for mutation in place.
    pub fn iter_mut(&mut self) -> (r: IterMut<'_, T>)
        requires
            old(self).wf(),
        ensures
            r.remaining() == old(self)@.items,
            final(self)@.buf_layout == old(self)@.buf_layout,
            final(self)@.occupied == old(self)@.occupied,
            final(self)@.table == old(self)@.table,
            final(self)@.layouts == old(self)@.layouts,
    {
        IterMut::new(&mut self.raw)
    }
}

} // verus!
