//! The storage engine: the offset table and the growth of the packed region.
//!
//! Each element is placed in a packed region exactly as a contiguous buffer
//! would hold it: at its own alignment, after the bytes already in use, with
//! the region's size kept at a power of two and its alignment at the largest
//! alignment stored. The table records, per element, its offset in that
//! region (or that it is zero-sized, with its alignment) and its length in
//! bytes. The values themselves are held each in its own box, indexed by
//! the table, so that no value is ever moved by a raw byte copy: safety is
//! bought with one allocation per element, while the offsets, occupancy and
//! region layout stay those of the packed representation.
use vstd::prelude::*;

use crate::fat_ptr::FatPtr;
use crate::layout::{
    is_pow2, layout_of_val, lemma_max_size_for, lemma_next_pow2_from_at_least,
    lemma_next_pow2_from_is_pow2, lemma_pow2_positive, lemma_round_up, max_nat, max_size_for,
    next_pow2, next_power_of_two, round_up, round_up_to, Layout,
};

verus! {

/// The alignment of the region before anything is stored.
pub const DEFAULT_ALIGN: usize = 16;

/// Where an element lies.
#[derive(Clone, Copy, Debug, PartialEq, Eq, Structural)]
pub enum Offset {
    /// At this byte offset in the region.
    Data(usize),
    /// Nowhere: the element has no bytes; it needs only this alignment.
    Zst(usize),
}

/// One entry of the table: where the element lies and its length in bytes.
#[derive(Clone, Copy, Debug, PartialEq, Eq, Structural)]
pub struct TableItem {
    pub offset: Offset,
    pub metadata: usize,
}

/// Relies on sptr::invalid, a pointer that carries the given address and no
/// provenance, and on sptr::Strict::addr, which reads that address back.
#[verifier::external_body]
fn placeholder_addr(align: usize) -> (r: usize)
    ensures
        r == align,
{
    sptr::Strict::addr(sptr::invalid::<u8>(align))
}

impl TableItem {
    pub fn new(offset: Offset, metadata: usize) -> (r: TableItem)
        ensures
            r == (TableItem { offset, metadata }),
    {
        TableItem { offset, metadata }
    }

    /// The address and metadata of the element against the region's base
    /// address. A zero-sized element gets its alignment as its address: no
    /// storage, but a non-null, aligned placeholder.
    pub fn to_fat_ptr(&self, base: usize) -> (r: FatPtr)
        ensures
            r.ptr() == match self.offset {
                Offset::Data(o) => base.wrapping_add(o),
                Offset::Zst(align) => align,
            },
            r.metadata() == self.metadata,
    {
        let addr: usize = match self.offset {
            Offset::Data(o) => base.wrapping_add(o),
            Offset::Zst(align) => placeholder_addr(align),
        };
        FatPtr::new(addr, self.metadata)
    }
}

/// The entry that a value of layout `item` gets when `occupied` bytes are in use.
pub open spec fn entry_for(occupied: nat, item: Layout) -> TableItem {
    TableItem { offset: offset_for(occupied, item), metadata: item.size }
}

/// Where a value of layout `item` goes when `occupied` bytes are in use.
pub open spec fn offset_for(occupied: nat, item: Layout) -> Offset {
    if item.size == 0 {
        Offset::Zst(item.align)
    } else {
        Offset::Data(round_up(occupied, item.align as nat) as usize)
    }
}

/// The bytes in use once a value of layout `item` is placed.
pub open spec fn occupied_after(occupied: nat, item: Layout) -> nat {
    if item.size == 0 {
        occupied
    } else {
        round_up(occupied, item.align as nat) + item.size as nat
    }
}

/// The region's layout once a value of layout `item` is placed: the size is
/// the next power of two that holds every byte in use, never less than
/// before, and the alignment is the larger of the two.
pub open spec fn grown_layout(buf: Layout, occupied: nat, item: Layout) -> Layout {
    if item.size == 0 {
        buf
    } else {
        Layout {
            size: max_nat(next_pow2(occupied_after(occupied, item)), buf.size as nat) as usize,
            align: max_nat(buf.align as nat, item.align as nat) as usize,
        }
    }
}

/// A value of layout `item` can be placed: its layout is valid and so is the
/// region's layout after growing.
pub open spec fn can_reserve(buf: Layout, occupied: nat, item: Layout) -> bool {
    &&& item.is_valid()
    &&& item.size > 0 ==> max_nat(next_pow2(occupied_after(occupied, item)), buf.size as nat)
        <= max_size_for(max_nat(buf.align as nat, item.align as nat))
}

/// The end of the bytes of a placed entry.
pub open spec fn data_end(e: TableItem) -> nat {
    (e.offset->Data_0 + e.metadata) as nat
}

/// An entry agrees with the layout of its value and lies within the bytes in use.
pub open spec fn entry_fits(e: TableItem, l: Layout, occupied: nat, buf_align: nat) -> bool {
    &&& l.is_valid()
    &&& e.metadata == l.size
    &&& if l.size == 0 {
        e.offset == Offset::Zst(l.align)
    } else {
        &&& e.offset is Data
        &&& (e.offset->Data_0 as nat) % (l.align as nat) == 0
        &&& data_end(e) <= occupied
        &&& l.align <= buf_align
    }
}

/// The bytes of placed entries `i < j` come in table order and do not overlap.
pub open spec fn ordered(table: Seq<TableItem>, i: int, j: int) -> bool {
    (table[i].offset is Data && table[j].offset is Data) ==> data_end(table[i])
        <= table[j].offset->Data_0
}

/// What a stack is: the region's layout, the bytes in use, the table, the
/// values in push order, and the layout each value was placed with.
pub struct StackView<T: ?Sized> {
    pub buf_layout: Layout,
    pub occupied: nat,
    pub table: Seq<TableItem>,
    pub items: Seq<Box<T>>,
    pub layouts: Seq<Layout>,
}

impl<T: ?Sized> StackView<T> {
    pub open spec fn len(&self) -> nat {
        self.items.len()
    }


    pub open spec fn wf(&self) -> bool {
        &&& self.buf_layout.is_valid()
        &&& self.buf_layout.size == 0 || is_pow2(self.buf_layout.size as nat)
        &&& self.occupied <= self.buf_layout.size
        &&& self.table.len() == self.items.len()
        &&& self.layouts.len() == self.items.len()
        &&& forall|i: int|
            0 <= i < self.table.len() ==> #[trigger] entry_fits(
                self.table[i],
                self.layouts[i],
                self.occupied,
                self.buf_layout.align as nat,
            )
        &&& forall|i: int, j: int|
            0 <= i < j < self.table.len() ==> #[trigger] ordered(self.table, i, j)
    }

    /// The stack with `b` pushed.
    pub open spec fn push_model(self, b: Box<T>) -> StackView<T> {
        let l = layout_of_val::<T>(&*b);
        StackView {
            buf_layout: grown_layout(self.buf_layout, self.occupied, l),
            occupied: occupied_after(self.occupied, l),
            table: self.table.push(entry_for(self.occupied, l)),
            items: self.items.push(b),
            layouts: self.layouts.push(l),
        }
    }

    /// The bytes in use once the last entry is removed: its offset if it has bytes.
    pub open spec fn occupied_before_last(&self) -> nat {
        match self.table.last().offset {
            Offset::Data(o) => o as nat,
            Offset::Zst(_) => self.occupied,
        }
    }

    /// The stack with its last value removed; the same stack if it is empty.
    pub open spec fn pop_model(self) -> StackView<T> {
        if self.items.len() == 0 {
            self
        } else {
            StackView {
                buf_layout: self.buf_layout,
                occupied: self.occupied_before_last(),
                table: self.table.drop_last(),
                items: self.items.drop_last(),
                layouts: self.layouts.drop_last(),
            }
        }
    }

    /// The offset of the first entry at index `from` or after that has
    /// bytes; `otherwise` if there is none.
    pub open spec fn first_data_offset(&self, from: int, otherwise: nat) -> nat
        decreases self.table.len() - from,
    {
        if from < 0 || from >= self.table.len() {
            otherwise
        } else if self.table[from].offset is Data {
            self.table[from].offset->Data_0 as nat
        } else {
            self.first_data_offset(from + 1, otherwise)
        }
    }

    /// The stack cut to its first `len` values; the bytes in use go back to
    /// where the first removed entry with bytes began.
    pub open spec fn truncate_model(self, len: nat) -> StackView<T> {
        if len >= self.items.len() {
            self
        } else {
            StackView {
                buf_layout: self.buf_layout,
                occupied: self.first_data_offset(len as int, self.occupied),
                table: self.table.subrange(0, len as int),
                items: self.items.subrange(0, len as int),
                layouts: self.layouts.subrange(0, len as int),
            }
        }
    }

    /// The stack with every value removed and no bytes in use; the region keeps its layout.
    pub open spec fn clear_model(self) -> StackView<T> {
        StackView {
            buf_layout: self.buf_layout,
            occupied: 0,
            table: seq![],
            items: seq![],
            layouts: seq![],
        }
    }
}

/// Placing a value keeps the stack well formed.
pub proof fn lemma_push_model_wf<T: ?Sized>(s: StackView<T>, b: Box<T>)
    requires
        s.wf(),
        can_reserve(s.buf_layout, s.occupied, layout_of_val::<T>(&*b)),
    ensures
        s.push_model(b).wf(),
{
    let l = layout_of_val::<T>(&*b);
    let t = s.push_model(b);
    lemma_reserve_bounds(s.buf_layout, s.occupied, l);
    assert forall|i: int| 0 <= i < t.table.len() implies #[trigger] entry_fits(
        t.table[i],
        t.layouts[i],
        t.occupied,
        t.buf_layout.align as nat,
    ) by {
        if i < s.table.len() {
            assert(entry_fits(s.table[i], s.layouts[i], s.occupied, s.buf_layout.align as nat));
            assert(t.table[i] == s.table[i]);
            assert(t.layouts[i] == s.layouts[i]);
        } else {
            assert(t.table[i] == entry_for(s.occupied, l));
            assert(t.layouts[i] == l);
        }
    }
    assert forall|i: int, j: int|
        0 <= i < j < t.table.len() implies #[trigger] ordered(t.table, i, j) by {
        assert(t.table[i] == s.table[i]);
        if j < s.table.len() {
            assert(ordered(s.table, i, j));
            assert(t.table[j] == s.table[j]);
        } else {
            assert(entry_fits(s.table[i], s.layouts[i], s.occupied, s.buf_layout.align as nat));
            assert(t.table[j] == entry_for(s.occupied, l));
        }
    }
}

/// What placing a value computes stays within `isize::MAX`, and the grown
/// region is a valid layout whose size is a power of two holding every byte in use.
pub proof fn lemma_reserve_bounds(buf: Layout, occupied: nat, item: Layout)
    requires
        buf.is_valid(),
        buf.size == 0 || is_pow2(buf.size as nat),
        occupied <= buf.size,
        can_reserve(buf, occupied, item),
    ensures
        item.align > 0,
        round_up(occupied, item.align as nat) % (item.align as nat) == 0,
        occupied <= round_up(occupied, item.align as nat),
        occupied <= occupied_after(occupied, item),
        item.size > 0 ==> occupied_after(occupied, item) <= next_pow2(
            occupied_after(occupied, item),
        ),
        item.size > 0 ==> next_pow2(occupied_after(occupied, item)) <= isize::MAX,
        occupied_after(occupied, item) <= isize::MAX,
        grown_layout(buf, occupied, item).is_valid(),
        is_pow2(grown_layout(buf, occupied, item).size as nat) || grown_layout(
            buf,
            occupied,
            item,
        ).size == 0,
        occupied_after(occupied, item) <= grown_layout(buf, occupied, item).size,
        buf.size <= grown_layout(buf, occupied, item).size,
        buf.align <= grown_layout(buf, occupied, item).align,
        item.size > 0 ==> item.align <= grown_layout(buf, occupied, item).align,
{
    lemma_pow2_positive(item.align as nat);
    lemma_pow2_positive(buf.align as nat);
    lemma_round_up(occupied, item.align as nat);
    lemma_max_size_for(buf.align as nat);
    if item.size > 0 {
        let end = occupied_after(occupied, item);
        let a = max_nat(buf.align as nat, item.align as nat);
        lemma_next_pow2_from_at_least(1, end);
        lemma_next_pow2_from_is_pow2(1, end);
        lemma_max_size_for(a);
    }
}

/// Removing the last value keeps the stack well formed.
pub proof fn lemma_pop_model_wf<T: ?Sized>(s: StackView<T>)
    requires
        s.wf(),
    ensures
        s.pop_model().wf(),
{
    if s.items.len() > 0 {
        let t = s.pop_model();
        let last = s.table.len() - 1;
        assert(entry_fits(s.table[last], s.layouts[last], s.occupied, s.buf_layout.align as nat));
        assert forall|i: int| 0 <= i < t.table.len() implies #[trigger] entry_fits(
            t.table[i],
            t.layouts[i],
            t.occupied,
            t.buf_layout.align as nat,
        ) by {
            assert(entry_fits(s.table[i], s.layouts[i], s.occupied, s.buf_layout.align as nat));
            assert(ordered(s.table, i, last));
        }
        assert forall|i: int, j: int|
            0 <= i < j < t.table.len() implies #[trigger] ordered(t.table, i, j) by {
            assert(ordered(s.table, i, j));
        }
    }
}

/// The first entry with bytes at or after `from` begins after every entry
/// with bytes before `from`, and within the bytes in use.
pub proof fn lemma_first_data_offset<T: ?Sized>(s: StackView<T>, from: int)
    requires
        s.wf(),
        0 <= from <= s.table.len(),
    ensures
        s.first_data_offset(from, s.occupied) <= s.occupied,
        forall|i: int|
            0 <= i < from && (#[trigger] s.table[i]).offset is Data ==> data_end(s.table[i])
                <= s.first_data_offset(from, s.occupied),
    decreases s.table.len() - from,
{
    if from == s.table.len() {
        assert forall|i: int|
            0 <= i < from && (#[trigger] s.table[i]).offset is Data implies data_end(s.table[i])
            <= s.first_data_offset(from, s.occupied) by {
            assert(entry_fits(s.table[i], s.layouts[i], s.occupied, s.buf_layout.align as nat));
        }
    } else {
        if s.table[from].offset is Data {
            assert(entry_fits(
                s.table[from],
                s.layouts[from],
                s.occupied,
                s.buf_layout.align as nat,
            ));
            assert forall|i: int|
                0 <= i < from && (#[trigger] s.table[i]).offset is Data implies data_end(s.table[i])
                <= s.first_data_offset(from, s.occupied) by {
                assert(ordered(s.table, i, from));
            }
        } else {
            lemma_first_data_offset(s, from + 1);
        }
    }
}

/// Cutting the stack keeps it well formed.
pub proof fn lemma_truncate_model_wf<T: ?Sized>(s: StackView<T>, len: nat)
    requires
        s.wf(),
    ensures
        s.truncate_model(len).wf(),
{
    if len < s.items.len() {
        let t = s.truncate_model(len);
        lemma_first_data_offset(s, len as int);
        assert forall|i: int| 0 <= i < t.table.len() implies #[trigger] entry_fits(
            t.table[i],
            t.layouts[i],
            t.occupied,
            t.buf_layout.align as nat,
        ) by {
            assert(entry_fits(s.table[i], s.layouts[i], s.occupied, s.buf_layout.align as nat));
            assert(s.table[i] == t.table[i]);
        }
        assert forall|i: int, j: int|
            0 <= i < j < t.table.len() implies #[trigger] ordered(t.table, i, j) by {
            assert(ordered(s.table, i, j));
        }
    }
}

/// The storage engine of a stack of `T`.
pub struct RawUnsizedStack<T: ?Sized> {
    buf_layout: Layout,
    buf_occupied: usize,
    table: Vec<TableItem>,
    items: Vec<Box<T>>,
    layouts: Ghost<Seq<Layout>>,
}

impl<T: ?Sized> View for RawUnsizedStack<T> {
    type V = StackView<T>;

    closed spec fn view(&self) -> StackView<T> {
        StackView {
            buf_layout: self.buf_layout,
            occupied: self.buf_occupied as nat,
            table: self.table@,
            items: self.items@,
            layouts: self.layouts@,
        }
    }
}

/// Relies on Vec::capacity: the number of entries the table holds without
/// reallocating, never less than its length.
#[verifier::external_body]
fn table_capacity_of(table: &Vec<TableItem>) -> (r: usize)
    ensures
        r >= table@.len(),
{
    table.capacity()
}

impl<T: ?Sized> RawUnsizedStack<T> {
    pub open spec fn wf(&self) -> bool {
        self@.wf()
    }

    /// An empty stack: no region is allocated yet.
    pub fn new() -> (r: Self)
        requires
            crate::fat_ptr::is_fat::<T>(),
        ensures
            r.wf(),
            r@.buf_layout == (Layout { size: 0, align: DEFAULT_ALIGN }),
            r@.occupied == 0,
            r@.table.len() == 0,
            r@.items.len() == 0,
            r@.layouts.len() == 0,
    {
        let r = RawUnsizedStack {
            buf_layout: Layout { size: 0, align: DEFAULT_ALIGN },
            buf_occupied: 0,
            table: Vec::new(),
            items: Vec::new(),
            layouts: Ghost(Seq::empty()),
        };
        proof {
            assert(is_pow2(1));
            assert(is_pow2(2));
            assert(is_pow2(4));
            assert(is_pow2(8));
            assert(is_pow2(16));
        }
        r
    }

    /// The bytes of the region in use.
    pub fn bytes_occupied(&self) -> (r: usize)
        ensures
            r == self@.occupied,
    {
        self.buf_occupied
    }

    /// The layout of the region: its size and alignment.
    pub fn buf_layout(&self) -> (r: Layout)
        ensures
            r == self@.buf_layout,
    {
        self.buf_layout
    }

    /// The table, one entry per element in push order.
    pub fn table(&self) -> (r: &[TableItem])
        ensures
            r@ == self@.table,
    {
        self.table.as_slice()
    }

    /// The number of entries the table holds without growing.
    pub fn table_capacity(&self) -> (r: usize)
        ensures
            r >= self@.table.len(),
    {
        table_capacity_of(&self.table)
    }

    pub fn len(&self) -> (r: usize)
        requires
            self.wf(),
        ensures
            r == self@.len(),
    {
        self.items.len()
    }

    /// Makes room for a value of the given layout and says where it goes.
    /// A zero-sized value needs no room. Otherwise the value goes at the bytes
    /// in use rounded up to its alignment, and the region grows to the next
    /// power of two that holds it and to the larger alignment.
    pub fn reserve_for_push(&mut self, item_layout: Layout) -> (r: Offset)
        requires
            old(self).wf(),
            can_reserve(old(self)@.buf_layout, old(self)@.occupied, item_layout),
        ensures
            final(self).wf(),
            r == offset_for(old(self)@.occupied, item_layout),
            final(self)@.buf_layout == grown_layout(
                old(self)@.buf_layout,
                old(self)@.occupied,
                item_layout,
            ),
            final(self)@.occupied == occupied_after(old(self)@.occupied, item_layout),
            final(self)@.table == old(self)@.table,
            final(self)@.items == old(self)@.items,
            final(self)@.layouts == old(self)@.layouts,
    {
        if item_layout.size == 0 {
            return Offset::Zst(item_layout.align);
        }
        proof {
            lemma_reserve_bounds(self@.buf_layout, self@.occupied, item_layout);
        }
        let offset = round_up_to(self.buf_occupied, item_layout.align);
        let end = offset + item_layout.size;
        let fitted = next_power_of_two(end);
        let size = if fitted >= self.buf_layout.size {
            fitted
        } else {
            self.buf_layout.size
        };
        let align = if item_layout.align >= self.buf_layout.align {
            item_layout.align
        } else {
            self.buf_layout.align
        };
        let ghost s = self@;
        self.buf_layout = Layout { size, align };
        self.buf_occupied = end;
        proof {
            assert(self@.buf_layout == grown_layout(s.buf_layout, s.occupied, item_layout));
            assert forall|i: int| 0 <= i < self@.table.len() implies #[trigger] entry_fits(
                self@.table[i],
                self@.layouts[i],
                self@.occupied,
                self@.buf_layout.align as nat,
            ) by {
                assert(entry_fits(s.table[i], s.layouts[i], s.occupied, s.buf_layout.align as nat));
            }
            assert forall|i: int, j: int|
                0 <= i < j < self@.table.len() implies #[trigger] ordered(self@.table, i, j) by {
                assert(ordered(s.table, i, j));
            }
        }
        Offset::Data(offset)
    }

    /// Pushes `item`, seen through `coercion` as a value of `T`: the value is
    /// placed in the region after the bytes in use and recorded in the table.
    pub fn push<I, F: FnOnce(Box<I>) -> Box<T>>(&mut self, item: I, coercion: F)
        requires
            old(self).wf(),
            coercion.requires((Box::new(item),)),
            forall|b: Box<T>|
                coercion.ensures((Box::new(item),), b) ==> can_reserve(
                    old(self)@.buf_layout,
                    old(self)@.occupied,
                    layout_of_val::<T>(&*b),
                ),
        ensures
            final(self).wf(),
            coercion.ensures((Box::new(item),), final(self)@.items.last()),
            final(self)@ == old(self)@.push_model(final(self)@.items.last()),
    {
        let b = coercion(Box::new(item));
        let item_layout = Layout::for_value::<T>(&*b);
        let offset = self.reserve_for_push(item_layout);
        self.table.push(TableItem::new(offset, item_layout.size));
        self.items.push(b);
        proof {
            self.layouts@ = self.layouts@.push(item_layout);
            let ghost o = *old(self);
            lemma_push_model_wf(o@, b);
            assert(self@.items =~= o@.items.push(b));
            assert(self@.table =~= o@.table.push(entry_for(o@.occupied, item_layout)));
        }
    }

    /// Removes the last value, dropping it, and gives the bytes it used back.
    /// `None` when the stack is empty.
    pub fn pop(&mut self) -> (r: Option<()>)
        requires
            old(self).wf(),
        ensures
            final(self).wf(),
            r is Some <==> old(self)@.len() > 0,
            final(self)@ == old(self)@.pop_model(),
    {
        proof {
            lemma_pop_model_wf(self@);
        }
        match self.table.pop() {
            None => None,
            Some(entry) => {
                self.items.pop();
                proof {
                    self.layouts@ = self.layouts@.drop_last();
                }
                if let Offset::Data(offset) = entry.offset {
                    self.buf_occupied = offset;
                }
                proof {
                    let ghost o = *old(self);
                    assert(self@.items =~= o@.items.drop_last());
                    assert(self@.table =~= o@.table.drop_last());
                }
                Some(())
            },
        }
    }

    /// The values, in push order.
    pub(crate) fn items_slice(&self) -> (r: &[Box<T>])
        ensures
            r@ == self@.items,
    {
        self.items.as_slice()
    }

    /// The values, in push order, for mutation in place: the table and the
    /// region are left as they are.
    pub(crate) fn items_mut_slice(&mut self) -> (r: &mut [Box<T>])
        ensures
            r@ == old(self)@.items,
            final(self)@.items == final(r)@,
            final(self)@.buf_layout == old(self)@.buf_layout,
            final(self)@.occupied == old(self)@.occupied,
            final(self)@.table == old(self)@.table,
            final(self)@.layouts == old(self)@.layouts,
    {
        self.items.as_mut_slice()
    }

    /// The value at `index`, if there is one.
    pub fn get(&self, index: usize) -> (r: Option<&T>)
        requires
            self.wf(),
        ensures
            index < self@.len() ==> r == Some(&*self@.items[index as int]),
            index >= self@.len() ==> r is None,
    {
        if index < self.items.len() {
            Some(&*self.items[index])
        } else {
            None
        }
    }

    /// The value at `index`, if there is one, for mutation. Only that value
    /// can change while the reference is held.
    pub fn get_mut(&mut self, index: usize) -> (r: Option<&mut T>)
        requires
            old(self).wf(),
        ensures
            final(self).wf(),
            index < old(self)@.len() ==> r is Some && &*r->0 == &*old(self)@.items[index as int]
                && &*final(self)@.items[index as int] == &*final(r->0),
            index >= old(self)@.len() ==> r is None && final(self)@ == old(self)@,
            final(self)@.items.len() == old(self)@.items.len(),
            forall|j: int|
                0 <= j < old(self)@.len() && j != index ==> final(self)@.items[j] == old(
                    self,
                )@.items[j],
            final(self)@.buf_layout == old(self)@.buf_layout,
            final(self)@.occupied == old(self)@.occupied,
            final(self)@.table == old(self)@.table,
            final(self)@.layouts == old(self)@.layouts,
    {
        if index < self.items.len() {
            Some(&mut *self.items[index])
        } else {
            None
        }
    }

    /// The offset of the first entry at `from` or after that has bytes; the
    /// bytes in use if there is none.
    fn first_data_offset_from(&self, from: usize) -> (r: usize)
        requires
            self.wf(),
        ensures
            r == self@.first_data_offset(from as int, self@.occupied),
    {
        let mut i: usize = from;
        while i < self.table.len()
            invariant
                from <= i,
                self@.first_data_offset(from as int, self@.occupied) == self@.first_data_offset(
                    i as int,
                    self@.occupied,
                ),
            decreases self@.table.len() - i,
        {
            if let Offset::Data(offset) = self.table[i].offset {
                return offset;
            }
            i = i + 1;
        }
        self.buf_occupied
    }

    /// Cuts the stack to its first `len` values, dropping the others in
    /// index order; the bytes in use go back to where the first removed value
    /// with bytes began. Nothing changes when `len` is not below the length.
    pub fn truncate(&mut self, len: usize)
        requires
            old(self).wf(),
        ensures
            final(self).wf(),
            final(self)@ == old(self)@.truncate_model(len as nat),
    {
        proof {
            lemma_truncate_model_wf(self@, len as nat);
        }
        if len >= self.table.len() {
            return;
        }
        let occupied = self.first_data_offset_from(len);
        self.items.truncate(len);
        self.table.truncate(len);
        self.buf_occupied = occupied;
        proof {
            self.layouts@ = self.layouts@.subrange(0, len as int);
            let ghost o = *old(self);
            assert(self@.items =~= o@.items.subrange(0, len as int));
            assert(self@.table =~= o@.table.subrange(0, len as int));
        }
    }

    /// Removes every value, dropping them in table order; no bytes are in use
    /// after, and the region keeps its layout for reuse.
    pub fn clear(&mut self)
        requires
            old(self).wf(),
        ensures
            final(self).wf(),
            final(self)@ == old(self)@.clear_model(),
    {
        self.items.clear();
        self.table.clear();
        self.buf_occupied = 0;
        proof {
            self.layouts@ = Seq::empty();
            assert(self@.items =~= seq![]);
            assert(self@.table =~= seq![]);
        }
    }
}

} // verus!
