//! What holds of every sequence of operations on a stack, stated over the
//! model that the operations' contracts use.
use vstd::prelude::*;

use crate::layout::{is_pow2, layout_of_val, lemma_next_pow2_from_at_most, max_nat, round_up};
use crate::raw::{entry_for, occupied_after, Offset, StackView};

verus! {

/// The stack after pushing each of `values`, in order.
pub open spec fn push_all<T: ?Sized>(s: StackView<T>, values: Seq<Box<T>>) -> StackView<T>
    decreases values.len(),
{
    if values.len() == 0 {
        s
    } else {
        push_all(s, values.drop_last()).push_model(values.last())
    }
}

/// The stack after `n` pops.
pub open spec fn pop_n<T: ?Sized>(s: StackView<T>, n: nat) -> StackView<T>
    decreases n,
{
    if n == 0 {
        s
    } else {
        pop_n(s, (n - 1) as nat).pop_model()
    }
}

/// Pushing appends the values, one entry and one layout each.
pub proof fn lemma_push_all<T: ?Sized>(s: StackView<T>, values: Seq<Box<T>>)
    ensures
        push_all(s, values).items == s.items + values,
        push_all(s, values).table.len() == s.table.len() + values.len(),
        push_all(s, values).table.subrange(0, s.table.len() as int) == s.table,
        push_all(s, values).layouts.len() == s.layouts.len() + values.len(),
        push_all(s, values).layouts.subrange(0, s.layouts.len() as int) == s.layouts,
    decreases values.len(),
{
    if values.len() > 0 {
        let p = push_all(s, values.drop_last());
        lemma_push_all(s, values.drop_last());
        assert(values.drop_last().push(values.last()) =~= values);
        assert(p.items.push(values.last()) =~= s.items + values);
        let e = entry_for(p.occupied, layout_of_val::<T>(&*values.last()));
        assert(p.table.push(e).subrange(0, s.table.len() as int) =~= p.table.subrange(
            0,
            s.table.len() as int,
        ));
        assert(p.layouts.push(layout_of_val::<T>(&*values.last())).subrange(
            0,
            s.layouts.len() as int,
        ) =~= p.layouts.subrange(0, s.layouts.len() as int));
    }
}

/// Popping `n` times removes the last `n` values, entries and layouts.
pub proof fn lemma_pop_n<T: ?Sized>(s: StackView<T>, n: nat)
    requires
        n <= s.items.len(),
        s.table.len() == s.items.len(),
        s.layouts.len() == s.items.len(),
    ensures
        pop_n(s, n).items == s.items.subrange(0, s.items.len() - n),
        pop_n(s, n).table == s.table.subrange(0, s.table.len() - n),
        pop_n(s, n).layouts == s.layouts.subrange(0, s.layouts.len() - n),
        pop_n(s, n).buf_layout == s.buf_layout,
    decreases n,
{
    if n == 0 {
        assert(s.items.subrange(0, s.items.len() as int) =~= s.items);
        assert(s.table.subrange(0, s.table.len() as int) =~= s.table);
        assert(s.layouts.subrange(0, s.layouts.len() as int) =~= s.layouts);
    } else {
        lemma_pop_n(s, (n - 1) as nat);
        let p = pop_n(s, (n - 1) as nat);
        assert(p.items.drop_last() =~= s.items.subrange(0, s.items.len() - n));
        assert(p.table.drop_last() =~= s.table.subrange(0, s.table.len() - n));
        assert(p.layouts.drop_last() =~= s.layouts.subrange(0, s.layouts.len() - n));
    }
}

/// Popping as many times as values were pushed gives back the values, the
/// table and the length that the stack had before the pushes; from an empty
/// stack, the length returns to zero.
pub proof fn law_pops_undo_pushes<T: ?Sized>(s: StackView<T>, values: Seq<Box<T>>)
    requires
        s.wf(),
    ensures
        pop_n(push_all(s, values), values.len()).items == s.items,
        pop_n(push_all(s, values), values.len()).table == s.table,
        pop_n(push_all(s, values), values.len()).len() == s.len(),
{
    lemma_push_all(s, values);
    let p = push_all(s, values);
    lemma_pop_n(p, values.len());
    assert((s.items + values).subrange(0, s.items.len() as int) =~= s.items);
}

/// After pushes, the value at each index past the old length is the value
/// pushed there: index `s.len() + i` holds `values[i]`.
pub proof fn law_get_after_pushes<T: ?Sized>(s: StackView<T>, values: Seq<Box<T>>, i: int)
    requires
        0 <= i < values.len(),
    ensures
        push_all(s, values).len() == s.len() + values.len(),
        push_all(s, values).items[s.len() + i] == values[i],
{
    lemma_push_all(s, values);
}

/// A zero-sized value takes no room: pushing it leaves the region's layout
/// and the bytes in use as they were, whatever alignment it asks for.
pub proof fn law_zero_size_push_keeps_region<T: ?Sized>(s: StackView<T>, b: Box<T>)
    requires
        layout_of_val::<T>(&*b).size == 0,
    ensures
        s.push_model(b).buf_layout == s.buf_layout,
        s.push_model(b).occupied == s.occupied,
        s.push_model(b).table.last().offset == Offset::Zst(layout_of_val::<T>(&*b).align),
{
}

/// Every entry is a zero-size entry.
pub open spec fn only_zero_size<T: ?Sized>(s: StackView<T>) -> bool {
    &&& s.table.len() == s.items.len()
    &&& s.layouts.len() == s.items.len()
    &&& forall|i: int| 0 <= i < s.table.len() ==> (#[trigger] s.table[i]).offset is Zst
}

proof fn lemma_push_all_zero_size<T: ?Sized>(s: StackView<T>, values: Seq<Box<T>>)
    requires
        only_zero_size(s),
        forall|i: int| 0 <= i < values.len() ==> (#[trigger] layout_of_val::<T>(&*values[i])).size
            == 0,
    ensures
        only_zero_size(push_all(s, values)),
        push_all(s, values).buf_layout == s.buf_layout,
        push_all(s, values).occupied == s.occupied,
    decreases values.len(),
{
    if values.len() > 0 {
        let rest = values.drop_last();
        assert forall|i: int| 0 <= i < rest.len() implies (#[trigger] layout_of_val::<T>(
            &*rest[i],
        )).size == 0 by {
            assert(rest[i] == values[i]);
        }
        lemma_push_all_zero_size(s, rest);
        assert(layout_of_val::<T>(&*values[values.len() - 1]).size == 0);
        let p = push_all(s, rest);
        let q = push_all(s, values);
        assert forall|i: int|
            0 <= i < q.table.len() implies (#[trigger] q.table[i]).offset is Zst by {
            if i < p.table.len() {
                assert(q.table[i] == p.table[i]);
            }
        }
    }
}

proof fn lemma_pop_n_zero_size<T: ?Sized>(s: StackView<T>, n: nat)
    requires
        only_zero_size(s),
    ensures
        only_zero_size(pop_n(s, n)),
        pop_n(s, n).buf_layout == s.buf_layout,
        pop_n(s, n).occupied == s.occupied,
    decreases n,
{
    if n > 0 {
        lemma_pop_n_zero_size(s, (n - 1) as nat);
        let p = pop_n(s, (n - 1) as nat);
        if p.items.len() > 0 {
            assert(p.table[p.table.len() - 1].offset is Zst);
            let q = p.pop_model();
            assert forall|i: int|
            0 <= i < q.table.len() implies (#[trigger] q.table[i]).offset is Zst by {
                assert(q.table[i] == p.table[i]);
            }
        }
    }
}

/// On an empty stack, pushes of zero-sized values and any number of pops
/// after them never change the region's layout or the bytes in use: from a
/// new stack, no region is ever allocated.
pub proof fn law_zero_size_values_never_allocate<T: ?Sized>(
    s: StackView<T>,
    values: Seq<Box<T>>,
    n: nat,
)
    requires
        s.wf(),
        s.len() == 0,
        forall|i: int| 0 <= i < values.len() ==> (#[trigger] layout_of_val::<T>(&*values[i])).size
            == 0,
    ensures
        pop_n(push_all(s, values), n).buf_layout == s.buf_layout,
        pop_n(push_all(s, values), n).occupied == s.occupied,
{
    lemma_push_all_zero_size(s, values);
    lemma_pop_n_zero_size(push_all(s, values), n);
}

/// Cutting a stack to `k` values is popping the others one by one: the
/// same values, table, bytes in use and region.
pub proof fn law_truncate_is_repeated_pop<T: ?Sized>(s: StackView<T>, k: nat)
    requires
        s.wf(),
        k <= s.len(),
    ensures
        pop_n(s, (s.len() - k) as nat) == s.truncate_model(k),
    decreases s.len() - k,
{
    if k < s.len() {
        law_truncate_is_repeated_pop(s, k + 1);
        let u = s.truncate_model(k + 1);
        let t = s.truncate_model(k);
        let p = u.pop_model();
        if k + 1 < s.len() {
            assert(u.table.last() == s.table[k as int]);
        }
        assert(p.items =~= t.items);
        assert(p.table =~= t.table);
        assert(p.layouts =~= t.layouts);
    } else {
        assert(s.truncate_model(k) == s);
    }
}

/// Cutting a stack frees the bytes of the removed values, and a value that
/// fits in the region after the bytes still in use is then placed there
/// without growing the region.
pub proof fn law_push_after_truncate_reuses_region<T: ?Sized>(s: StackView<T>, k: nat, b: Box<T>)
    requires
        s.wf(),
        k < s.len(),
        layout_of_val::<T>(&*b).is_valid(),
        round_up(s.truncate_model(k).occupied, layout_of_val::<T>(&*b).align as nat)
            + layout_of_val::<T>(&*b).size <= s.buf_layout.size,
    ensures
        s.truncate_model(k).occupied <= s.occupied,
        s.truncate_model(k).push_model(b).buf_layout.size == s.buf_layout.size,
{
    crate::raw::lemma_first_data_offset(s, k as int);
    let t = s.truncate_model(k);
    let l = layout_of_val::<T>(&*b);
    if l.size > 0 {
        crate::layout::lemma_pow2_positive(l.align as nat);
        let end = occupied_after(t.occupied, l);
        assert(is_pow2(1));
        lemma_next_pow2_from_at_most(1, end, s.buf_layout.size as nat);
    }
}

/// The alignment a region has after `values` are pushed onto one of
/// alignment `align`: the largest of `align` and the alignments of the
/// values that take room.
pub open spec fn region_align<T: ?Sized>(align: nat, values: Seq<Box<T>>) -> nat
    decreases values.len(),
{
    if values.len() == 0 {
        align
    } else {
        let l = layout_of_val::<T>(&*values.last());
        let before = region_align(align, values.drop_last());
        if l.size == 0 {
            before
        } else {
            max_nat(before, l.align as nat)
        }
    }
}

/// The region's alignment is the largest alignment among the values that
/// take room, and never less than it was: zero-sized values add nothing.
pub proof fn law_region_align<T: ?Sized>(s: StackView<T>, values: Seq<Box<T>>)
    ensures
        push_all(s, values).buf_layout.align == region_align(s.buf_layout.align as nat, values),
    decreases values.len(),
{
    if values.len() > 0 {
        law_region_align(s, values.drop_last());
    }
}

} // verus!
