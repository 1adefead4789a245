//! Sizes, alignments and the arithmetic that places values in a packed region.
use vstd::prelude::*;

verus! {

/// `n` is a power of two.
pub open spec fn is_pow2(n: nat) -> bool
    decreases n,
{
    if n <= 1 {
        n == 1
    } else {
        n % 2 == 0 && is_pow2(n / 2)
    }
}

/// The smallest multiple of `align` that is at least `n`.
pub open spec fn round_up(n: nat, align: nat) -> nat
    recommends
        align > 0,
{
    if n % align == 0 {
        n
    } else {
        n + (align - n % align) as nat
    }
}

/// The first power of two reached by doubling `p` that is at least `n`.
pub open spec fn next_pow2_from(p: nat, n: nat) -> nat
    recommends
        p > 0,
    decreases (if p < n { n - p } else { 0 }),
    when p > 0
{
    if p >= n {
        p
    } else {
        next_pow2_from(2 * p, n)
    }
}

/// The smallest power of two that is at least `n` (one for zero).
pub open spec fn next_pow2(n: nat) -> nat {
    next_pow2_from(1, n)
}

/// The largest size a region of the given alignment may have: its size,
/// rounded up to the alignment, must not exceed `isize::MAX`.
pub open spec fn max_size_for(align: nat) -> nat
    recommends
        align > 0,
{
    (isize::MAX as nat - (isize::MAX as nat) % align) as nat
}

pub open spec fn max_nat(a: nat, b: nat) -> nat {
    if a >= b {
        a
    } else {
        b
    }
}

/// A size and an alignment, as a memory region is described.
#[derive(Clone, Copy, Debug, PartialEq, Eq, Structural)]
pub struct Layout {
    pub size: usize,
    pub align: usize,
}

impl Layout {
    /// The alignment is a power of two and the size, rounded up to it, fits in `isize`.
    pub open spec fn is_valid(&self) -> bool {
        &&& is_pow2(self.align as nat)
        &&& self.size <= max_size_for(self.align as nat)
    }

    /// Builds the layout of the given size and alignment, if it is valid.
    pub fn from_size_align(size: usize, align: usize) -> (r: Option<Layout>)
        ensures
            r is Some <==> (Layout { size, align }).is_valid(),
            r is Some ==> r->0 == (Layout { size, align }),
    {
        if !is_power_of_two(align) {
            return None;
        }
        let top: usize = isize::MAX as usize;
        proof {
            lemma_pow2_positive(align as nat);
            vstd::arithmetic::div_mod::lemma_mod_decreases(top as nat, align as nat);
        }
        let max: usize = top - top % align;
        if size <= max {
            Some(Layout { size, align })
        } else {
            None
        }
    }

    /// The layout of a value that the region holds, as the compiler lays it out.
    pub fn for_value<T: ?Sized>(value: &T) -> (r: Layout)
        ensures
            r == layout_of_val::<T>(value),
    {
        Layout {
            size: core::mem::size_of_val::<T>(value),
            align: core::mem::align_of_val::<T>(value),
        }
    }

    pub fn size(&self) -> (r: usize)
        ensures
            r == self.size,
    {
        self.size
    }

    pub fn align(&self) -> (r: usize)
        ensures
            r == self.align,
    {
        self.align
    }
}

/// The layout of a value: its size and alignment as `size_of_val` and
/// `align_of_val` give them.
pub open spec fn layout_of_val<T: ?Sized>(value: &T) -> Layout {
    Layout {
        size: vstd::layout::spec_size_of_val::<T>(value) as usize,
        align: vstd::layout::spec_align_of_val::<T>(value) as usize,
    }
}

/// Tells whether `n` is a power of two.
pub fn is_power_of_two(n: usize) -> (r: bool)
    ensures
        r == is_pow2(n as nat),
{
    let mut m: usize = n;
    while m > 1 && m % 2 == 0
        invariant
            is_pow2(m as nat) == is_pow2(n as nat),
        decreases m,
    {
        m = m / 2;
    }
    m == 1
}

/// Rounds `n` up to the next multiple of `align`.
pub fn round_up_to(n: usize, align: usize) -> (r: usize)
    requires
        align > 0,
        round_up(n as nat, align as nat) <= usize::MAX,
    ensures
        r == round_up(n as nat, align as nat),
{
    let rem: usize = n % align;
    if rem == 0 {
        n
    } else {
        n + (align - rem)
    }
}

/// The smallest power of two that is at least `n`.
pub fn next_power_of_two(n: usize) -> (r: usize)
    requires
        next_pow2(n as nat) <= usize::MAX,
    ensures
        r == next_pow2(n as nat),
{
    let mut p: usize = 1;
    while p < n
        invariant
            p > 0,
            next_pow2_from(p as nat, n as nat) == next_pow2(n as nat),
            next_pow2(n as nat) <= usize::MAX,
        decreases (if p < n { n - p } else { 0 }),
    {
        proof {
            lemma_next_pow2_from_at_least(2 * p as nat, n as nat);
        }
        p = p * 2;
    }
    p
}

pub proof fn lemma_pow2_positive(n: nat)
    requires
        is_pow2(n),
    ensures
        n >= 1,
{
}

/// The largest size for an alignment is at most `isize::MAX`.
pub proof fn lemma_max_size_for(align: nat)
    requires
        align > 0,
    ensures
        max_size_for(align) <= isize::MAX,
{
    vstd::arithmetic::div_mod::lemma_mod_pos_bound(isize::MAX as int, align as int);
    vstd::arithmetic::div_mod::lemma_mod_decreases(isize::MAX as nat, align);
}

/// Doubling until `n` is passed never gives less than the start.
pub proof fn lemma_next_pow2_from_at_least(p: nat, n: nat)
    requires
        p > 0,
    ensures
        next_pow2_from(p, n) >= p,
        next_pow2_from(p, n) >= n,
    decreases (if p < n { n - p } else { 0 }),
{
    if p < n {
        lemma_next_pow2_from_at_least(2 * p, n);
    }
}

/// Doubling a power of two gives a power of two.
pub proof fn lemma_pow2_double(p: nat)
    requires
        is_pow2(p),
    ensures
        is_pow2(2 * p),
{
    lemma_pow2_positive(p);
    assert((2 * p) / 2 == p);
}

/// What doubling reaches from a power of two is a power of two.
pub proof fn lemma_next_pow2_from_is_pow2(p: nat, n: nat)
    requires
        is_pow2(p),
    ensures
        is_pow2(next_pow2_from(p, n)),
    decreases (if p < n { n - p } else { 0 }),
{
    lemma_pow2_positive(p);
    if p < n {
        lemma_pow2_double(p);
        lemma_next_pow2_from_is_pow2(2 * p, n);
    }
}

/// Of two powers of two, the smaller is at most half the larger.
pub proof fn lemma_pow2_lt_double(p: nat, q: nat)
    requires
        is_pow2(p),
        is_pow2(q),
        p < q,
    ensures
        2 * p <= q,
    decreases p,
{
    lemma_pow2_positive(p);
    if p > 1 {
        lemma_pow2_lt_double(p / 2, q / 2);
    }
}

/// A power of two at least `n`, reached from below by doubling, bounds what doubling reaches.
pub proof fn lemma_next_pow2_from_at_most(p: nat, n: nat, q: nat)
    requires
        is_pow2(p),
        is_pow2(q),
        p <= q,
        n <= q,
    ensures
        next_pow2_from(p, n) <= q,
    decreases (if p < n { n - p } else { 0 }),
{
    lemma_pow2_positive(p);
    if p < n {
        lemma_pow2_lt_double(p, q);
        lemma_pow2_double(p);
        lemma_next_pow2_from_at_most(2 * p, n, q);
    }
}

/// The rounded value is a multiple of the alignment, at least `n` and less than `n + align`.
pub proof fn lemma_round_up(n: nat, align: nat)
    requires
        align > 0,
    ensures
        round_up(n, align) % align == 0,
        n <= round_up(n, align) < n + align,
{
    if n % align != 0 {
        vstd::arithmetic::div_mod::lemma_fundamental_div_mod(n as int, align as int);
        let q = n / align;
        let r = n % align;
        assert(n + (align - r) == align * (q + 1)) by (nonlinear_arith)
            requires
                n == align * q + r,
        ;
        vstd::arithmetic::div_mod::lemma_mod_multiples_basic((q + 1) as int, align as int);
        assert((q + 1) * align == align * (q + 1)) by (nonlinear_arith);
    }
}

} // verus!
