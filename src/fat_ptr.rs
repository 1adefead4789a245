//! The two-word description of a reference to a dynamically sized value:
//! where its data lies and the metadata word that completes it.
use vstd::prelude::*;

verus! {

/// A data address and a metadata word.
#[derive(Clone, Copy, Debug, PartialEq, Eq, Structural)]
pub struct FatPtr {
    ptr: usize,
    metadata: usize,
}

impl FatPtr {
    pub closed spec fn spec_ptr(&self) -> usize {
        self.ptr
    }

    pub closed spec fn spec_metadata(&self) -> usize {
        self.metadata
    }

    pub fn new(ptr: usize, metadata: usize) -> (r: FatPtr)
        ensures
            r.spec_ptr() == ptr,
            r.spec_metadata() == metadata,
    {
        FatPtr { ptr, metadata }
    }

    /// The data address.
    #[verifier::when_used_as_spec(spec_ptr)]
    pub fn ptr(&self) -> (r: usize)
        ensures
            r == self.spec_ptr(),
    {
        self.ptr
    }

    /// The metadata word.
    #[verifier::when_used_as_spec(spec_metadata)]
    pub fn metadata(&self) -> (r: usize)
        ensures
            r == self.spec_metadata(),
    {
        self.metadata
    }
}

/// A reference to `T` is two machine words: one address and one metadata word.
pub open spec fn is_fat<T: ?Sized>() -> bool {
    vstd::layout::size_of::<&T>() == 2 * vstd::layout::size_of::<usize>()
}

/// Tells whether references to `T` are two machine words, as the stack needs
/// of its element type.
pub fn check_valid<T: ?Sized>() -> (r: bool)
    ensures
        r == is_fat::<T>(),
{
    broadcast use vstd::layout::layout_of_primitives;

    core::mem::size_of::<&T>() == 2 * core::mem::size_of::<usize>()
}

} // verus!
