//! Typed indices into the arrays of a simulation
use vstd::prelude::*;

verus! {

/// The trait for an index
///
/// An index type is created from a `usize` explicitly with
/// `from_usize`, never through `From`, so that indices of different
/// arrays cannot be mixed up by accident.
pub trait Idx: Copy + Sized {
    /// The array position that the index denotes
    spec fn spec_index(self) -> usize;

    fn from_usize(idx: usize) -> (r: Self)
        ensures
            r.spec_index() == idx,
    ;

    fn index(self) -> (r: usize)
        ensures
            r == self.spec_index(),
    ;
}

impl Idx for usize {
    open spec fn spec_index(self) -> usize {
        self
    }

    fn from_usize(n: usize) -> (r: usize) {
        n
    }

    fn index(self) -> (r: usize) {
        self
    }
}

} // verus!
