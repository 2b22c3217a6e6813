//! Uniform access to dense per-cell containers, indexed by a cell's linear
//! index. Implemented for `Vec<T>`; the wave structure exposes the same
//! interface for its image of front indices.

use vstd::prelude::*;

verus! {

/// Read access by value.
pub trait GridMap<T: Copy> {
    /// The contents of the container, one element per cell.
    spec fn contents(&self) -> Seq<T>;

    fn at(&self, ix: usize) -> (r: T)
        requires
            ix < self.contents().len(),
        ensures
            r == self.contents()[ix as int],
    ;
}

/// Read access by reference.
pub trait RefMap<T> {
    /// The contents of the container, one element per cell.
    spec fn ref_contents(&self) -> Seq<T>;

    fn ref_at(&self, ix: usize) -> (r: &T)
        requires
            ix < self.ref_contents().len(),
        ensures
            *r == self.ref_contents()[ix as int],
    ;
}

/// Write access through a mutable reference.
pub trait MutMap<T> {
    /// The contents of the container, one element per cell.
    spec fn mut_contents(&self) -> Seq<T>;

    fn mut_at(&mut self, ix: usize) -> (r: &mut T)
        requires
            ix < old(self).mut_contents().len(),
        ensures
            *r == old(self).mut_contents()[ix as int],
            final(self).mut_contents() == old(self).mut_contents().update(
                ix as int,
                *final(r),
            ),
    ;
}

impl<T: Copy> GridMap<T> for Vec<T> {
    open spec fn contents(&self) -> Seq<T> {
        self@
    }

    fn at(&self, ix: usize) -> (r: T) {
        self[ix]
    }
}

impl<T> RefMap<T> for Vec<T> {
    open spec fn ref_contents(&self) -> Seq<T> {
        self@
    }

    fn ref_at(&self, ix: usize) -> (r: &T) {
        &self[ix]
    }
}

impl<T> MutMap<T> for Vec<T> {
    open spec fn mut_contents(&self) -> Seq<T> {
        self@
    }

    fn mut_at(&mut self, ix: usize) -> (r: &mut T) {
        &mut self[ix]
    }
}

} // verus!
