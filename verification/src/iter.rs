//! Read-only iteration.

use vstd::prelude::*;
use crate::chunked_vec::ChunkedVec;

verus! {

/// A read-only cursor over the elements of a container, from the first to
/// the last.
pub struct Iter<'a, T, const N: usize> {
    pub(crate) vec: &'a ChunkedVec<T, N>,
    pub(crate) index: usize,
}

impl<'a, T, const N: usize> View for Iter<'a, T, N> {
    type V = Seq<T>;

    /// The elements that the cursor has yet to yield, in order.
    open(crate) spec fn view(&self) -> Seq<T> {
        self.vec@.subrange(self.index as int, self.vec@.len() as int)
    }
}

impl<'a, T, const N: usize> Iter<'a, T, N> {
    /// The cursor borrows a well-formed container and has not run past its
    /// end.
    pub open(crate) spec fn wf(&self) -> bool {
        &&& self.vec.wf()
        &&& self.index <= self.vec@.len()
    }

    /// The elements of the container that the cursor runs over.
    pub open(crate) spec fn source(&self) -> Seq<T> {
        self.vec@
    }

    /// Yields the next element, or nothing once every element has been
    /// yielded.
    pub fn next(&mut self) -> (element: Option<&'a T>)
        requires
            old(self).wf(),
        ensures
            final(self).wf(),
            final(self).source() == old(self).source(),
            match element {
                Some(value) => old(self)@.len() > 0 && *value == old(self)@[0] && final(self)@
                    == old(self)@.drop_first(),
                None => old(self)@.len() == 0 && final(self)@ == old(self)@,
            },
    {
        if self.index < self.vec.len() {
            let index = self.index;
            self.index = self.index + 1;
            Some(self.vec.get_unchecked(index))
        } else {
            None
        }
    }
}

impl<T, const N: usize> ChunkedVec<T, N> {
    /// A read-only cursor that yields every element from the first to the
    /// last.
    pub fn iter(&self) -> (iter: Iter<'_, T, N>)
        requires
            self.wf(),
        ensures
            iter.wf(),
            iter@ == self@,
            iter.source() == self@,
    {
        let iter = Iter { vec: self, index: 0 };
        assert(iter@ =~= self@);
        iter
    }
}

} // verus!
