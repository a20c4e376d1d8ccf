//! Exclusive-mutable iteration.

use vstd::prelude::*;
use crate::chunked_vec::ChunkedVec;

verus! {

/// An exclusive cursor over the elements of a container, from the first to
/// the last. It lends out one element at a time: the reference that `next`
/// returns must be given up before the next element is requested.
///
/// The fields are public so that contracts can speak of the borrow that
/// the cursor holds.
pub struct IterMut<'a, T, const N: usize> {
    pub vec: &'a mut ChunkedVec<T, N>,
    pub index: usize,
}

impl<'a, T, const N: usize> IterMut<'a, T, N> {
    /// The cursor borrows a well-formed container and has not run past its
    /// end.
    pub open spec fn wf(&self) -> bool {
        &&& self.vec.wf()
        &&& self.index <= self.vec@.len()
    }

    /// The elements of the container as they are now.
    pub open spec fn source(&self) -> Seq<T> {
        self.vec@
    }

    /// Number of elements already yielded.
    pub open spec fn position(&self) -> nat {
        self.index as nat
    }

    /// Yields exclusive access to the next element, or nothing once every
    /// element has been yielded. What the caller writes through the
    /// reference becomes that element of the container. The cursor keeps
    /// the borrow it was made with.
    pub fn next(&mut self) -> (element: Option<&mut T>)
        requires
            old(self).wf(),
        ensures
            final(self).wf(),
            *final(final(self).vec) == *final(old(self).vec),
            match element {
                Some(value) => old(self).position() < old(self).source().len() && *value == old(
                    self,
                ).source()[old(self).position() as int] && final(self).position() == old(
                    self,
                ).position() + 1 && final(self).source() == old(self).source().update(
                    old(self).position() as int,
                    *final(value),
                ),
                None => old(self).position() == old(self).source().len() && final(self).position()
                    == old(self).position() && final(self).source() == old(self).source(),
            },
    {
        if self.index < self.vec.len() {
            let index = self.index;
            self.index = self.index + 1;
            Some(self.vec.get_unchecked_mut(index))
        } else {
            None
        }
    }
}

impl<T, const N: usize> ChunkedVec<T, N> {
    /// An exclusive cursor that yields every element from the first to the
    /// last. The container is, in the end, what the cursor's borrow holds
    /// when the cursor is given up.
    pub fn iter_mut(&mut self) -> (iter: IterMut<'_, T, N>)
        requires
            old(self).wf(),
        ensures
            iter.wf(),
            iter.position() == 0,
            iter.source() == old(self)@,
            *final(iter.vec) == *final(self),
    {
        IterMut { vec: self, index: 0 }
    }
}

} // verus!
