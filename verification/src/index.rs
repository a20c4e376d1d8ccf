//! Access to single elements by logical index.

use vstd::prelude::*;
use crate::chunked_vec::ChunkedVec;
use crate::laws::element_at;
use crate::location::{
    chunk_of, lemma_index_in_chunks, lemma_locate, locate, offset_of, slot_index,
};

verus! {

impl<T, const N: usize> ChunkedVec<T, N> {
    /// The element at `index`, for a caller that has already established
    /// that `index` is below the length.
    #[inline]
    pub fn get_unchecked(&self, index: usize) -> (element: &T)
        requires
            self.wf(),
            index < self@.len(),
        ensures
            *element == self@[index as int],
    {
        proof {
            if N == 0 {
                assert(self.data@.len() * N == 0) by (nonlinear_arith)
                    requires
                        N == 0,
                ;
            }
        }
        let (chunk_idx, offset) = locate(index, N);
        proof {
            lemma_index_in_chunks(index as int, self.data@.len() as int, N as int);
            assert(self.slot(chunk_idx as int, offset as int).is_some());
        }
        match &self.data[chunk_idx][offset] {
            Some(element) => element,
            None => vstd::pervasive::unreached(),
        }
    }

    /// Exclusive access to the element at `index`, for a caller that has
    /// already established that `index` is below the length. What the
    /// caller writes through the reference becomes the element at `index`;
    /// nothing else changes.
    #[inline]
    pub fn get_unchecked_mut(&mut self, index: usize) -> (element: &mut T)
        requires
            old(self).wf(),
            index < old(self)@.len(),
        ensures
            *element == old(self)@[index as int],
            final(self).wf(),
            final(self).chunk_count() == old(self).chunk_count(),
            final(self)@ == old(self)@.update(index as int, *final(element)),
    {
        proof {
            if N == 0 {
                assert(self.data@.len() * N == 0) by (nonlinear_arith)
                    requires
                        N == 0,
                ;
            }
        }
        let (chunk_idx, offset) = locate(index, N);
        proof {
            let n = N as int;
            lemma_index_in_chunks(index as int, self.data@.len() as int, n);
            assert(self.slot(chunk_idx as int, offset as int).is_some());
            assert forall|k: int, o: int|
                0 <= k < self.data@.len() && 0 <= o < N implies ((#[trigger] self.data@[k]@[o]).is_some()
                <==> 0 <= slot_index(k, o, n) < self.len) by {
                assert(self.slot(k, o) == self.data@[k]@[o]);
            }
            assert forall|j: int| 0 <= j < self.len implies slot_index(
                #[trigger] chunk_of(j, n),
                offset_of(j, n),
                n,
            ) == j && 0 <= chunk_of(j, n) < self.data@.len() && 0 <= offset_of(j, n) < n by {
                lemma_locate(j, n);
                lemma_index_in_chunks(j, self.data@.len() as int, n);
            }
        }
        let element = match &mut self.data[chunk_idx][offset] {
            Some(element) => element,
            None => vstd::pervasive::unreached(),
        };
        element
    }

    /// The element at `index`, or nothing when `index` is not below the
    /// length.
    #[inline]
    pub fn get(&self, index: usize) -> (element: Option<&T>)
        requires
            self.wf(),
        ensures
            match element {
                Some(value) => element_at(self@, index as int) == Some(*value),
                None => element_at(self@, index as int) == None::<T>,
            },
    {
        if index >= self.len {
            None
        } else {
            Some(self.get_unchecked(index))
        }
    }

    /// Exclusive access to the element at `index`, or nothing when `index`
    /// is not below the length. What the caller writes through the
    /// reference becomes the element at `index`; nothing else changes.
    #[inline]
    pub fn get_mut(&mut self, index: usize) -> (element: Option<&mut T>)
        requires
            old(self).wf(),
        ensures
            final(self).wf(),
            final(self).chunk_count() == old(self).chunk_count(),
            match element {
                Some(value) => element_at(old(self)@, index as int) == Some(*value)
                    && final(self)@ == old(self)@.update(index as int, *final(value)),
                None => element_at(old(self)@, index as int) == None::<T>
                    && final(self)@ == old(self)@,
            },
    {
        if index >= self.len {
            None
        } else {
            Some(self.get_unchecked_mut(index))
        }
    }
}

impl<T, const N: usize> core::ops::Index<usize> for ChunkedVec<T, N> {
    type Output = T;

    /// The element at `index`, which must be below the length.
    #[inline]
    fn index(&self, index: usize) -> (element: &T)
        ensures
            *element == self@[index as int],
    {
        self.get_unchecked(index)
    }
}

impl<T, const N: usize> vstd::std_specs::core::IndexSpecImpl<usize> for ChunkedVec<T, N> {
    open spec fn index_req(&self, index: &usize) -> bool {
        self.wf() && *index < self@.len()
    }
}

impl<T, const N: usize> core::ops::IndexMut<usize> for ChunkedVec<T, N> {
    /// Exclusive access to the element at `index`, which must be below the
    /// length.
    #[inline]
    fn index_mut(&mut self, index: usize) -> (element: &mut T)
        requires
            old(self).wf(),
            index < old(self)@.len(),
        ensures
            *element == old(self)@[index as int],
            final(self).wf(),
            final(self).chunk_count() == old(self).chunk_count(),
            final(self)@ == old(self)@.update(index as int, *final(element)),
    {
        self.get_unchecked_mut(index)
    }
}

} // verus!
