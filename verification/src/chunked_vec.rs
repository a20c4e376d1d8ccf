//! The container type, its mathematical model and its invariant.

use vstd::prelude::*;
use crate::location::{
    chunk_of, lemma_index_in_chunks, lemma_locate, locate, offset_of, slot_index,
};

verus! {

/// A growable sequence stored as a list of chunks of `N` slots each.
///
/// A slot is a tagged cell: `Some(value)` is an initialized slot, `None` an
/// uninitialized one. The logical length decides which is which.
pub struct ChunkedVec<T, const N: usize> {
    pub(crate) data: Vec<Vec<Option<T>>>,
    pub(crate) len: usize,
}

/// Names the constructors for a container with an explicit chunk size.
pub struct ChunkedVecSized<T, const N: usize>(pub(crate) core::marker::PhantomData<T>);

impl<T, const N: usize> View for ChunkedVec<T, N> {
    type V = Seq<T>;

    /// The stored elements in logical order.
    open(crate) spec fn view(&self) -> Seq<T> {
        Seq::new(self.len as nat, |i: int| self.cell(i).unwrap())
    }
}

impl<T, const N: usize> ChunkedVec<T, N> {
    /// Number of chunks that currently exist.
    pub open(crate) spec fn chunk_count(&self) -> nat {
        self.data@.len()
    }

    /// The cell at `offset` of chunk `chunk`.
    pub open(crate) spec fn slot(&self, chunk: int, offset: int) -> Option<T> {
        self.data@[chunk]@[offset]
    }

    /// The cell that holds logical index `index`.
    pub open(crate) spec fn cell(&self, index: int) -> Option<T> {
        self.slot(chunk_of(index, N as int), offset_of(index, N as int))
    }

    /// Every chunk has exactly `N` slots, and the slots of all chunks can be
    /// counted in a `usize`.
    pub open(crate) spec fn shaped(&self) -> bool {
        &&& self.data@.len() * N <= usize::MAX
        &&& forall|k: int|
            0 <= k < self.data@.len() ==> (#[trigger] self.data@[k])@.len() == N
    }

    /// The initialized slots are exactly those whose logical index lies in
    /// `[low, high)`.
    pub open(crate) spec fn live_range(&self, low: int, high: int) -> bool {
        forall|k: int, o: int|
            0 <= k < self.data@.len() && 0 <= o < N ==> ((#[trigger] self.slot(k, o)).is_some()
                <==> low <= slot_index(k, o, N as int) < high)
    }

    /// The storage invariant: every chunk has exactly `N` slots, the length
    /// does not exceed the slots that exist, and the slot at
    /// `(chunk, offset)` is initialized exactly when its logical index
    /// `chunk * N + offset` is below the length.
    pub open(crate) spec fn wf(&self) -> bool {
        &&& self.shaped()
        &&& self.len <= self.data@.len() * N
        &&& self.live_range(0, self.len as int)
    }

    /// Puts `cell` into the slot of logical index `index` and hands back
    /// the cell that was there. No other slot changes.
    pub(crate) fn replace_cell(&mut self, index: usize, cell: Option<T>) -> (previous: Option<T>)
        requires
            old(self).shaped(),
            index < old(self).chunk_count() * N,
        ensures
            final(self).shaped(),
            final(self).chunk_count() == old(self).chunk_count(),
            final(self).len == old(self).len,
            previous == old(self).cell(index as int),
            final(self).cell(index as int) == cell,
            forall|k: int, o: int|
                0 <= k < old(self).chunk_count() && 0 <= o < N && slot_index(k, o, N as int)
                    != index ==> #[trigger] final(self).slot(k, o) == old(self).slot(k, o),
            forall|j: int|
                0 <= j < old(self).chunk_count() * N && j != index ==> #[trigger] final(self).cell(
                    j,
                ) == old(self).cell(j),
    {
        proof {
            if N == 0 {
                assert(self.data@.len() * N == 0) by (nonlinear_arith)
                    requires
                        N == 0,
                ;
            }
        }
        let (chunk, offset) = locate(index, N);
        proof {
            lemma_index_in_chunks(index as int, self.data@.len() as int, N as int);
        }
        let mut cell = cell;
        core::mem::swap(&mut cell, &mut self.data[chunk][offset]);
        proof {
            assert forall|j: int|
                0 <= j < old(self).chunk_count() * N && j != index implies #[trigger] self.cell(j)
                == old(self).cell(j) by {
                lemma_locate(j, N as int);
                lemma_index_in_chunks(j, self.data@.len() as int, N as int);
            }
        }
        cell
    }
}

} // verus!
