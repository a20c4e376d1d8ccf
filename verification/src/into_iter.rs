//! Owning iteration.

use vstd::prelude::*;
use crate::chunked_vec::ChunkedVec;
use crate::location::{lemma_index_in_chunks, lemma_locate, lemma_slot_index, slot_index};

verus! {

/// An owning cursor: it holds the container and moves its elements out
/// one by one, from the first to the last.
///
/// The slot of an element that has been yielded is uninitialized, so the
/// cursor owns exactly the elements it has yet to yield; giving the cursor
/// up destructs those and nothing else.
pub struct IntoIter<T, const N: usize> {
    pub(crate) vec: ChunkedVec<T, N>,
    pub(crate) index: usize,
}

impl<T, const N: usize> View for IntoIter<T, N> {
    type V = Seq<T>;

    /// The elements that the cursor has yet to yield, in order.
    open(crate) spec fn view(&self) -> Seq<T> {
        Seq::new(
            (self.vec.len - self.index) as nat,
            |j: int| self.vec.cell(self.index + j).unwrap(),
        )
    }
}

impl<T, const N: usize> IntoIter<T, N> {
    /// The cursor has not run past the end, and the initialized slots are
    /// exactly those of the elements it has yet to yield.
    pub open(crate) spec fn wf(&self) -> bool {
        &&& self.vec.shaped()
        &&& self.index <= self.vec.len
        &&& self.vec.len <= self.vec.data@.len() * N
        &&& self.vec.live_range(self.index as int, self.vec.len as int)
    }

    /// Number of elements already yielded.
    pub open(crate) spec fn yielded(&self) -> nat {
        self.index as nat
    }

    /// Number of elements that the container held when the cursor was
    /// made.
    pub open(crate) spec fn total(&self) -> nat {
        self.vec.len as nat
    }

    /// The cell at `offset` of chunk `chunk`.
    pub open(crate) spec fn slot(&self, chunk: int, offset: int) -> Option<T> {
        self.vec.slot(chunk, offset)
    }

    /// Number of chunks that the cursor holds.
    pub open(crate) spec fn chunk_count(&self) -> nat {
        self.vec.chunk_count()
    }

    /// Moves the next element out of its slot and yields it, or yields
    /// nothing once every element has been yielded.
    pub fn next(&mut self) -> (element: Option<T>)
        requires
            old(self).wf(),
        ensures
            final(self).wf(),
            final(self).chunk_count() == old(self).chunk_count(),
            final(self).total() == old(self).total(),
            final(self).yielded() == old(self).yielded() + (if old(self)@.len() > 0 {
                1nat
            } else {
                0nat
            }),
            element == (if old(self)@.len() > 0 {
                Some(old(self)@[0])
            } else {
                None
            }),
            final(self)@ == (if old(self)@.len() > 0 {
                old(self)@.drop_first()
            } else {
                old(self)@
            }),
    {
        if self.index < self.vec.len() {
            let ghost n = N as int;
            let index = self.index;
            self.index = self.index + 1;
            let cell = self.vec.replace_cell(index, None);
            proof {
                lemma_locate(index as int, n);
                lemma_index_in_chunks(index as int, self.vec.data@.len() as int, n);
                assert(old(self).vec.slot(
                    crate::location::chunk_of(index as int, n),
                    crate::location::offset_of(index as int, n),
                ).is_some());
                assert forall|k: int, o: int|
                    0 <= k < self.vec.data@.len() && 0 <= o < N implies ((#[trigger] self.vec.slot(
                    k,
                    o,
                )).is_some() <==> self.index <= slot_index(k, o, n) < self.vec.len) by {
                    lemma_slot_index(k, o, n);
                    if slot_index(k, o, n) != index {
                        assert(self.vec.slot(k, o) == old(self).vec.slot(k, o));
                    }
                }
                assert forall|j: int| 0 <= j < self.vec.len - self.index implies #[trigger] self@[j]
                    == old(self)@.drop_first()[j] by {
                    assert(self.vec.cell(self.index + j) == old(self).vec.cell(index + (j + 1)));
                }
                assert(self@ =~= old(self)@.drop_first());
                assert(cell == Some(old(self)@[0]));
            }
            cell
        } else {
            None
        }
    }

    /// Bounds on the number of elements that are left: both are exactly
    /// that number.
    pub fn size_hint(&self) -> (bounds: (usize, Option<usize>))
        requires
            self.wf(),
        ensures
            bounds == (self@.len() as usize, Some(self@.len() as usize)),
            bounds.0 == self@.len(),
    {
        let remaining = self.vec.len() - self.index;
        (remaining, Some(remaining))
    }

    /// Gives the cursor up before its end: destructs the elements it has
    /// yet to yield, each once, and hands back the container, empty and
    /// with its chunks still allocated.
    pub fn finish(self) -> (vec: ChunkedVec<T, N>)
        requires
            self.wf(),
        ensures
            vec.wf(),
            vec@ == Seq::<T>::empty(),
            vec.chunk_count() == self.chunk_count(),
    {
        let ghost n = N as int;
        let mut this = self;
        while this.index < this.vec.len
            invariant
                n == N,
                this.wf(),
                this.vec.data@.len() == self.vec.data@.len(),
            decreases this.vec.len - this.index,
        {
            let ghost before = this;
            let index = this.index;
            let _ = this.vec.replace_cell(index, None);
            this.index = this.index + 1;
            proof {
                assert forall|k: int, o: int|
                    0 <= k < this.vec.data@.len() && 0 <= o < N implies ((#[trigger] this.vec.slot(
                    k,
                    o,
                )).is_some() <==> this.index <= slot_index(k, o, n) < this.vec.len) by {
                    lemma_slot_index(k, o, n);
                    if slot_index(k, o, n) != index {
                        assert(this.vec.slot(k, o) == before.vec.slot(k, o));
                    }
                }
            }
        }
        let mut vec = this.vec;
        let ghost drained = vec;
        vec.len = 0;
        proof {
            assert forall|k: int, o: int|
                0 <= k < vec.data@.len() && 0 <= o < N implies ((#[trigger] vec.slot(
                k,
                o,
            )).is_some() <==> 0 <= slot_index(k, o, n) < vec.len) by {
                assert(vec.slot(k, o) == drained.slot(k, o));
            }
            assert(0 <= vec.data@.len() * N) by (nonlinear_arith);
            assert(vec@ =~= Seq::<T>::empty());
        }
        vec
    }
}

impl<T, const N: usize> ChunkedVec<T, N> {
    /// Turns the container into an owning cursor that yields every element
    /// from the first to the last.
    pub fn into_iter(self) -> (iter: IntoIter<T, N>)
        requires
            self.wf(),
        ensures
            iter.wf(),
            iter@ == self@,
            iter.chunk_count() == self.chunk_count(),
            iter.yielded() == 0,
            iter.total() == self@.len(),
    {
        let iter = IntoIter { vec: self, index: 0 };
        assert(iter@ =~= self@);
        iter
    }
}

} // verus!
