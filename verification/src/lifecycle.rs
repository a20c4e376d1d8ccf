//! Destruction of the stored elements.

use vstd::prelude::*;
use crate::chunked_vec::ChunkedVec;
use crate::location::{
    lemma_index_in_chunks, lemma_slot_index, lemma_slot_index_next, lemma_slot_index_order,
    slot_index,
};

verus! {

impl<T, const N: usize> ChunkedVec<T, N> {
    /// Destructs every stored element, each exactly once, and leaves the
    /// container empty with its chunks still allocated.
    ///
    /// The chunks are walked in order. In each chunk the slots that hold an
    /// element are destructed from offset 0 on; the walk ends with the last
    /// element, so that no uninitialized slot is touched.
    pub fn clear(&mut self)
        requires
            old(self).wf(),
        ensures
            final(self).wf(),
            final(self)@ == Seq::<T>::empty(),
            final(self).chunk_count() == old(self).chunk_count(),
    {
        let ghost n = N as int;
        let ghost len = self.len as int;
        proof {
            if N == 0 {
                assert(self.data@.len() * N == 0) by (nonlinear_arith)
                    requires
                        N == 0,
                ;
            }
        }
        let mut remaining: usize = self.len;
        let mut chunk_idx: usize = 0;
        while remaining > 0
            invariant
                n == N,
                self.shaped(),
                self.data@.len() == old(self).data@.len(),
                self.len == len,
                len <= self.data@.len() * N,
                remaining <= len,
                remaining > 0 ==> slot_index(chunk_idx as int, 0, n) + remaining == len,
                self.live_range(len - remaining, len),
            decreases remaining,
        {
            proof {
                lemma_slot_index(chunk_idx as int, 0, n);
                lemma_index_in_chunks(
                    slot_index(chunk_idx as int, 0, n),
                    self.data@.len() as int,
                    n,
                );
            }
            let to_drop: usize = if remaining < N {
                remaining
            } else {
                N
            };
            let mut offset: usize = 0;
            while offset < to_drop
                invariant
                    n == N,
                    N > 0,
                    self.shaped(),
                    self.data@.len() == old(self).data@.len(),
                    self.len == len,
                    chunk_idx < self.data@.len(),
                    offset <= to_drop <= N,
                    to_drop <= remaining,
                    slot_index(chunk_idx as int, 0, n) + remaining == len,
                    self.live_range(slot_index(chunk_idx as int, 0, n) + offset, len),
                decreases to_drop - offset,
            {
                let ghost before = *self;
                self.data[chunk_idx][offset] = None;
                proof {
                    let at = slot_index(chunk_idx as int, offset as int, n);
                    assert forall|k: int, o: int|
                        0 <= k < self.data@.len() && 0 <= o < N implies ((#[trigger] self.slot(
                        k,
                        o,
                    )).is_some() <==> at + 1 <= slot_index(k, o, n) < len) by {
                        if k == chunk_idx && o == offset {
                        } else {
                            assert(self.slot(k, o) == before.slot(k, o));
                            if k < chunk_idx {
                                lemma_slot_index_order(k, o, chunk_idx as int, offset as int, n);
                            } else if k > chunk_idx {
                                lemma_slot_index_order(chunk_idx as int, offset as int, k, o, n);
                            }
                        }
                    }
                }
                offset = offset + 1;
            }
            proof {
                lemma_slot_index_next(chunk_idx as int, N - 1, n);
            }
            remaining = remaining - to_drop;
            chunk_idx = chunk_idx + 1;
        }
        let ghost emptied = *self;
        self.len = 0;
        proof {
            assert forall|k: int, o: int|
                0 <= k < self.data@.len() && 0 <= o < N implies ((#[trigger] self.slot(
                k,
                o,
            )).is_some() <==> 0 <= slot_index(k, o, n) < self.len) by {
                assert(self.slot(k, o) == emptied.slot(k, o));
            }
            assert(0 <= self.data@.len() * N) by (nonlinear_arith);
            assert(self@ =~= Seq::<T>::empty());
        }
    }
}

} // verus!
