//! Allocation of single chunks.

use vstd::prelude::*;
use crate::chunked_vec::ChunkedVec;

verus! {

impl<T, const N: usize> ChunkedVec<T, N> {
    /// Allocates a chunk of `N` uninitialized slots.
    pub(crate) fn create_empty_chunk() -> (chunk: Vec<Option<T>>)
        ensures
            chunk@.len() == N,
            forall|o: int| 0 <= o < N ==> (#[trigger] chunk@[o]).is_none(),
    {
        let mut chunk: Vec<Option<T>> = Vec::with_capacity(N);
        while chunk.len() < N
            invariant
                chunk@.len() <= N,
                forall|o: int| 0 <= o < chunk@.len() ==> (#[trigger] chunk@[o]).is_none(),
            decreases N - chunk@.len(),
        {
            chunk.push(None);
        }
        chunk
    }

    /// Allocates a chunk whose first slot holds `value` and whose other
    /// slots are uninitialized.
    pub(crate) fn create_new_chunk(value: T) -> (chunk: Vec<Option<T>>)
        requires
            N > 0,
        ensures
            chunk@.len() == N,
            chunk@[0] == Some(value),
            forall|o: int| 1 <= o < N ==> (#[trigger] chunk@[o]).is_none(),
    {
        let mut chunk = Self::create_empty_chunk();
        chunk[0] = Some(value);
        chunk
    }
}

} // verus!
