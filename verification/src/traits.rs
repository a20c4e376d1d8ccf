//! Standard traits of the container.

use vstd::prelude::*;
use crate::chunked_vec::ChunkedVec;
use crate::DEFAULT_CHUNK_SIZE;

verus! {

impl<T> Default for ChunkedVec<T, DEFAULT_CHUNK_SIZE> {
    /// An empty container with the default chunk size and no chunk
    /// allocated.
    fn default() -> (vec: Self)
        ensures
            vec.wf(),
            vec@ == Seq::<T>::empty(),
            vec.chunk_count() == 0,
    {
        Self::new()
    }
}

} // verus!
