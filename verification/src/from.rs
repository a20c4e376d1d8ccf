//! Construction from sequences that already exist.

use vstd::prelude::*;
use crate::chunked_vec::ChunkedVec;
use crate::location::max_len;
use crate::DEFAULT_CHUNK_SIZE;

verus! {

/// Moves the elements of an array into a vector, in order.
///
/// Calls the standard library's conversion from `[T; M]` to `Vec<T>`, which
/// is documented to allocate a vector and move the array's items into it.
#[verifier::external_body]
fn array_into_vec<T, const M: usize>(array: [T; M]) -> (vec: Vec<T>)
    ensures
        vec@ == array@,
{
    Vec::from(array)
}

impl<T> ChunkedVec<T, DEFAULT_CHUNK_SIZE> {
    /// Creates a container that holds the elements of `vec`, in order.
    /// Room for all of them is allocated first.
    pub fn from_vec(vec: Vec<T>) -> (chunked: Self)
        requires
            vec@.len() <= max_len(DEFAULT_CHUNK_SIZE as int),
        ensures
            chunked.wf(),
            chunked@ == vec@,
    {
        let ghost elements = vec@;
        let mut chunked = Self::with_capacity(vec.len());
        for item in items: vec
            invariant
                items.seq() == elements,
                elements.len() <= max_len(DEFAULT_CHUNK_SIZE as int),
                chunked.wf(),
                chunked@ == elements.take(items.index() as int),
        {
            chunked.push(item);
            assert(elements.take(items.index() + 1) =~= elements.take(items.index() as int).push(
                item,
            ));
        }
        assert(elements.take(elements.len() as int) =~= elements);
        chunked
    }

    /// Creates a container that holds the elements of `array`, in order.
    pub fn from_array<const M: usize>(array: [T; M]) -> (chunked: Self)
        requires
            M <= max_len(DEFAULT_CHUNK_SIZE as int),
        ensures
            chunked.wf(),
            chunked@ == array@,
    {
        Self::from_vec(array_into_vec(array))
    }

    /// Creates a container that holds a clone of each element of `slice`,
    /// in order.
    pub fn from_slice(slice: &[T]) -> (chunked: Self) where T: Clone
        requires
            slice@.len() <= max_len(DEFAULT_CHUNK_SIZE as int),
        ensures
            chunked.wf(),
            chunked@.len() == slice@.len(),
            forall|i: int| 0 <= i < slice@.len() ==> cloned(slice@[i], #[trigger] chunked@[i]),
    {
        let mut chunked = Self::with_capacity(slice.len());
        let mut i: usize = 0;
        while i < slice.len()
            invariant
                i <= slice@.len() <= max_len(DEFAULT_CHUNK_SIZE as int),
                chunked.wf(),
                chunked@.len() == i,
                forall|j: int| 0 <= j < i ==> cloned(slice@[j], #[trigger] chunked@[j]),
            decreases slice@.len() - i,
        {
            let item = slice[i].clone();
            chunked.push(item);
            i = i + 1;
        }
        chunked
    }
}

} // verus!
