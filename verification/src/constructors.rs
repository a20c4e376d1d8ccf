//! Construction of empty and pre-sized containers.

use vstd::prelude::*;
use crate::chunked_vec::{ChunkedVec, ChunkedVecSized};
use crate::location::{
    chunks_for, chunks_needed, lemma_chunks_needed, lemma_chunks_needed_least, lemma_max_len,
    lemma_slot_index, max_len,
};
use crate::DEFAULT_CHUNK_SIZE;

verus! {

impl<T, const N: usize> ChunkedVecSized<T, N> {
    /// Creates an empty container with chunks of `N` slots. No chunk is
    /// allocated.
    #[inline]
    #[must_use]
    pub fn new() -> (vec: ChunkedVec<T, N>)
        ensures
            vec.wf(),
            vec@ == Seq::<T>::empty(),
            vec.chunk_count() == 0,
    {
        let vec = ChunkedVec { data: Vec::new(), len: 0 };
        proof {
            assert(vec.data@.len() * N == 0) by (nonlinear_arith)
                requires
                    vec.data@.len() == 0,
            ;
            assert(vec@ =~= Seq::<T>::empty());
        }
        vec
    }

    /// Creates an empty container that has room for `capacity` elements:
    /// `capacity / N` chunks, rounded up, are allocated with every slot
    /// uninitialized.
    #[inline]
    #[must_use]
    pub fn with_capacity(capacity: usize) -> (vec: ChunkedVec<T, N>)
        requires
            N > 0,
            capacity <= max_len(N as int),
        ensures
            vec.wf(),
            vec@ == Seq::<T>::empty(),
            vec.chunk_count() == chunks_needed(capacity as int, N as int),
    {
        let chunk_count = chunks_for(capacity, N);
        proof {
            let n = N as int;
            lemma_chunks_needed(capacity as int, n);
            lemma_max_len(chunk_count as int, n);
            lemma_chunks_needed_least(capacity as int, usize::MAX as int / n, n);
            vstd::arithmetic::div_mod::lemma_div_pos_is_pos(usize::MAX as int, n);
        }
        Self::with_chunk_count(chunk_count)
    }

    /// Creates an empty container with exactly `chunk_count` chunks
    /// allocated, every slot uninitialized.
    #[inline]
    #[must_use]
    pub fn with_chunk_count(chunk_count: usize) -> (vec: ChunkedVec<T, N>)
        requires
            chunk_count * N <= usize::MAX,
        ensures
            vec.wf(),
            vec@ == Seq::<T>::empty(),
            vec.chunk_count() == chunk_count,
    {
        let mut data: Vec<Vec<Option<T>>> = Vec::with_capacity(chunk_count);
        while data.len() < chunk_count
            invariant
                data@.len() <= chunk_count,
                forall|k: int| 0 <= k < data@.len() ==> (#[trigger] data@[k])@.len() == N,
                forall|k: int, o: int|
                    0 <= k < data@.len() && 0 <= o < N ==> (#[trigger] data@[k]@[o]).is_none(),
            decreases chunk_count - data@.len(),
        {
            let chunk = ChunkedVec::<T, N>::create_empty_chunk();
            data.push(chunk);
        }
        let vec = ChunkedVec { data, len: 0 };
        proof {
            assert(0 <= vec.data@.len() * N) by (nonlinear_arith);
            assert forall|k: int, o: int|
                0 <= k < vec.data@.len() && 0 <= o < N implies ((#[trigger] vec.slot(
                k,
                o,
            )).is_some() <==> 0 <= crate::location::slot_index(k, o, N as int) < vec.len) by {
                lemma_slot_index(k, o, N as int);
            }
            assert(vec@ =~= Seq::<T>::empty());
        }
        vec
    }
}

impl<T> ChunkedVec<T, DEFAULT_CHUNK_SIZE> {
    /// Creates an empty container with the default chunk size.
    #[inline]
    #[must_use]
    pub fn new() -> (vec: Self)
        ensures
            vec.wf(),
            vec@ == Seq::<T>::empty(),
            vec.chunk_count() == 0,
    {
        ChunkedVecSized::new()
    }

    /// Creates an empty container with the default chunk size and room for
    /// `capacity` elements.
    #[inline]
    #[must_use]
    pub fn with_capacity(capacity: usize) -> (vec: Self)
        requires
            capacity <= max_len(DEFAULT_CHUNK_SIZE as int),
        ensures
            vec.wf(),
            vec@ == Seq::<T>::empty(),
            vec.chunk_count() == chunks_needed(capacity as int, DEFAULT_CHUNK_SIZE as int),
    {
        ChunkedVecSized::with_capacity(capacity)
    }

    /// Creates an empty container with the default chunk size and exactly
    /// `chunk_count` chunks allocated.
    #[inline]
    #[must_use]
    pub fn with_chunk_count(chunk_count: usize) -> (vec: Self)
        requires
            chunk_count * DEFAULT_CHUNK_SIZE <= usize::MAX,
        ensures
            vec.wf(),
            vec@ == Seq::<T>::empty(),
            vec.chunk_count() == chunk_count,
    {
        ChunkedVecSized::with_chunk_count(chunk_count)
    }
}

impl<T, const N: usize> ChunkedVec<T, N> {
    /// Creates an empty container with chunks of `N` slots.
    #[inline]
    #[must_use]
    pub fn with_chunk_size() -> (vec: Self)
        ensures
            vec.wf(),
            vec@ == Seq::<T>::empty(),
            vec.chunk_count() == 0,
    {
        ChunkedVecSized::new()
    }

    /// Creates an empty container with chunks of `N` slots and room for
    /// `capacity` elements.
    #[inline]
    #[must_use]
    pub fn with_chunk_size_and_capacity(capacity: usize) -> (vec: Self)
        requires
            N > 0,
            capacity <= max_len(N as int),
        ensures
            vec.wf(),
            vec@ == Seq::<T>::empty(),
            vec.chunk_count() == chunks_needed(capacity as int, N as int),
    {
        ChunkedVecSized::with_capacity(capacity)
    }

    /// Creates an empty container with chunks of `N` slots and exactly
    /// `chunk_count` chunks allocated.
    #[inline]
    #[must_use]
    pub fn with_chunk_size_and_count(chunk_count: usize) -> (vec: Self)
        requires
            chunk_count * N <= usize::MAX,
        ensures
            vec.wf(),
            vec@ == Seq::<T>::empty(),
            vec.chunk_count() == chunk_count,
    {
        ChunkedVecSized::with_chunk_count(chunk_count)
    }
}

} // verus!
