//! Mutation of the container and queries on its size.

use vstd::prelude::*;
use crate::chunked_vec::ChunkedVec;
use crate::location::{
    chunk_of, chunks_for, chunks_needed, lemma_chunks_needed, lemma_chunks_needed_least,
    lemma_index_in_chunks, lemma_locate, lemma_max_len, lemma_slot_index,
    lemma_slot_index_next, lemma_slot_index_order, locate, max_len, offset_of, slot_capacity,
    slot_index, slots_for,
};

verus! {

/// The cell that logical index `index` holds once the element at `removed`
/// has left a chunk list `cells` and every later element has moved down by
/// one.
spec fn cell_after_removal<T>(
    cells: Seq<Vec<Option<T>>>,
    chunk_size: int,
    removed: int,
    index: int,
) -> Option<T> {
    if index < removed {
        cells[chunk_of(index, chunk_size)]@[offset_of(index, chunk_size)]
    } else {
        cells[chunk_of(index + 1, chunk_size)]@[offset_of(index + 1, chunk_size)]
    }
}

/// Number of chunks that the chunk list has room for before it must be
/// reallocated.
///
/// Calls `Vec::capacity`. The claim is the one that the standard library
/// documents for every vector: the capacity is never below the length.
#[verifier::external_body]
fn reserved_chunks<T>(chunks: &Vec<Vec<Option<T>>>) -> (reserved: usize)
    ensures
        reserved >= chunks@.len(),
{
    chunks.capacity()
}

impl<T, const N: usize> ChunkedVec<T, N> {
    /// Appends `value` at the end. A new chunk is allocated only when every
    /// slot of the chunks that exist is taken; no stored element moves.
    pub fn push(&mut self, value: T)
        requires
            old(self).wf(),
            old(self)@.len() < max_len(N as int),
        ensures
            final(self).wf(),
            final(self)@ == old(self)@.push(value),
            forall|k: int, o: int|
                0 <= k < old(self).chunk_count() && 0 <= o < N && slot_index(k, o, N as int)
                    != old(self)@.len() ==> #[trigger] final(self).slot(k, o) == old(self).slot(
                    k,
                    o,
                ),
            final(self).chunk_count() == (if old(self)@.len() < old(self).chunk_count() * N {
                old(self).chunk_count()
            } else {
                old(self).chunk_count() + 1
            }),
    {
        let ghost n = N as int;
        let ghost chunks = self.data@.len() as int;
        let (chunk_idx, offset) = locate(self.len, N);
        proof {
            lemma_index_in_chunks(self.len as int, chunks, n);
            lemma_max_len(chunks + 1, n);
            lemma_max_len(chunks, n);
        }
        if chunk_idx >= self.data.len() {
            proof {
                assert((chunks + 1) * n == chunks * n + n) by (nonlinear_arith);
                lemma_slot_index(chunks, 0, n);
            }
            let chunk = Self::create_new_chunk(value);
            self.data.push(chunk);
            self.len = self.len + 1;
            proof {
                assert forall|k: int, o: int|
                    0 <= k < self.data@.len() && 0 <= o < N implies ((#[trigger] self.slot(
                    k,
                    o,
                )).is_some() <==> 0 <= slot_index(k, o, n) < self.len) by {
                    lemma_slot_index(k, o, n);
                    if k < chunks {
                        assert(self.slot(k, o) == old(self).slot(k, o));
                        lemma_slot_index_order(k, o, chunks, 0, n);
                    }
                }
                assert forall|j: int| 0 <= j < old(self).len implies #[trigger] self.cell(j)
                    == old(self).cell(j) by {
                    lemma_locate(j, n);
                    lemma_index_in_chunks(j, chunks, n);
                }
            }
        } else {
            let _ = self.replace_cell(self.len, Some(value));
            let ghost written = *self;
            self.len = self.len + 1;
            proof {
                assert forall|k: int, o: int|
                    0 <= k < self.data@.len() && 0 <= o < N implies ((#[trigger] self.slot(
                    k,
                    o,
                )).is_some() <==> 0 <= slot_index(k, o, n) < self.len) by {
                    lemma_slot_index(k, o, n);
                    assert(self.slot(k, o) == written.slot(k, o));
                    if slot_index(k, o, n) != old(self).len {
                        assert(written.slot(k, o) == old(self).slot(k, o));
                    }
                }
                assert forall|j: int| 0 <= j < old(self).len implies #[trigger] self.cell(j)
                    == old(self).cell(j) by {
                    assert(written.cell(j) == old(self).cell(j));
                }
                assert forall|k: int, o: int|
                    0 <= k < chunks && 0 <= o < N && slot_index(k, o, n) != old(
                        self,
                    ).len implies #[trigger] self.slot(k, o) == old(self).slot(k, o) by {
                    assert(self.slot(k, o) == written.slot(k, o));
                }
                assert(self.cell(old(self).len as int) == written.cell(old(self).len as int));
            }
        }
        assert(self@ =~= old(self)@.push(value));
    }

    /// Sets the length to `new_len`.
    ///
    /// When the container grows, chunks are allocated as needed and every
    /// new position receives a clone of `value`. When it shrinks, the
    /// elements from `new_len` on are destructed and the chunks left
    /// without an element are released.
    pub fn resize(&mut self, new_len: usize, value: T) where T: Clone
        requires
            old(self).wf(),
            new_len <= old(self)@.len() || new_len <= max_len(N as int),
        ensures
            final(self).wf(),
            final(self)@.len() == new_len,
            forall|i: int|
                0 <= i < new_len && i < old(self)@.len() ==> #[trigger] final(self)@[i] == old(
                    self,
                )@[i],
            forall|i: int|
                old(self)@.len() <= i < new_len ==> cloned(value, #[trigger] final(self)@[i]),
            final(self).chunk_count() == (if new_len > old(self)@.len() {
                if old(self).chunk_count() >= chunks_needed(new_len as int, N as int) {
                    old(self).chunk_count() as int
                } else {
                    chunks_needed(new_len as int, N as int)
                }
            } else if new_len < old(self)@.len() {
                chunks_needed(new_len as int, N as int)
            } else {
                old(self).chunk_count() as int
            }),
    {
        let ghost n = N as int;
        let old_len = self.len;
        proof {
            if N == 0 {
                assert(self.data@.len() * N == 0) by (nonlinear_arith)
                    requires
                        N == 0,
                ;
            }
        }
        if new_len > old_len {
            let required = chunks_for(new_len, N);
            proof {
                lemma_chunks_needed(new_len as int, n);
                lemma_max_len(required as int, n);
                lemma_chunks_needed_least(new_len as int, usize::MAX as int / n, n);
                vstd::arithmetic::div_mod::lemma_div_pos_is_pos(usize::MAX as int, n);
            }
            while self.data.len() < required
                invariant
                    n == N,
                    N > 0,
                    self.wf(),
                    self.len == old_len,
                    self@ == old(self)@,
                    required * N <= usize::MAX,
                    self.data@.len() >= old(self).data@.len(),
                    self.data@.len() > old(self).data@.len() ==> self.data@.len() <= required,
                decreases required - self.data@.len(),
            {
                let ghost before = *self;
                let chunk = Self::create_empty_chunk();
                self.data.push(chunk);
                proof {
                    let chunks = before.data@.len() as int;
                    assert((chunks + 1) * n <= required * n) by (nonlinear_arith)
                        requires
                            chunks + 1 <= required,
                            0 < n,
                    ;
                    assert((chunks + 1) * n == chunks * n + n) by (nonlinear_arith);
                    assert forall|k: int, o: int|
                        0 <= k < self.data@.len() && 0 <= o < N implies ((#[trigger] self.slot(
                        k,
                        o,
                    )).is_some() <==> 0 <= slot_index(k, o, n) < self.len) by {
                        lemma_slot_index(k, o, n);
                        if k < chunks {
                            assert(self.slot(k, o) == before.slot(k, o));
                        } else {
                            lemma_slot_index(chunks, 0, n);
                            if o > 0 {
                                assert(slot_index(k, o, n) >= slot_index(k, 0, n));
                            }
                        }
                    }
                    assert forall|j: int| 0 <= j < old_len implies #[trigger] self.cell(j)
                        == before.cell(j) by {
                        lemma_locate(j, n);
                        lemma_index_in_chunks(j, chunks, n);
                    }
                    assert(self@ =~= before@);
                }
            }
            proof {
                lemma_chunks_needed_least(new_len as int, self.data@.len() as int, n);
            }
            let mut i: usize = old_len;
            while i < new_len
                invariant
                    n == N,
                    N > 0,
                    self.wf(),
                    old_len <= i <= new_len,
                    self.len == i,
                    new_len <= self.data@.len() * N,
                    self.data@.len() == (if old(self).data@.len() >= required {
                        old(self).data@.len()
                    } else {
                        required as nat
                    }),
                    old_len == old(self)@.len(),
                    forall|j: int| 0 <= j < old_len ==> #[trigger] self@[j] == old(self)@[j],
                    forall|j: int| old_len <= j < i ==> cloned(value, #[trigger] self@[j]),
                decreases new_len - i,
            {
                let ghost before = *self;
                let fill = value.clone();
                let _ = self.replace_cell(i, Some(fill));
                let ghost written = *self;
                self.len = i + 1;
                proof {
                    assert forall|k: int, o: int|
                        0 <= k < self.data@.len() && 0 <= o < N implies ((#[trigger] self.slot(
                        k,
                        o,
                    )).is_some() <==> 0 <= slot_index(k, o, n) < self.len) by {
                        lemma_slot_index(k, o, n);
                        assert(self.slot(k, o) == written.slot(k, o));
                        if slot_index(k, o, n) != i {
                            assert(written.slot(k, o) == before.slot(k, o));
                        }
                    }
                    assert forall|j: int| 0 <= j < i implies #[trigger] self@[j] == before@[j] by {
                        assert(written.cell(j) == before.cell(j));
                        assert(self.cell(j) == written.cell(j));
                    }
                    assert(self.cell(i as int) == written.cell(i as int));
                    assert(self@[i as int] == fill);
                }
                i = i + 1;
            }
        } else if new_len < old_len {
            let mut i: usize = new_len;
            while i < old_len
                invariant
                    n == N,
                    N > 0,
                    self.shaped(),
                    new_len <= i <= old_len,
                    self.len == old_len,
                    old_len <= self.data@.len() * N,
                    self.data@.len() == old(self).data@.len(),
                    forall|k: int, o: int|
                        0 <= k < self.data@.len() && 0 <= o < N ==> ((#[trigger] self.slot(
                            k,
                            o,
                        )).is_some() <==> (0 <= slot_index(k, o, n) < new_len || i <= slot_index(
                            k,
                            o,
                            n,
                        ) < old_len)),
                    forall|j: int| 0 <= j < new_len ==> #[trigger] self.cell(j) == old(self).cell(j),
                decreases old_len - i,
            {
                let ghost before = *self;
                let _ = self.replace_cell(i, None);
                proof {
                    assert forall|k: int, o: int|
                        0 <= k < self.data@.len() && 0 <= o < N implies ((#[trigger] self.slot(
                        k,
                        o,
                    )).is_some() <==> (0 <= slot_index(k, o, n) < new_len || i + 1 <= slot_index(
                        k,
                        o,
                        n,
                    ) < old_len)) by {
                        lemma_slot_index(k, o, n);
                        if slot_index(k, o, n) != i {
                            assert(self.slot(k, o) == before.slot(k, o));
                        }
                    }
                    assert forall|j: int| 0 <= j < new_len implies #[trigger] self.cell(j) == old(
                        self,
                    ).cell(j) by {
                        assert(self.cell(j) == before.cell(j));
                    }
                }
                i = i + 1;
            }
            let required = chunks_for(new_len, N);
            proof {
                lemma_chunks_needed(new_len as int, n);
                lemma_chunks_needed_least(new_len as int, self.data@.len() as int, n);
                assert(required * N <= self.data@.len() * N) by (nonlinear_arith)
                    requires
                        required <= self.data@.len(),
                        N > 0,
                ;
            }
            let ghost cleared = *self;
            self.data.truncate(required);
            self.len = new_len;
            proof {
                assert forall|k: int, o: int|
                    0 <= k < self.data@.len() && 0 <= o < N implies ((#[trigger] self.slot(
                    k,
                    o,
                )).is_some() <==> 0 <= slot_index(k, o, n) < self.len) by {
                    lemma_slot_index(k, o, n);
                    assert(self.slot(k, o) == cleared.slot(k, o));
                }
                assert forall|j: int| 0 <= j < new_len implies #[trigger] self@[j] == old(self)@[j] by {
                    lemma_locate(j, n);
                    lemma_index_in_chunks(j, required as int, n);
                    assert(self.cell(j) == cleared.cell(j));
                }
            }
        }
    }

    /// Removes the element at `index` and returns it. Every later element
    /// moves down by one position, across chunk boundaries where needed,
    /// and chunks left without an element are released.
    pub fn remove(&mut self, index: usize) -> (removed: T)
        requires
            old(self).wf(),
            index < old(self)@.len(),
        ensures
            final(self).wf(),
            removed == old(self)@[index as int],
            final(self)@ == old(self)@.remove(index as int),
            final(self)@.len() == old(self)@.len() - 1,
            forall|i: int| 0 <= i < index ==> #[trigger] final(self)@[i] == old(self)@[i],
            forall|i: int|
                index < i < old(self)@.len() ==> final(self)@[i - 1] == #[trigger] old(self)@[i],
            final(self).chunk_count() == chunks_needed(final(self)@.len() as int, N as int),
    {
        let ghost prev = self.data@;
        let ghost n = N as int;
        let ghost idx = index as int;
        proof {
            if N == 0 {
                assert(self.data@.len() * N == 0) by (nonlinear_arith)
                    requires
                        N == 0,
                ;
            }
        }
        let (first_chunk, offset) = locate(index, N);
        let (last_chunk, _) = locate(self.len - 1, N);
        proof {
            lemma_chunks_needed(self.len as int, n);
            lemma_chunks_needed_least(self.len as int, prev.len() as int, n);
            lemma_locate(idx, n);
            lemma_locate(self.len - 1, n);
            vstd::arithmetic::div_mod::lemma_div_is_ordered(idx, self.len - 1, n);
        }
        let cell = self.data[first_chunk].remove(offset);
        proof {
            assert forall|k: int, o: int|
                0 <= k <= first_chunk && 0 <= o < self.data@[k]@.len() implies #[trigger] self.data@[k]@[o]
                == cell_after_removal(prev, n, idx, slot_index(k, o, n)) by {
                lemma_slot_index(k, o, n);
                if k < first_chunk {
                    lemma_slot_index_order(k, o, first_chunk as int, offset as int, n);
                } else {
                    lemma_slot_index_next(k, o, n);
                    lemma_slot_index(k, o + 1, n);
                }
            }
        }
        let mut i: usize = first_chunk;
        while i < last_chunk
            invariant
                n == N,
                N > 0,
                idx == index,
                idx == slot_index(first_chunk as int, offset as int, n),
                0 <= offset < N,
                first_chunk <= i <= last_chunk < prev.len(),
                self.data@.len() == prev.len(),
                self.len == old(self).len,
                forall|k: int| 0 <= k < prev.len() ==> (#[trigger] prev[k])@.len() == N,
                forall|k: int|
                    0 <= k < prev.len() && k != i ==> (#[trigger] self.data@[k])@.len() == N,
                self.data@[i as int]@.len() == N - 1,
                forall|k: int, o: int|
                    0 <= k <= i && 0 <= o < self.data@[k]@.len() ==> #[trigger] self.data@[k]@[o]
                        == cell_after_removal(prev, n, idx, slot_index(k, o, n)),
                forall|k: int| i < k < prev.len() ==> (#[trigger] self.data@[k])@ == prev[k]@,
            decreases last_chunk - i,
        {
            let ghost before = self.data@;
            let pulled = self.data[i + 1].remove(0);
            self.data[i].push(pulled);
            proof {
                let next = i as int + 1;
                assert forall|k: int, o: int|
                    0 <= k <= next && 0 <= o < self.data@[k]@.len() implies #[trigger] self.data@[k]@[o]
                    == cell_after_removal(prev, n, idx, slot_index(k, o, n)) by {
                    if k < i {
                        assert(self.data@[k]@[o] == before[k]@[o]);
                    } else if k == i {
                        if o < N - 1 {
                            assert(self.data@[k]@[o] == before[k]@[o]);
                        } else {
                            lemma_slot_index_next(k, o, n);
                            lemma_slot_index(next, 0, n);
                            if first_chunk < i {
                                lemma_slot_index_order(
                                    first_chunk as int,
                                    offset as int,
                                    k,
                                    o,
                                    n,
                                );
                            }
                        }
                    } else {
                        lemma_slot_index_order(first_chunk as int, offset as int, k, o, n);
                        lemma_slot_index_next(k, o, n);
                        lemma_slot_index(k, o + 1, n);
                    }
                }
            }
            i = i + 1;
        }
        self.data[last_chunk].push(None);
        let ghost shifted = self.data@;
        self.len = self.len - 1;
        let required = chunks_for(self.len, N);
        proof {
            lemma_chunks_needed(self.len as int, n);
            lemma_chunks_needed_least(self.len as int, last_chunk as int + 1, n);
        }
        self.data.truncate(required);
        proof {
            let new_len = self.len as int;
            assert(required * N <= prev.len() * N) by (nonlinear_arith)
                requires
                    required <= prev.len(),
                    N > 0,
            ;
            assert forall|k: int, o: int| 0 <= k < required && 0 <= o < N implies (
            #[trigger] self.slot(k, o)).is_some() <==> slot_index(k, o, n) < new_len by {
                lemma_slot_index(k, o, n);
                lemma_slot_index_next(k, o, n);
                assert(self.slot(k, o) == shifted[k]@[o]);
                if k == last_chunk && o == N - 1 {
                } else if k <= last_chunk {
                    assert(shifted[k]@[o] == cell_after_removal(
                        prev,
                        n,
                        idx,
                        slot_index(k, o, n),
                    ));
                    if slot_index(k, o, n) < idx {
                        assert(old(self).slot(k, o) == prev[k]@[o]);
                    } else if o + 1 < N {
                        lemma_slot_index(k, o + 1, n);
                        assert(old(self).slot(k, o + 1) == prev[k]@[o + 1]);
                    } else {
                        lemma_slot_index(k + 1, 0, n);
                        assert(old(self).slot(k + 1, 0) == prev[k + 1]@[0]);
                    }
                } else {
                    assert(shifted[k]@ == prev[k]@);
                    assert(old(self).slot(k, o) == prev[k]@[o]);
                    lemma_slot_index_order(last_chunk as int, offset_of(new_len, n), k, o, n);
                }
            }
            assert(self.wf());
            assert forall|j: int| 0 <= j < new_len implies #[trigger] self@[j] == old(self)@.remove(
                idx,
            )[j] by {
                lemma_locate(j, n);
                let k = chunk_of(j, n);
                let o = offset_of(j, n);
                lemma_chunks_needed_least(j + 1, k, n);
                lemma_chunks_needed_least(j + 1, required as int, n);
                assert(self.cell(j) == shifted[k]@[o]);
                assert(shifted[k]@[o] == cell_after_removal(prev, n, idx, slot_index(k, o, n)));
                if j < idx {
                    assert(old(self)@[j] == old(self).cell(j).unwrap());
                } else {
                    assert(old(self)@[j + 1] == old(self).cell(j + 1).unwrap());
                }
            }
            assert(self@ =~= old(self)@.remove(idx));
            assert(cell == old(self).cell(idx));
            assert(old(self).slot(first_chunk as int, offset as int).is_some());
        }
        match cell {
            Some(value) => value,
            None => vstd::pervasive::unreached(),
        }
    }

    /// Number of stored elements.
    #[inline]
    #[must_use]
    pub fn len(&self) -> (len: usize)
        ensures
            len == self@.len(),
    {
        self.len
    }

    /// Whether no element is stored.
    #[inline]
    #[must_use]
    pub fn is_empty(&self) -> (empty: bool)
        ensures
            empty <==> self@.len() == 0,
    {
        self.len == 0
    }

    /// Number of slots that the chunk list has room for without being
    /// reallocated: the slots of the chunks that exist and of those that
    /// the list has reserved room for. The result is a whole number of
    /// chunks and is capped at the largest such number that fits in a
    /// `usize`.
    ///
    /// How many chunks the list has reserved room for is decided by the
    /// allocator; it is at least the number of chunks that exist.
    #[inline]
    #[must_use]
    pub fn capacity(&self) -> (capacity: usize)
        requires
            self.wf(),
        ensures
            exists|reserved: int|
                reserved >= self.chunk_count() && capacity == #[trigger] slot_capacity(
                    reserved,
                    N as int,
                ),
            capacity >= self.chunk_count() * N,
            capacity >= self@.len(),
            N > 0 ==> capacity % N == 0,
    {
        let reserved = reserved_chunks(&self.data);
        let capacity = slots_for(reserved, N);
        proof {
            let n = N as int;
            let chunks = self.data@.len() as int;
            if N > 0 {
                lemma_max_len(chunks, n);
                assert(chunks * n <= reserved * n) by (nonlinear_arith)
                    requires
                        chunks <= reserved,
                        0 < n,
                ;
            } else {
                assert(chunks * n == 0) by (nonlinear_arith)
                    requires
                        n == 0,
                ;
            }
        }
        capacity
    }

    /// Number of slots in the chunks that currently exist.
    #[inline]
    #[must_use]
    pub fn allocated_capacity(&self) -> (capacity: usize)
        requires
            self.wf(),
        ensures
            capacity == self.chunk_count() * N,
            capacity >= self@.len(),
    {
        self.data.len() * N
    }
}

} // verus!
