//! The abstract model of the container's operations and the laws that
//! follow from the contracts.

use vstd::prelude::*;
use crate::chunked_vec::ChunkedVec;
use crate::into_iter::IntoIter;
use crate::location::{
    chunk_of, lemma_index_in_chunks, lemma_locate, lemma_max_len, max_len, offset_of,
    slot_index,
};

verus! {

/// What reading position `index` of a container with elements `elements`
/// yields: the element there, or nothing from the length on.
pub open spec fn element_at<T>(elements: Seq<T>, index: int) -> Option<T> {
    if 0 <= index < elements.len() {
        Some(elements[index])
    } else {
        None
    }
}

/// The elements of a container that held `start` after `values` have been
/// pushed onto it one after another.
pub open spec fn pushed_onto<T>(start: Seq<T>, values: Seq<T>) -> Seq<T>
    decreases values.len(),
{
    if values.len() == 0 {
        start
    } else {
        pushed_onto(start.push(values[0]), values.drop_first())
    }
}

/// Pushing values one after another appends them in order.
pub proof fn lemma_pushed_onto<T>(start: Seq<T>, values: Seq<T>)
    ensures
        pushed_onto(start, values) == start + values,
    decreases values.len(),
{
    if values.len() == 0 {
        assert(start + values =~= start);
    } else {
        lemma_pushed_onto(start.push(values[0]), values.drop_first());
        assert(start.push(values[0]) + values.drop_first() =~= start + values);
    }
}

/// After `n` values have been pushed onto an empty container, its length
/// is `n`, reading position `i < n` yields the `i`-th pushed value, and
/// reading position `n` yields nothing.
pub proof fn lemma_push_then_get<T>(values: Seq<T>)
    ensures
        pushed_onto(Seq::<T>::empty(), values).len() == values.len(),
        forall|i: int|
            0 <= i < values.len() ==> #[trigger] element_at(
                pushed_onto(Seq::<T>::empty(), values),
                i,
            ) == Some(values[i]),
        element_at(pushed_onto(Seq::<T>::empty(), values), values.len() as int) == None::<T>,
{
    lemma_pushed_onto(Seq::<T>::empty(), values);
    assert(Seq::<T>::empty() + values =~= values);
}

/// Removing the element at `index` gives back that element's sequence
/// without it: the length drops by one, the elements before `index` stay
/// where they are, and every element after it moves down by one.
pub proof fn lemma_remove_shifts_down<T>(elements: Seq<T>, index: int)
    requires
        0 <= index < elements.len(),
    ensures
        elements.remove(index).len() == elements.len() - 1,
        forall|i: int| 0 <= i < index ==> #[trigger] elements.remove(index)[i] == elements[i],
        forall|i: int|
            index < i < elements.len() ==> elements.remove(index)[i - 1] == #[trigger] elements[i],
{
}

impl<T, const N: usize> ChunkedVec<T, N> {
    /// The length never exceeds the slots of the chunks that exist, and
    /// those slots are a whole number of chunks that can be counted in a
    /// `usize`.
    pub proof fn lemma_len_within_chunks(&self)
        requires
            self.wf(),
        ensures
            self@.len() <= self.chunk_count() * N <= max_len(N as int) <= usize::MAX,
            N > 0 ==> (self.chunk_count() * N) % (N as int) == 0,
            N > 0 ==> max_len(N as int) % (N as int) == 0,
    {
        if N > 0 {
            lemma_max_len(self.chunk_count() as int, N as int);
            vstd::arithmetic::div_mod::lemma_fundamental_div_mod_converse(
                self.chunk_count() * N,
                N as int,
                self.chunk_count() as int,
                0,
            );
        } else {
            assert(self.chunk_count() * N == 0) by (nonlinear_arith)
                requires
                    N == 0,
            ;
        }
    }

    /// A slot is initialized exactly when its logical index is below the
    /// length, and the element at a position is the value in the slot that
    /// the position maps to.
    pub proof fn lemma_slots(&self)
        requires
            self.wf(),
        ensures
            forall|k: int, o: int|
                0 <= k < self.chunk_count() && 0 <= o < N ==> ((#[trigger] self.slot(
                    k,
                    o,
                )).is_some() <==> slot_index(k, o, N as int) < self@.len()),
            forall|i: int|
                0 <= i < self@.len() ==> self.slot(
                    #[trigger] chunk_of(i, N as int),
                    offset_of(i, N as int),
                ) == Some(self@[i]),
            forall|i: int|
                0 <= i < self@.len() ==> 0 <= #[trigger] chunk_of(i, N as int)
                    < self.chunk_count(),
    {
        let n = N as int;
        if N == 0 {
            assert(self.chunk_count() * N == 0) by (nonlinear_arith)
                requires
                    N == 0,
            ;
        }
        assert forall|k: int, o: int| 0 <= k < self.chunk_count() && 0 <= o < N implies ((
        #[trigger] self.slot(k, o)).is_some() <==> slot_index(k, o, n) < self@.len()) by {
            crate::location::lemma_slot_index(k, o, n);
        }
        assert forall|i: int| 0 <= i < self@.len() implies (0 <= #[trigger] chunk_of(i, n)
            < self.chunk_count()) && (self.slot(chunk_of(i, n), offset_of(i, n)) == Some(
            self@[i],
        )) by {
            lemma_locate(i, n);
            lemma_index_in_chunks(i, self.chunk_count() as int, n);
            assert(self.cell(i) == self.slot(chunk_of(i, n), offset_of(i, n)));
            assert(self.slot(chunk_of(i, n), offset_of(i, n)).is_some());
            assert(self@[i] == self.cell(i).unwrap());
        }
    }
}

impl<T, const N: usize> IntoIter<T, N> {
    /// The owning cursor holds exactly as many initialized slots as it has
    /// elements yet to yield: the slots of the elements already yielded are
    /// uninitialized, like those past the end.
    pub proof fn lemma_owned_slots(&self)
        requires
            self.wf(),
        ensures
            self.yielded() + self@.len() == self.total(),
            forall|k: int, o: int|
                0 <= k < self.chunk_count() && 0 <= o < N ==> ((#[trigger] self.slot(
                    k,
                    o,
                )).is_some() <==> self.yielded() <= slot_index(k, o, N as int) < self.total()),
    {
        assert forall|k: int, o: int| 0 <= k < self.chunk_count() && 0 <= o < N implies ((
        #[trigger] self.slot(k, o)).is_some() <==> self.yielded() <= slot_index(k, o, N as int)
            < self.total()) by {
            assert(self.slot(k, o) == self.vec.slot(k, o));
        }
    }
}

} // verus!
