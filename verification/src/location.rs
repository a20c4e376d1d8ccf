//! Mapping of a logical index to a chunk index and an offset inside
//! that chunk, and the chunk-count arithmetic built on it.

use vstd::prelude::*;
use vstd::arithmetic::div_mod::{
    lemma_div_pos_is_pos, lemma_fundamental_div_mod, lemma_fundamental_div_mod_converse,
    lemma_mod_bound,
};
use vstd::arithmetic::mul::lemma_mul_is_commutative;

verus! {

/// Index of the chunk that holds logical index `index`.
pub open spec fn chunk_of(index: int, chunk_size: int) -> int {
    index / chunk_size
}

/// Offset of logical index `index` inside its chunk.
pub open spec fn offset_of(index: int, chunk_size: int) -> int {
    index % chunk_size
}

/// Logical index of the slot at `offset` in chunk `chunk`.
pub open spec fn slot_index(chunk: int, offset: int, chunk_size: int) -> int {
    chunk * chunk_size + offset
}

/// Number of chunks needed to hold `len` elements: `len / chunk_size`,
/// rounded up.
pub open spec fn chunks_needed(len: int, chunk_size: int) -> int {
    (len + chunk_size - 1) / chunk_size
}

/// The largest number of slots that whole chunks of `chunk_size` slots can
/// provide while the slot count still fits in a `usize`.
pub open spec fn max_len(chunk_size: int) -> int {
    if chunk_size > 0 {
        (usize::MAX as int / chunk_size) * chunk_size
    } else {
        0
    }
}

/// Number of slots in `chunks` chunks, capped at `max_len`.
pub open spec fn slot_capacity(chunks: int, chunk_size: int) -> int {
    if chunks * chunk_size <= max_len(chunk_size) {
        chunks * chunk_size
    } else {
        max_len(chunk_size)
    }
}

/// A location determines its index: `chunk * size + offset` is the index,
/// and the offset lies inside the chunk.
pub proof fn lemma_locate(index: int, chunk_size: int)
    requires
        0 <= index,
        0 < chunk_size,
    ensures
        slot_index(chunk_of(index, chunk_size), offset_of(index, chunk_size), chunk_size)
            == index,
        0 <= offset_of(index, chunk_size) < chunk_size,
        0 <= chunk_of(index, chunk_size) <= index,
{
    lemma_fundamental_div_mod(index, chunk_size);
    lemma_mod_bound(index, chunk_size);
    lemma_div_pos_is_pos(index, chunk_size);
    lemma_mul_is_commutative(chunk_size, index / chunk_size);
    assert(index / chunk_size <= index) by (nonlinear_arith)
        requires
            0 <= index,
            0 < chunk_size,
    ;
}

/// An index determines its location: the slot at `offset` of chunk `chunk`
/// is found again by dividing its index by the chunk size.
pub proof fn lemma_slot_index(chunk: int, offset: int, chunk_size: int)
    requires
        0 <= chunk,
        0 <= offset < chunk_size,
    ensures
        chunk_of(slot_index(chunk, offset, chunk_size), chunk_size) == chunk,
        offset_of(slot_index(chunk, offset, chunk_size), chunk_size) == offset,
        0 <= slot_index(chunk, offset, chunk_size),
{
    lemma_fundamental_div_mod_converse(
        slot_index(chunk, offset, chunk_size),
        chunk_size,
        chunk,
        offset,
    );
    assert(0 <= chunk * chunk_size) by (nonlinear_arith)
        requires
            0 <= chunk,
            0 < chunk_size,
    ;
}

/// The slot after `(chunk, offset)` is the next one in the same chunk, or
/// the first one of the next chunk.
pub proof fn lemma_slot_index_next(chunk: int, offset: int, chunk_size: int)
    requires
        0 <= offset < chunk_size,
    ensures
        slot_index(chunk, offset, chunk_size) + 1 == (if offset + 1 < chunk_size {
            slot_index(chunk, offset + 1, chunk_size)
        } else {
            slot_index(chunk + 1, 0, chunk_size)
        }),
{
    assert((chunk + 1) * chunk_size == chunk * chunk_size + chunk_size) by (nonlinear_arith);
}

/// Slots are ordered chunk by chunk: every slot of an earlier chunk comes
/// before every slot of a later one.
pub proof fn lemma_slot_index_order(
    chunk_a: int,
    offset_a: int,
    chunk_b: int,
    offset_b: int,
    chunk_size: int,
)
    requires
        0 <= offset_a < chunk_size,
        0 <= offset_b < chunk_size,
        chunk_a < chunk_b,
    ensures
        slot_index(chunk_a, offset_a, chunk_size) < slot_index(chunk_b, offset_b, chunk_size),
{
    assert(chunk_a * chunk_size + chunk_size <= chunk_b * chunk_size) by (nonlinear_arith)
        requires
            chunk_a + 1 <= chunk_b,
            0 < chunk_size,
    ;
}

/// `chunks_needed` is the least chunk count whose slots hold `len` elements.
pub proof fn lemma_chunks_needed(len: int, chunk_size: int)
    requires
        0 <= len,
        0 < chunk_size,
    ensures
        0 <= chunks_needed(len, chunk_size),
        len <= chunks_needed(len, chunk_size) * chunk_size < len + chunk_size,
        len > 0 ==> chunks_needed(len, chunk_size) == chunk_of(len - 1, chunk_size) + 1,
        len == 0 ==> chunks_needed(len, chunk_size) == 0,
{
    let x = len + chunk_size - 1;
    lemma_fundamental_div_mod(x, chunk_size);
    lemma_mod_bound(x, chunk_size);
    lemma_div_pos_is_pos(x, chunk_size);
    lemma_mul_is_commutative(chunk_size, x / chunk_size);
    if len > 0 {
        lemma_locate(len - 1, chunk_size);
        let q = chunk_of(len - 1, chunk_size);
        let r = offset_of(len - 1, chunk_size);
        assert(x == (q + 1) * chunk_size + r) by (nonlinear_arith)
            requires
                x == len + chunk_size - 1,
                q * chunk_size + r == len - 1,
        ;
        lemma_fundamental_div_mod_converse(x, chunk_size, q + 1, r);
    } else {
        lemma_fundamental_div_mod_converse(x, chunk_size, 0, chunk_size - 1);
    }
}

/// A chunk count provides room for `len` elements exactly when it is at
/// least `chunks_needed`.
pub proof fn lemma_chunks_needed_least(len: int, chunks: int, chunk_size: int)
    requires
        0 <= len,
        0 <= chunks,
        0 < chunk_size,
    ensures
        len <= chunks * chunk_size <==> chunks_needed(len, chunk_size) <= chunks,
{
    lemma_chunks_needed(len, chunk_size);
    let need = chunks_needed(len, chunk_size);
    if need <= chunks {
        assert(need * chunk_size <= chunks * chunk_size) by (nonlinear_arith)
            requires
                need <= chunks,
                0 < chunk_size,
        ;
    } else {
        assert(chunks * chunk_size + chunk_size <= need * chunk_size) by (nonlinear_arith)
            requires
                chunks + 1 <= need,
                0 < chunk_size,
        ;
    }
}

/// An index lies in the first `chunks` chunks exactly when it is below
/// their slot count.
pub proof fn lemma_index_in_chunks(index: int, chunks: int, chunk_size: int)
    requires
        0 <= index,
        0 <= chunks,
        0 < chunk_size,
    ensures
        index < chunks * chunk_size <==> chunk_of(index, chunk_size) < chunks,
{
    lemma_chunks_needed(index + 1, chunk_size);
    lemma_chunks_needed_least(index + 1, chunks, chunk_size);
}

/// `max_len` is a whole number of chunks, and a chunk count fits below
/// `usize::MAX` slots exactly when it fits below `max_len` slots.
pub proof fn lemma_max_len(chunks: int, chunk_size: int)
    requires
        0 <= chunks,
        0 < chunk_size,
    ensures
        0 <= max_len(chunk_size) <= usize::MAX,
        max_len(chunk_size) % chunk_size == 0,
        chunks * chunk_size <= usize::MAX <==> chunks * chunk_size <= max_len(chunk_size),
        chunks * chunk_size <= usize::MAX <==> chunks <= usize::MAX as int / chunk_size,
{
    let m = usize::MAX as int;
    let q = m / chunk_size;
    lemma_fundamental_div_mod(m, chunk_size);
    lemma_mod_bound(m, chunk_size);
    lemma_div_pos_is_pos(m, chunk_size);
    lemma_mul_is_commutative(chunk_size, q);
    lemma_fundamental_div_mod_converse(q * chunk_size, chunk_size, q, 0);
    if chunks <= q {
        assert(chunks * chunk_size <= q * chunk_size) by (nonlinear_arith)
            requires
                chunks <= q,
                0 < chunk_size,
        ;
    } else {
        assert(q * chunk_size + chunk_size <= chunks * chunk_size) by (nonlinear_arith)
            requires
                q + 1 <= chunks,
                0 < chunk_size,
        ;
    }
}

/// Maps a logical index to `(chunk index, offset within the chunk)`.
///
/// The mapping is pure and does no bounds check against any length.
pub fn locate(index: usize, chunk_size: usize) -> (location: (usize, usize))
    requires
        chunk_size > 0,
    ensures
        location.0 == chunk_of(index as int, chunk_size as int),
        location.1 == offset_of(index as int, chunk_size as int),
        slot_index(location.0 as int, location.1 as int, chunk_size as int) == index,
        location.1 < chunk_size,
{
    proof {
        lemma_locate(index as int, chunk_size as int);
    }
    (index / chunk_size, index % chunk_size)
}

/// Number of chunks of `chunk_size` slots needed to hold `len` elements.
pub fn chunks_for(len: usize, chunk_size: usize) -> (chunks: usize)
    requires
        chunk_size > 0,
    ensures
        chunks == chunks_needed(len as int, chunk_size as int),
{
    proof {
        lemma_chunks_needed(len as int, chunk_size as int);
        if len > 0 {
            lemma_locate(len as int, chunk_size as int);
            lemma_locate(len - 1, chunk_size as int);
            let q = chunk_of(len - 1, chunk_size as int);
            let r = offset_of(len - 1, chunk_size as int);
            lemma_slot_index_next(q, r, chunk_size as int);
            if r + 1 < chunk_size {
                lemma_slot_index(q, r + 1, chunk_size as int);
            } else {
                lemma_slot_index(q + 1, 0, chunk_size as int);
            }
        }
    }
    if len % chunk_size == 0 {
        len / chunk_size
    } else {
        len / chunk_size + 1
    }
}

/// Number of slots in `chunks` chunks of `chunk_size` slots, capped at the
/// largest whole number of chunks whose slot count fits in a `usize`.
pub fn slots_for(chunks: usize, chunk_size: usize) -> (slots: usize)
    ensures
        slots == slot_capacity(chunks as int, chunk_size as int),
        chunk_size > 0 ==> slots % chunk_size == 0,
{
    if chunk_size == 0 {
        assert(chunks * chunk_size == 0) by (nonlinear_arith)
            requires
                chunk_size == 0,
        ;
        return 0;
    }
    proof {
        lemma_max_len(chunks as int, chunk_size as int);
        lemma_fundamental_div_mod_converse(
            chunks * chunk_size,
            chunk_size as int,
            chunks as int,
            0,
        );
    }
    let limit: usize = usize::MAX / chunk_size;
    if chunks <= limit {
        chunks * chunk_size
    } else {
        limit * chunk_size
    }
}

} // verus!
