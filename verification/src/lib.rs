//! A growable sequence that stores its elements in fixed-capacity chunks.
//!
//! Growing the sequence appends a new chunk; chunks that already exist are
//! never moved or reallocated.

pub mod chunked_vec;
pub mod constructors;
pub mod from;
pub mod index;
mod internal;
pub mod into_iter;
pub mod iter;
pub mod iter_mut;
pub mod laws;
pub mod lifecycle;
pub mod location;
pub mod operations;
pub mod traits;

pub use chunked_vec::{ChunkedVec, ChunkedVecSized};
use vstd::prelude::*;

verus! {

/// Chunk size used by the constructors that do not name one.
pub const DEFAULT_CHUNK_SIZE: usize = 64;

} // verus!
