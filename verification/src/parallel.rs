//! The rule by which a batch of embeddings is cut into pieces of work.

use vstd::prelude::*;

verus! {

/// The number of embeddings that all threads together take in one round when
/// no chunk size is asked for.
pub const BATCH_ROUND: usize = 10000;

/// The chunk size of a batch processor: the size asked for, or else an even
/// share of 10000 embeddings for each thread, but at least one. No thread at
/// all counts as one.
pub open spec fn batch_chunk_size_spec(threads: usize, requested: Option<usize>) -> usize {
    match requested {
        Some(size) => size,
        None => if threads == 0 {
            BATCH_ROUND
        } else if BATCH_ROUND / threads >= 1 {
            BATCH_ROUND / threads
        } else {
            1
        },
    }
}

/// Computes the chunk size of a batch processor with `threads` threads.
pub fn batch_chunk_size(threads: usize, requested: Option<usize>) -> (size: usize)
    ensures
        size == batch_chunk_size_spec(threads, requested),
        requested is None ==> 1 <= size <= BATCH_ROUND,
{
    match requested {
        Some(size) => size,
        None => {
            if threads == 0 {
                BATCH_ROUND
            } else {
                let share = BATCH_ROUND / threads;
                if share >= 1 {
                    share
                } else {
                    1
                }
            }
        },
    }
}

} // verus!
