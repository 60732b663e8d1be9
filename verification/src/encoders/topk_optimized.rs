//! Top-k encoder with a strategy chosen by the shape of the input: partial
//! selection, a bounded min-heap, or chunks worked on in parallel. Every
//! strategy gives the same index list.

use vstd::prelude::*;
use crate::encoders::candidates::{
    emit_indices, heap_top_eager, heap_top_lazy, select_top, winners_to_indices,
};
use crate::encoders::chunks::{
    adaptive_chunk_size, merge_chunk_tops, par_chunk_winners, worker_threads,
};
use crate::encoders::keys::{keys_of_chunk, lemma_chunk_keys_distinct};
use crate::encoders::q64::{
    buffer_too_small_text, q64_bytes, q64_encode, q64_encode_spec, q64_encode_to_buffer, Q64Error,
};
use crate::encoders::selection::{lemma_none_selected, top_k_spec};

verus! {

/// The way a top-k list is computed.
#[derive(Debug, Clone, Copy, PartialEq, Eq)]
pub enum TopKStrategy {
    /// Partial selection over all keys at once.
    Selection,
    /// A bounded min-heap that keeps the best `k` keys seen so far.
    Heap,
    /// Local selections on chunks in parallel, then one selection over their
    /// results.
    ParallelChunks,
}

/// The strategy for an embedding of `len` bytes and a given `k`. Up to 256
/// bytes: partial selection when at most 4 indices are wanted or more than a
/// quarter of all, else the heap. Beyond 256 bytes: the heap up to `k = 16`,
/// else parallel chunks.
pub open spec fn strategy_spec(len: int, k: int) -> TopKStrategy {
    let k_clamped = if k <= len {
        k
    } else {
        len
    };
    if len <= 256 {
        if k_clamped <= 4 || 4 * k_clamped > len {
            TopKStrategy::Selection
        } else {
            TopKStrategy::Heap
        }
    } else if k <= 16 {
        TopKStrategy::Heap
    } else {
        TopKStrategy::ParallelChunks
    }
}

/// Chooses the strategy for an embedding of `len` bytes and a given `k`.
pub fn select_strategy(len: usize, k: usize) -> (strategy: TopKStrategy)
    ensures
        strategy == strategy_spec(len as int, k as int),
{
    let k_clamped = if k <= len {
        k
    } else {
        len
    };
    if len <= 256 {
        if k_clamped <= 4 || k_clamped > len / 4 {
            TopKStrategy::Selection
        } else {
            TopKStrategy::Heap
        }
    } else if k <= 16 {
        TopKStrategy::Heap
    } else {
        TopKStrategy::ParallelChunks
    }
}

/// Finds the indices of the `k` largest values with the strategy that suits
/// the input: `k` entries in ascending order, ties going to the lowest
/// index, indices from 255 on emitted as 255, and the sentinel 255 for each
/// entry that no index is left for.
pub fn top_k_indices_optimized(embedding: &[u8], k: usize) -> (indices: Vec<u8>)
    ensures
        indices@ == top_k_spec(embedding@, k as nat),
        indices@.len() == k,
{
    if k == 0 || embedding.len() == 0 {
        let nothing: Vec<usize> = Vec::new();
        let indices = emit_indices(&nothing, k);
        assert(indices@ =~= top_k_spec(embedding@, k as nat)) by {
            if k == 0 {
                lemma_none_selected(embedding@);
            }
        }
        return indices;
    }
    match select_strategy(embedding.len(), k) {
        TopKStrategy::ParallelChunks => top_k_indices_parallel_optimized(embedding, k),
        TopKStrategy::Heap => if embedding.len() <= 256 {
            top_k_indices_small_optimized(embedding, k)
        } else {
            top_k_indices_heap(embedding, k)
        },
        TopKStrategy::Selection => top_k_indices_small_optimized(embedding, k),
    }
}

/// Top-k over the whole embedding at once: by partial selection when at most
/// 4 indices are wanted or more than a quarter of all, else by a bounded
/// min-heap.
pub fn top_k_indices_small_optimized(embedding: &[u8], k: usize) -> (indices: Vec<u8>)
    ensures
        indices@ == top_k_spec(embedding@, k as nat),
        indices@.len() == k,
{
    proof {
        vstd::slice::axiom_spec_len(embedding);
        lemma_chunk_keys_distinct(embedding@, 0);
    }
    let len = embedding.len();
    let k_clamped = if k <= len {
        k
    } else {
        len
    };
    let winners = if k_clamped <= 4 || k_clamped > len / 4 {
        select_top(keys_of_chunk(embedding, 0), k)
    } else {
        heap_top_eager(embedding, 0, k)
    };
    let chosen = winners_to_indices(embedding, winners, k);
    let indices = emit_indices(&chosen, k);
    indices
}

/// Top-k by a bounded min-heap that is filled with the first `k` keys and
/// then takes a key only in exchange for a smaller one.
pub fn top_k_indices_heap(embedding: &[u8], k: usize) -> (indices: Vec<u8>)
    ensures
        indices@ == top_k_spec(embedding@, k as nat),
        indices@.len() == k,
{
    proof {
        vstd::slice::axiom_spec_len(embedding);
    }
    let winners = heap_top_lazy(embedding, 0, k);
    let chosen = winners_to_indices(embedding, winners, k);
    let indices = emit_indices(&chosen, k);
    indices
}

/// Top-k by chunks sized to the threads at hand: the best `k` of each chunk
/// are kept by a bounded min-heap, in parallel, and the best `k` of all
/// those are selected at the end. The result does not depend on the number
/// of threads.
pub fn top_k_indices_parallel_optimized(embedding: &[u8], k: usize) -> (indices: Vec<u8>)
    ensures
        indices@ == top_k_spec(embedding@, k as nat),
        indices@.len() == k,
{
    let chunk_size = adaptive_chunk_size(embedding.len(), worker_threads());
    let found = par_chunk_winners(embedding, chunk_size, k, true);
    let winners = merge_chunk_tops(embedding, &found, chunk_size, k);
    let chosen = winners_to_indices(embedding, winners, k);
    let indices = emit_indices(&chosen, k);
    indices
}

/// Encodes the top-k index list of an embedding, found with the strategy
/// that suits the input, as Q64 text: `2 * k` characters.
pub fn top_k_q64_optimized(embedding: &[u8], k: usize) -> (encoded: String)
    ensures
        encoded@ == q64_encode_spec(top_k_spec(embedding@, k as nat)),
        encoded@.len() == 2 * k,
{
    let indices = top_k_indices_optimized(embedding, k);
    q64_encode(indices.as_slice())
}

/// Encodes the top-k index list of an embedding as Q64 into the front of
/// `output`, and returns the `2 * k` bytes written. A buffer shorter than
/// that is refused before anything is written.
pub fn top_k_to_buffer(embedding: &[u8], k: usize, output: &mut [u8]) -> (result: Result<
    usize,
    Q64Error,
>)
    ensures
        final(output)@.len() == old(output)@.len(),
        result is Ok <==> old(output)@.len() >= 2 * k,
        result matches Ok(written) ==> written == 2 * k && final(output)@ == q64_bytes(
            top_k_spec(embedding@, k as nat),
        ) + old(output)@.skip(2 * k as int),
        result matches Err(e) ==> final(output)@ == old(output)@ && e.message@
            == buffer_too_small_text(2 * k as nat, old(output)@.len()),
{
    let indices = top_k_indices_optimized(embedding, k);
    q64_encode_to_buffer(indices.as_slice(), output)
}

/// Strategy equivalence: index lists that partial selection, the heap and
/// parallel chunks return for the same embedding and `k` are one and the
/// same list. Behind it stands that the best `k` keys are the same however
/// they are found (`lemma_top_keys_unique`), and that the selected indices
/// are fixed by what identifies them (`lemma_selected_characterized`).
pub proof fn lemma_strategies_agree(
    e: Seq<u8>,
    k: nat,
    by_selection: Seq<u8>,
    by_heap: Seq<u8>,
    by_chunks: Seq<u8>,
)
    requires
        by_selection == top_k_spec(e, k),
        by_heap == top_k_spec(e, k),
        by_chunks == top_k_spec(e, k),
    ensures
        by_selection == by_heap,
        by_heap == by_chunks,
{
}

} // verus!
