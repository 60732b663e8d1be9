//! Top-k encoder: the indices of the `k` largest bytes of an embedding as a
//! sparse summary, by partial selection on small embeddings and by chunks
//! worked on in parallel on large ones.

use vstd::prelude::*;
use crate::encoders::candidates::{emit_indices, select_top, winners_to_indices};
use crate::encoders::chunks::{merge_chunk_tops, par_chunk_winners};
use crate::encoders::keys::{keys_of_chunk, lemma_chunk_keys_distinct};
use crate::encoders::q64::{q64_encode, q64_encode_spec};
use crate::encoders::selection::top_k_spec;

verus! {

/// The longest embedding that is selected from in one piece, and the number
/// of bytes in each chunk of a longer one.
pub const SMALL_EMBEDDING: usize = 256;

/// Finds the indices of the `k` largest values: `k` entries in ascending
/// order, ties going to the lowest index, indices from 255 on emitted as
/// 255, and the sentinel 255 for each entry that no index is left for.
pub fn top_k_indices(embedding: &[u8], k: usize) -> (indices: Vec<u8>)
    ensures
        indices@ == top_k_spec(embedding@, k as nat),
        indices@.len() == k,
{
    if embedding.len() <= SMALL_EMBEDDING {
        top_k_indices_small(embedding, k)
    } else {
        top_k_indices_parallel(embedding, k)
    }
}

/// Top-k by partial selection over the whole embedding.
pub fn top_k_indices_small(embedding: &[u8], k: usize) -> (indices: Vec<u8>)
    ensures
        indices@ == top_k_spec(embedding@, k as nat),
        indices@.len() == k,
{
    proof {
        vstd::slice::axiom_spec_len(embedding);
        lemma_chunk_keys_distinct(embedding@, 0);
    }
    let winners = select_top(keys_of_chunk(embedding, 0), k);
    let chosen = winners_to_indices(embedding, winners, k);
    let indices = emit_indices(&chosen, k);
    indices
}

/// Top-k by chunks of 256 bytes: the best `k` of each chunk are selected in
/// parallel, and the best `k` of all those are selected at the end.
pub fn top_k_indices_parallel(embedding: &[u8], k: usize) -> (indices: Vec<u8>)
    ensures
        indices@ == top_k_spec(embedding@, k as nat),
        indices@.len() == k,
{
    let found = par_chunk_winners(embedding, SMALL_EMBEDDING, k, false);
    let winners = merge_chunk_tops(embedding, &found, SMALL_EMBEDDING, k);
    let chosen = winners_to_indices(embedding, winners, k);
    let indices = emit_indices(&chosen, k);
    indices
}

/// Encodes the top-k index list of an embedding as Q64 text: `2 * k`
/// characters.
pub fn top_k_q64(embedding: &[u8], k: usize) -> (encoded: String)
    ensures
        encoded@ == q64_encode_spec(top_k_spec(embedding@, k as nat)),
        encoded@.len() == 2 * k,
{
    let indices = top_k_indices(embedding, k);
    q64_encode(indices.as_slice())
}

} // verus!
