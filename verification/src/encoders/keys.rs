//! Candidates of a selection, each packed in one integer key. A larger key
//! is a better candidate: the value stands in the high bits and the index,
//! counted down from the top, in the low 64 bits, so that among equal values
//! the lower index has the larger key.

use vstd::prelude::*;
use crate::encoders::selection::outranks;

verus! {

/// The number of index values a key has room for.
pub const INDEX_SPAN: u128 = 0x1_0000_0000_0000_0000;

/// The key of value `v` at index `i`.
pub open spec fn score(v: u8, i: int) -> int {
    v as int * 0x1_0000_0000_0000_0000 + (0xFFFF_FFFF_FFFF_FFFF - i)
}

/// The index a key was made for.
pub open spec fn score_index(key: int) -> int {
    0xFFFF_FFFF_FFFF_FFFF - key % 0x1_0000_0000_0000_0000
}

/// The keys of a chunk whose first byte has index `base` in the embedding,
/// in the order of the bytes.
pub open spec fn chunk_keys(chunk: Seq<u8>, base: int) -> Seq<u128> {
    Seq::new(chunk.len(), |t: int| score(chunk[t], base + t) as u128)
}

/// Keys compare as their indices rank, and a key gives back its index.
pub proof fn lemma_score_order(e: Seq<u8>, j: int, i: int)
    requires
        0 <= i < 0x1_0000_0000_0000_0000,
        0 <= j < 0x1_0000_0000_0000_0000,
    ensures
        score(e[j], j) > score(e[i], i) <==> outranks(e, j, i),
        score(e[j], j) == score(e[i], i) <==> i == j,
        score_index(score(e[i], i)) == i,
        0 <= score(e[i], i) <= u128::MAX,
{
}

/// The keys of a chunk are all different.
pub proof fn lemma_chunk_keys_distinct(chunk: Seq<u8>, base: int)
    requires
        0 <= base,
        base + chunk.len() <= 0x1_0000_0000_0000_0000,
    ensures
        chunk_keys(chunk, base).no_duplicates(),
{
}

/// What the keys of a chunk are: the key `x` is among them exactly when its
/// index lies in the chunk and `x` is the key of the byte at that index.
pub proof fn lemma_chunk_keys_members(chunk: Seq<u8>, base: int)
    requires
        0 <= base,
        base + chunk.len() <= 0x1_0000_0000_0000_0000,
    ensures
        forall|x: u128| #[trigger]
            chunk_keys(chunk, base).contains(x) <==> (base <= score_index(x as int) < base
                + chunk.len() && x == score(
                chunk[score_index(x as int) - base],
                score_index(x as int),
            )),
{
    let ks = chunk_keys(chunk, base);
    assert forall|x: u128| #[trigger]
        ks.contains(x) <==> (base <= score_index(x as int) < base + chunk.len() && x == score(
            chunk[score_index(x as int) - base],
            score_index(x as int),
        )) by {
        if ks.contains(x) {
            let t = choose|t: int| 0 <= t < ks.len() && ks[t] == x;
            assert(score_index(x as int) == base + t);
        }
        if base <= score_index(x as int) < base + chunk.len() && x == score(
            chunk[score_index(x as int) - base],
            score_index(x as int),
        ) {
            assert(ks[score_index(x as int) - base] == x);
        }
    }
}

/// Builds the key of value `v` at index `i`.
pub fn make_key(v: u8, i: usize) -> (key: u128)
    ensures
        key == score(v, i as int),
{
    (v as u128) * INDEX_SPAN + (0xFFFF_FFFF_FFFF_FFFFu128 - i as u128)
}

/// Reads the index out of a key.
pub fn key_index(key: u128) -> (i: usize)
    requires
        score_index(key as int) <= usize::MAX,
    ensures
        i == score_index(key as int),
{
    (0xFFFF_FFFF_FFFF_FFFFu128 - key % INDEX_SPAN) as usize
}

/// Builds the keys of a chunk whose first byte has index `base`.
pub fn keys_of_chunk(chunk: &[u8], base: usize) -> (keys: Vec<u128>)
    requires
        base + chunk@.len() <= usize::MAX,
    ensures
        keys@ == chunk_keys(chunk@, base as int),
{
    let mut keys: Vec<u128> = Vec::new();
    let mut t: usize = 0;
    while t < chunk.len()
        invariant
            t <= chunk@.len(),
            base + chunk@.len() <= usize::MAX,
            keys@ == chunk_keys(chunk@, base as int).take(t as int),
        decreases chunk@.len() - t,
    {
        keys.push(make_key(chunk[t], base + t));
        assert(keys@ =~= chunk_keys(chunk@, base as int).take(t + 1));
        t = t + 1;
    }
    assert(keys@ =~= chunk_keys(chunk@, base as int));
    keys
}

} // verus!
