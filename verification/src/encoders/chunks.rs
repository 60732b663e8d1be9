//! Selecting from a large embedding in chunks: the best `k` keys of each
//! chunk are found on the threads of a pool, and the best `k` of all of them
//! are the best `k` of the embedding.

use rayon::iter::{IndexedParallelIterator, ParallelIterator};
use rayon::slice::ParallelSlice;
use vstd::prelude::*;
use crate::encoders::candidates::{heap_top_eager, is_top_keys, select_top};
use crate::encoders::collections::lemma_subset_no_longer;
use crate::encoders::keys::{
    chunk_keys, keys_of_chunk, lemma_chunk_keys_distinct, lemma_chunk_keys_members, score,
    score_index,
};

verus! {

/// The number of chunks of `size` bytes that `n` bytes fall into, the last
/// one possibly shorter.
pub open spec fn chunk_count(n: int, size: int) -> int {
    if n <= 0 {
        0
    } else {
        (n - 1) / size + 1
    }
}

/// The bytes of chunk `c` when `e` is cut into chunks of `size` bytes.
pub open spec fn chunk_of(e: Seq<u8>, size: int, c: int) -> Seq<u8> {
    e.subrange(
        c * size,
        if c * size + size <= e.len() {
            c * size + size
        } else {
            e.len() as int
        },
    )
}

/// Whether `found` holds, for each chunk of `size` bytes of `e` in order,
/// the best `k` keys of that chunk.
pub open spec fn are_chunk_tops(e: Seq<u8>, size: int, k: nat, found: Seq<Vec<u128>>) -> bool {
    &&& found.len() == chunk_count(e.len() as int, size)
    &&& forall|c: int|
        0 <= c < found.len() ==> is_top_keys(
            chunk_keys(chunk_of(e, size, c), c * size),
            k,
            (#[trigger] found[c])@,
        )
}

/// Where chunk `c` lies when `n` bytes are cut into chunks of `size` bytes.
pub proof fn lemma_chunk_bounds(n: int, size: int, c: int)
    requires
        size > 0,
        0 <= c < chunk_count(n, size),
    ensures
        0 <= c * size < n,
        c * size + size <= n || c == chunk_count(n, size) - 1,
{
    let last = (n - 1) / size;
    vstd::arithmetic::div_mod::lemma_fundamental_div_mod(n - 1, size);
    assert(n - 1 == size * last + (n - 1) % size);
    assert(0 <= (n - 1) % size < size) by {
        vstd::arithmetic::div_mod::lemma_mod_bound(n - 1, size);
    }
    assert(c * size <= last * size) by (nonlinear_arith)
        requires
            0 <= c <= last,
            size > 0,
    ;
    assert(size * last == last * size) by (nonlinear_arith);
    assert(0 <= c * size) by (nonlinear_arith)
        requires
            0 <= c,
            size > 0,
    ;
    if c < last {
        assert(c * size + size <= last * size) by (nonlinear_arith)
            requires
                0 <= c < last,
                size > 0,
        ;
    }
}

/// The chunk that index `j` falls into.
pub proof fn lemma_chunk_of_index(n: int, size: int, j: int)
    requires
        size > 0,
        0 <= j < n,
    ensures
        0 <= j / size < chunk_count(n, size),
        (j / size) * size <= j < (j / size) * size + size,
{
    vstd::arithmetic::div_mod::lemma_fundamental_div_mod(j, size);
    vstd::arithmetic::div_mod::lemma_mod_bound(j, size);
    assert(size * (j / size) == (j / size) * size) by (nonlinear_arith);
    vstd::arithmetic::div_mod::lemma_div_is_ordered(j, n - 1, size);
    vstd::arithmetic::div_mod::lemma_div_pos_is_pos(j, size);
}

/// Selects the best `k` keys of one chunk, by a bounded heap or by partial
/// selection.
pub fn chunk_winners(
    chunk: &[u8],
    chunk_index: usize,
    chunk_size: usize,
    k: usize,
    by_heap: bool,
) -> (winners: Vec<u128>)
    requires
        chunk_index * chunk_size + chunk@.len() <= usize::MAX,
    ensures
        is_top_keys(chunk_keys(chunk@, chunk_index * chunk_size), k as nat, winners@),
{
    assert(chunk_index * chunk_size >= 0) by (nonlinear_arith);
    let base = chunk_index * chunk_size;
    if by_heap {
        heap_top_eager(chunk, base, k)
    } else {
        proof {
            lemma_chunk_keys_distinct(chunk@, base as int);
        }
        select_top(keys_of_chunk(chunk, base), k)
    }
}

/// rayon's `par_chunks`, `enumerate`, `map` and `collect` in a row: the
/// embedding is cut into chunks of `chunk_size` bytes, the last one possibly
/// shorter, [`chunk_winners`] is run on every chunk with its number, on the
/// threads of the current pool, and the results are handed back in the order
/// of the chunks. `par_chunks` panics on a chunk size of zero.
#[verifier::external_body]
pub(crate) fn par_chunk_winners(
    embedding: &[u8],
    chunk_size: usize,
    k: usize,
    by_heap: bool,
) -> (found: Vec<Vec<u128>>)
    requires
        chunk_size > 0,
    ensures
        are_chunk_tops(embedding@, chunk_size as int, k as nat, found@),
{
    embedding.par_chunks(chunk_size).enumerate().map(
        |(c, chunk)| chunk_winners(chunk, c, chunk_size, k, by_heap),
    ).collect()
}

/// `rayon::current_num_threads`: the number of threads of the pool that
/// parallel work started here runs on. It depends on the machine and on the
/// pool, so nothing is promised of it.
#[verifier::external_body]
pub(crate) fn worker_threads() -> usize {
    rayon::current_num_threads()
}

/// The chunk size for `len` bytes on `threads` threads: an even share of the
/// bytes for each thread, rounded up, but at least 256. No thread at all
/// counts as one.
pub open spec fn adaptive_chunk_size_spec(len: int, threads: int) -> int {
    let workers = if threads < 1 {
        1
    } else {
        threads
    };
    let share = if len % workers == 0 {
        len / workers
    } else {
        len / workers + 1
    };
    if share < 256 {
        256
    } else {
        share
    }
}

/// Computes the chunk size for `len` bytes on `threads` threads.
pub fn adaptive_chunk_size(len: usize, threads: usize) -> (size: usize)
    ensures
        size == adaptive_chunk_size_spec(len as int, threads as int),
        size >= 256,
{
    let workers = if threads < 1 {
        1
    } else {
        threads
    };
    let whole = len / workers;
    let share = if len % workers == 0 {
        whole
    } else {
        assert(whole < len) by {
            vstd::arithmetic::div_mod::lemma_fundamental_div_mod(len as int, workers as int);
            assert(workers * whole >= whole) by (nonlinear_arith)
                requires
                    workers >= 1,
                    whole >= 0,
            ;
        }
        whole + 1
    };
    if share < 256 {
        256
    } else {
        share
    }
}

/// Merging local selections: when the keys in `all` are spread over parts,
/// the best `k` of each part are gathered as candidates, and `merged` holds
/// the best `k` of the candidates, then `merged` holds the best `k` of
/// `all`.
pub proof fn lemma_merge_top(
    all: Seq<u128>,
    k: nat,
    parts: Seq<Seq<u128>>,
    tops: Seq<Seq<u128>>,
    candidates: Seq<u128>,
    merged: Seq<u128>,
)
    requires
        all.no_duplicates(),
        parts.len() == tops.len(),
        forall|c: int| 0 <= c < parts.len() ==> is_top_keys(#[trigger] parts[c], k, tops[c]),
        forall|c: int| 0 <= c < parts.len() ==> (#[trigger] parts[c]).no_duplicates(),
        forall|c: int, y: u128|
            0 <= c < parts.len() && (#[trigger] parts[c]).contains(y) ==> #[trigger] all.contains(
                y,
            ),
        forall|y: u128| #[trigger]
            all.contains(y) ==> exists|c: int|
                0 <= c < parts.len() && (#[trigger] parts[c]).contains(y),
        candidates.no_duplicates(),
        forall|x: u128| #[trigger]
            candidates.contains(x) <==> exists|c: int|
                0 <= c < tops.len() && (#[trigger] tops[c]).contains(x),
        is_top_keys(candidates, k, merged),
    ensures
        is_top_keys(all, k, merged),
{
    assert forall|x: u128| candidates.contains(x) implies all.contains(x) by {
        let c = choose|c: int| 0 <= c < tops.len() && (#[trigger] tops[c]).contains(x);
        let i = choose|i: int| 0 <= i < tops[c].len() && tops[c][i] == x;
        assert(parts[c].contains(tops[c][i]));
    }
    lemma_subset_no_longer(candidates, all);
    // The candidates are at least k, or they are all the keys.
    if candidates.len() < k {
        assert forall|y: u128| all.contains(y) implies candidates.contains(y) by {
            let c = choose|c: int| 0 <= c < parts.len() && (#[trigger] parts[c]).contains(y);
            assert(is_top_keys(parts[c], k, tops[c]));
            assert forall|x: u128| tops[c].contains(x) implies candidates.contains(x) by {
                assert(tops[c].contains(x));
            }
            lemma_subset_no_longer(tops[c], candidates);
            assert forall|x: u128| tops[c].contains(x) implies parts[c].contains(x) by {
                let i = choose|i: int| 0 <= i < tops[c].len() && tops[c][i] == x;
                assert(parts[c].contains(tops[c][i]));
            }
            lemma_subset_no_longer(tops[c], parts[c]);
            assert(tops[c].contains(y));
        }
        lemma_subset_no_longer(all, candidates);
    }
    assert forall|t: int| 0 <= t < merged.len() implies all.contains(#[trigger] merged[t]) by {
        assert(candidates.contains(merged[t]));
    }
    assert forall|t: int, y: u128|
        #![trigger merged[t], all.contains(y)]
        0 <= t < merged.len() && all.contains(y) && !merged.contains(y) implies y < merged[t] by {
        let x = merged[t];
        assert(candidates.contains(x));
        if !candidates.contains(y) && x < y {
            let c = choose|c: int| 0 <= c < parts.len() && (#[trigger] parts[c]).contains(y);
            let top = tops[c];
            assert(is_top_keys(parts[c], k, top));
            assert(!top.contains(y));
            assert forall|w: u128| top.contains(w) implies parts[c].contains(w) by {
                let i = choose|i: int| 0 <= i < top.len() && top[i] == w;
                assert(parts[c].contains(top[i]));
            }
            lemma_subset_no_longer(top, parts[c]);
            assert(top.len() == k);
            // Every key of that part's selection beats y, so it beats x and
            // must be in the merged selection, which has no room for them
            // beside x.
            let rest = merged.to_set().remove(x);
            merged.unique_seq_to_set();
            top.unique_seq_to_set();
            vstd::seq_lib::seq_to_set_is_finite(merged);
            vstd::seq_lib::seq_to_set_is_finite(top);
            vstd::set::axiom_set_remove_len(merged.to_set(), x);
            vstd::set::axiom_set_remove_finite(merged.to_set(), x);
            assert(merged.to_set().contains(x));
            assert forall|w: u128| top.to_set().contains(w) implies rest.contains(w) by {
                assert(top.contains(w));
                let i = choose|i: int| 0 <= i < top.len() && top[i] == w;
                assert(y < top[i]);
                assert(candidates.contains(w));
                if !merged.contains(w) {
                    assert(w < merged[t]);
                }
            }
            assert(top.to_set().subset_of(rest));
            vstd::set_lib::lemma_len_subset(top.to_set(), rest);
        }
    }
}

/// Gathers the local selections of all chunks and keeps the best `k` of
/// them: the best `k` keys of the whole embedding.
pub fn merge_chunk_tops(
    embedding: &[u8],
    found: &Vec<Vec<u128>>,
    chunk_size: usize,
    k: usize,
) -> (winners: Vec<u128>)
    requires
        chunk_size > 0,
        are_chunk_tops(embedding@, chunk_size as int, k as nat, found@),
    ensures
        is_top_keys(chunk_keys(embedding@, 0), k as nat, winners@),
{
    let ghost e = embedding@;
    let len = embedding.len();
    let ghost n = len as int;
    let ghost size = chunk_size as int;
    let ghost all = chunk_keys(e, 0);
    let ghost parts = Seq::new(found@.len(), |c: int| chunk_keys(chunk_of(e, size, c), c * size));
    let ghost tops = Seq::new(found@.len(), |c: int| found@[c]@);
    proof {
        lemma_chunk_keys_distinct(e, 0);
        lemma_chunk_keys_members(e, 0);
        assert forall|c: int| 0 <= c < parts.len() implies (#[trigger] parts[c]).no_duplicates()
            && is_top_keys(parts[c], k as nat, tops[c]) && (forall|x: u128| #[trigger]
            parts[c].contains(x) <==> (c * size <= score_index(x as int) < c * size + chunk_of(
                e,
                size,
                c,
            ).len() && x == score(
                chunk_of(e, size, c)[score_index(x as int) - c * size],
                score_index(x as int),
            ))) by {
            lemma_chunk_bounds(n, size, c);
            lemma_chunk_keys_distinct(chunk_of(e, size, c), c * size);
            lemma_chunk_keys_members(chunk_of(e, size, c), c * size);
            assert(is_top_keys(chunk_keys(chunk_of(e, size, c), c * size), k as nat, found@[c]@));
        }
    }
    let mut candidates: Vec<u128> = Vec::new();
    let mut i: usize = 0;
    while i < found.len()
        invariant
            i <= found@.len(),
            size == chunk_size as int,
            size > 0,
            n == e.len(),
            e == embedding@,
            found@.len() == chunk_count(n, size),
            parts == Seq::new(found@.len(), |c: int| chunk_keys(chunk_of(e, size, c), c * size)),
            tops == Seq::new(found@.len(), |c: int| found@[c]@),
            forall|c: int|
                0 <= c < parts.len() ==> (#[trigger] parts[c]).no_duplicates() && is_top_keys(
                    parts[c],
                    k as nat,
                    tops[c],
                ) && (forall|x: u128| #[trigger]
                    parts[c].contains(x) <==> (c * size <= score_index(x as int) < c * size
                        + chunk_of(e, size, c).len() && x == score(
                        chunk_of(e, size, c)[score_index(x as int) - c * size],
                        score_index(x as int),
                    ))),
            candidates@.no_duplicates(),
            forall|x: u128| #[trigger]
                candidates@.contains(x) <==> exists|c: int|
                    0 <= c < i && (#[trigger] tops[c]).contains(x),
        decreases found@.len() - i,
    {
        let ghost before = candidates@;
        candidates.extend_from_slice(found[i].as_slice());
        proof {
            let added = tops[i as int];
            assert(candidates@ =~= before + added);
            assert(is_top_keys(parts[i as int], k as nat, added));
            assert forall|a: int, b: int|
                0 <= a < before.len() && 0 <= b < added.len() implies before[a] != added[b] by {
                assert(before.contains(before[a]));
                let c = choose|c: int| 0 <= c < i && (#[trigger] tops[c]).contains(before[a]);
                let s = choose|s: int| 0 <= s < tops[c].len() && tops[c][s] == before[a];
                assert(is_top_keys(parts[c], k as nat, tops[c]));
                assert(parts[c].contains(tops[c][s]));
                assert(parts[i as int].contains(added[b]));
                lemma_chunk_bounds(n, size, c);
                lemma_chunk_bounds(n, size, i as int);
                assert(c * size + size <= i * size) by (nonlinear_arith)
                    requires
                        0 <= c < i,
                        size > 0,
                ;
            }
            vstd::seq_lib::lemma_no_dup_in_concat(before, added);
            assert forall|x: u128| #[trigger]
                candidates@.contains(x) <==> exists|c: int|
                    0 <= c < i + 1 && (#[trigger] tops[c]).contains(x) by {
                if candidates@.contains(x) {
                    let s = choose|s: int| 0 <= s < candidates@.len() && candidates@[s] == x;
                    if s < before.len() {
                        assert(before[s] == x);
                        assert(before.contains(x));
                        let c = choose|c: int| 0 <= c < i && (#[trigger] tops[c]).contains(x);
                        assert(0 <= c < i + 1 && tops[c].contains(x));
                    } else {
                        assert(added[s - before.len()] == x);
                        assert(tops[i as int].contains(x));
                    }
                }
                if exists|c: int| 0 <= c < i + 1 && (#[trigger] tops[c]).contains(x) {
                    let c = choose|c: int| 0 <= c < i + 1 && (#[trigger] tops[c]).contains(x);
                    if c < i {
                        assert(before.contains(x));
                        let s = choose|s: int| 0 <= s < before.len() && before[s] == x;
                        assert(candidates@[s] == x);
                    } else {
                        let s = choose|s: int| 0 <= s < added.len() && added[s] == x;
                        assert(candidates@[before.len() + s] == x);
                    }
                }
            }
        }
        i = i + 1;
    }
    let winners = select_top(candidates, k);
    proof {
        assert forall|c: int, y: u128|
            0 <= c < parts.len() && (#[trigger] parts[c]).contains(y) implies #[trigger] all
            .contains(y) by {
            lemma_chunk_bounds(n, size, c);
        }
        assert forall|y: u128| #[trigger] all.contains(y) implies exists|c: int|
            0 <= c < parts.len() && (#[trigger] parts[c]).contains(y) by {
            let j = score_index(y as int);
            lemma_chunk_of_index(n, size, j);
            let c = j / size;
            lemma_chunk_bounds(n, size, c);
            assert(chunk_of(e, size, c)[j - c * size] == e[j]);
            assert(parts[c].contains(y));
        }
        lemma_merge_top(all, k as nat, parts, tops, candidates@, winners@);
    }
    winners
}

} // verus!
