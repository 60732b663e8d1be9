//! Keeping the best `k` of a set of keys: by partial selection, or by a
//! bounded min-heap that lets go of its least key. Then the way from the
//! keys kept to the index list that is emitted.

use vstd::prelude::*;
use crate::encoders::collections::{
    lemma_after_insert, lemma_after_remove, lemma_same_items, lemma_take_contains,
};
use crate::encoders::heap::MinHeap;
use crate::encoders::keys::{
    chunk_keys, key_index, lemma_chunk_keys_distinct, lemma_chunk_keys_members,
    lemma_score_order, make_key, score, score_index,
};
use crate::encoders::selection::{
    clamp_index, lemma_selected_characterized, outranks, selected, strictly_increasing,
};

verus! {

/// Whether `w` holds the best `k` of the keys in `all`: it has no key twice,
/// it has `k` keys or all of them if there are fewer, each of its keys is
/// one of `all`, and each is larger than every key of `all` it leaves out.
pub open spec fn is_top_keys(all: Seq<u128>, k: nat, w: Seq<u128>) -> bool {
    &&& w.no_duplicates()
    &&& w.len() == if k <= all.len() {
        k
    } else {
        all.len()
    }
    &&& forall|t: int| 0 <= t < w.len() ==> all.contains(#[trigger] w[t])
    &&& forall|t: int, y: u128|
        #![trigger w[t], all.contains(y)]
        0 <= t < w.len() && all.contains(y) && !w.contains(y) ==> y < w[t]
}

/// There is one selection only: two sequences that both hold the best `k`
/// of the same keys hold the same keys, however each was found.
pub proof fn lemma_top_keys_unique(all: Seq<u128>, k: nat, first: Seq<u128>, second: Seq<u128>)
    requires
        is_top_keys(all, k, first),
        is_top_keys(all, k, second),
    ensures
        forall|x: u128| first.contains(x) <==> second.contains(x),
{
    lemma_one_way(all, k, first, second);
    lemma_one_way(all, k, second, first);
}

/// A key of one selection is a key of every other selection of the same
/// size from the same keys.
proof fn lemma_one_way(all: Seq<u128>, k: nat, first: Seq<u128>, second: Seq<u128>)
    requires
        is_top_keys(all, k, first),
        is_top_keys(all, k, second),
    ensures
        forall|x: u128| first.contains(x) ==> second.contains(x),
{
    assert forall|x: u128| first.contains(x) implies second.contains(x) by {
        if !second.contains(x) {
            let t = choose|t: int| 0 <= t < first.len() && first[t] == x;
            assert(all.contains(first[t]));
            // Every key of the second selection beats x, so the first
            // selection holds it too, beside x: it is the larger one.
            let rest = first.to_set().remove(x);
            first.unique_seq_to_set();
            second.unique_seq_to_set();
            vstd::seq_lib::seq_to_set_is_finite(first);
            vstd::seq_lib::seq_to_set_is_finite(second);
            vstd::set::axiom_set_remove_len(first.to_set(), x);
            vstd::set::axiom_set_remove_finite(first.to_set(), x);
            assert forall|y: u128| second.to_set().contains(y) implies rest.contains(y) by {
                let s = choose|s: int| 0 <= s < second.len() && second[s] == y;
                assert(all.contains(second[s]));
                assert(x < second[s]);
                if !first.contains(y) {
                    assert(y < first[t]);
                }
            }
            assert(second.to_set().subset_of(rest));
            vstd::set_lib::lemma_len_subset(second.to_set(), rest);
        }
    }
}

/// `select_nth_unstable` of slices, on keys: it reorders the keys so that
/// the one at `index` stands where a full sort would put it, none before it
/// is larger and none behind it is smaller. It panics if `index` is not
/// below the length.
#[verifier::external_body]
fn select_nth(keys: &mut Vec<u128>, index: usize)
    requires
        index < old(keys)@.len(),
    ensures
        final(keys)@.to_multiset() == old(keys)@.to_multiset(),
        forall|i: int| 0 <= i < index ==> #[trigger] final(keys)@[i] <= final(keys)@[index as int],
        forall|i: int|
            index < i < final(keys)@.len() ==> final(keys)@[index as int]
                <= #[trigger] final(keys)@[i],
{
    keys.select_nth_unstable(index);
}

/// `sort_unstable` of slices, on indices: it reorders them into ascending
/// order.
#[verifier::external_body]
fn sort_ascending(indices: &mut Vec<usize>)
    ensures
        final(indices)@.to_multiset() == old(indices)@.to_multiset(),
        forall|a: int, b: int|
            0 <= a < b < final(indices)@.len() ==> final(indices)@[a] <= final(indices)@[b],
{
    indices.sort_unstable();
}

/// Keeps the best `k` of the given keys by partial selection: the keys are
/// partitioned around the one that a full sort would put `k` places before
/// the end, and what stands from there on is kept.
pub fn select_top(keys: Vec<u128>, k: usize) -> (winners: Vec<u128>)
    requires
        keys@.no_duplicates(),
    ensures
        is_top_keys(keys@, k as nat, winners@),
{
    let mut keys = keys;
    let ghost all = keys@;
    let len = keys.len();
    let k_clamped = if k <= len {
        k
    } else {
        len
    };
    if k_clamped == 0 {
        return Vec::new();
    }
    let cut = len - k_clamped;
    select_nth(&mut keys, cut);
    let ghost sorted = keys@;
    proof {
        lemma_same_items(sorted, all);
        lemma_same_items(all, sorted);
    }
    let winners = keys.split_off(cut);
    proof {
        assert(winners@ =~= sorted.subrange(cut as int, len as int));
        assert forall|t: int| 0 <= t < winners@.len() implies all.contains(
            #[trigger] winners@[t],
        ) by {
            assert(sorted[cut + t] == winners@[t]);
            assert(sorted.contains(winners@[t]));
        }
        assert forall|t: int, y: u128|
            #![trigger winners@[t], all.contains(y)]
            0 <= t < winners@.len() && all.contains(y) && !winners@.contains(y) implies y
            < winners@[t] by {
            assert(sorted.contains(y));
            let p = choose|p: int| 0 <= p < sorted.len() && sorted[p] == y;
            if p >= cut {
                assert(winners@[p - cut] == y);
            }
            assert(sorted[p] <= sorted[cut as int]);
            assert(sorted[cut + t] >= sorted[cut as int]);
            assert(sorted[cut + t] == winners@[t]);
        }
    }
    winners
}

/// The next key is not among the keys kept so far.
pub proof fn lemma_next_is_new(all: Seq<u128>, t: int, k: nat, kept: Seq<u128>)
    requires
        0 <= t < all.len(),
        all.no_duplicates(),
        is_top_keys(all.take(t), k, kept),
    ensures
        !kept.contains(all[t]),
{
    if kept.contains(all[t]) {
        let i = choose|i: int| 0 <= i < kept.len() && kept[i] == all[t];
        let seen = all.take(t);
        assert(seen.contains(kept[i]));
        let s = choose|s: int| 0 <= s < seen.len() && seen[s] == all[t];
        assert(all[s] == all[t]);
    }
}

/// While fewer than `k` keys are kept, keeping the next key too keeps the
/// best `k` of what has been seen.
pub proof fn lemma_top_grow(all: Seq<u128>, t: int, k: nat, kept: Seq<u128>, grown: Seq<u128>)
    requires
        0 <= t < all.len(),
        all.no_duplicates(),
        is_top_keys(all.take(t), k, kept),
        kept.len() < k,
        forall|y: u128| all.take(t).contains(y) ==> kept.contains(y),
        grown.to_multiset() == kept.to_multiset().insert(all[t]),
    ensures
        is_top_keys(all.take(t + 1), k, grown),
        forall|y: u128| all.take(t + 1).contains(y) ==> grown.contains(y),
{
    let z = all[t];
    lemma_take_contains(all, t);
    lemma_after_insert(kept, grown, z);
    if kept.contains(z) {
        let i = choose|i: int| 0 <= i < kept.len() && kept[i] == z;
        assert(all.take(t).contains(kept[i]));
        let seen = all.take(t);
        let s = choose|s: int| 0 <= s < seen.len() && seen[s] == z;
        assert(all[s] == all[t]);
    }
    assert forall|i: int| 0 <= i < grown.len() implies all.take(t + 1).contains(
        #[trigger] grown[i],
    ) by {
        assert(grown.contains(grown[i]));
        if kept.contains(grown[i]) {
            let j = choose|j: int| 0 <= j < kept.len() && kept[j] == grown[i];
            assert(all.take(t).contains(kept[j]));
        }
    }
}

/// When `k` keys are kept and the next key comes, dropping the least of the
/// `k + 1` keeps the best `k` of what has been seen.
pub proof fn lemma_top_evict(
    all: Seq<u128>,
    t: int,
    k: nat,
    kept: Seq<u128>,
    left: Seq<u128>,
    least: u128,
)
    requires
        0 <= t < all.len(),
        all.no_duplicates(),
        is_top_keys(all.take(t), k, kept),
        kept.len() == k,
        least == all[t] || kept.contains(least),
        least <= all[t],
        forall|i: int| 0 <= i < kept.len() ==> least <= #[trigger] kept[i],
        left.no_duplicates(),
        left.len() == k,
        forall|y: u128| left.contains(y) <==> ((kept.contains(y) || y == all[t]) && y != least),
    ensures
        is_top_keys(all.take(t + 1), k, left),
{
    let z = all[t];
    let seen = all.take(t);
    lemma_take_contains(all, t);
    assert forall|i: int| 0 <= i < left.len() implies all.take(t + 1).contains(
        #[trigger] left[i],
    ) by {
        assert(left.contains(left[i]));
        if kept.contains(left[i]) {
            let j = choose|j: int| 0 <= j < kept.len() && kept[j] == left[i];
            assert(seen.contains(kept[j]));
        }
    }
    assert forall|i: int, y: u128|
        #![trigger left[i], all.take(t + 1).contains(y)]
        0 <= i < left.len() && all.take(t + 1).contains(y) && !left.contains(y) implies y
        < left[i] by {
        let x = left[i];
        assert(left.contains(x));
        assert(x != least);
        if kept.contains(x) {
            let j = choose|j: int| 0 <= j < kept.len() && kept[j] == x;
            assert(least <= kept[j]);
        }
        assert(least < x);
        if y != least {
            assert(!kept.contains(y) && y != z);
            assert(seen.contains(y));
            if kept.contains(x) {
                let j = choose|j: int| 0 <= j < kept.len() && kept[j] == x;
                assert(y < kept[j]);
            } else {
                let j = choose|j: int| 0 <= j < kept.len() && kept[j] == least;
                assert(y < kept[j]);
            }
        }
    }
}

/// Keeps the best `k` keys of a chunk in a bounded min-heap: every key is
/// pushed, and whenever more than `k` are kept the least is discarded.
pub fn heap_top_eager(chunk: &[u8], base: usize, k: usize) -> (winners: Vec<u128>)
    requires
        base + chunk@.len() <= usize::MAX,
    ensures
        is_top_keys(chunk_keys(chunk@, base as int), k as nat, winners@),
{
    let ghost all = chunk_keys(chunk@, base as int);
    proof {
        lemma_chunk_keys_distinct(chunk@, base as int);
        assert(all.take(0) =~= Seq::<u128>::empty());
    }
    let mut heap = MinHeap::new();
    let mut t: usize = 0;
    while t < chunk.len()
        invariant
            t <= chunk@.len(),
            base + chunk@.len() <= usize::MAX,
            all == chunk_keys(chunk@, base as int),
            all.no_duplicates(),
            heap.well_formed(),
            is_top_keys(all.take(t as int), k as nat, heap@),
            heap@.len() < k ==> forall|y: u128|
                all.take(t as int).contains(y) ==> heap@.contains(y),
        decreases chunk@.len() - t,
    {
        let key = make_key(chunk[t], base + t);
        let ghost kept = heap@;
        proof {
            assert(all[t as int] == key);
            lemma_next_is_new(all, t as int, k as nat, kept);
        }
        heap.push(key);
        let ghost grown = heap@;
        proof {
            lemma_after_insert(kept, grown, key);
        }
        if heap.len() > k {
            let popped = heap.pop();
            proof {
                let least = popped->0;
                lemma_after_remove(grown, heap@, least);
                assert forall|i: int| 0 <= i < kept.len() implies least <= #[trigger] kept[i] by {
                    assert(kept.contains(kept[i]));
                    assert(grown.contains(kept[i]));
                    let j = choose|j: int| 0 <= j < grown.len() && grown[j] == kept[i];
                    assert(least <= grown[j]);
                }
                assert(grown.contains(key));
                let j = choose|j: int| 0 <= j < grown.len() && grown[j] == key;
                assert(least <= grown[j]);
                lemma_top_evict(all, t as int, k as nat, kept, heap@, least);
            }
        } else {
            proof {
                lemma_top_grow(all, t as int, k as nat, kept, grown);
            }
        }
        t = t + 1;
    }
    assert(all.take(t as int) =~= all);
    heap.into_vec()
}

/// Keeps the best `k` keys of a chunk in a bounded min-heap: the first `k`
/// keys are pushed, and from then on a key replaces the least one kept if it
/// is larger.
pub fn heap_top_lazy(chunk: &[u8], base: usize, k: usize) -> (winners: Vec<u128>)
    requires
        base + chunk@.len() <= usize::MAX,
    ensures
        is_top_keys(chunk_keys(chunk@, base as int), k as nat, winners@),
{
    let ghost all = chunk_keys(chunk@, base as int);
    proof {
        lemma_chunk_keys_distinct(chunk@, base as int);
        assert(all.take(0) =~= Seq::<u128>::empty());
    }
    let mut heap = MinHeap::new();
    let mut t: usize = 0;
    while t < chunk.len()
        invariant
            t <= chunk@.len(),
            base + chunk@.len() <= usize::MAX,
            all == chunk_keys(chunk@, base as int),
            all.no_duplicates(),
            heap.well_formed(),
            is_top_keys(all.take(t as int), k as nat, heap@),
            heap@.len() < k ==> forall|y: u128|
                all.take(t as int).contains(y) ==> heap@.contains(y),
        decreases chunk@.len() - t,
    {
        let key = make_key(chunk[t], base + t);
        let ghost kept = heap@;
        proof {
            assert(all[t as int] == key);
            lemma_next_is_new(all, t as int, k as nat, kept);
        }
        if heap.len() < k {
            heap.push(key);
            proof {
                lemma_top_grow(all, t as int, k as nat, kept, heap@);
            }
        } else {
            match heap.peek() {
                Some(least) => {
                    if key > least {
                        let popped = heap.pop();
                        let ghost shrunk = heap@;
                        heap.push(key);
                        proof {
                            assert(popped == Some(least)) by {
                                let m = popped->0;
                                assert(kept.contains(m) && kept.contains(least));
                                let a = choose|a: int| 0 <= a < kept.len() && kept[a] == m;
                                let b = choose|b: int| 0 <= b < kept.len() && kept[b] == least;
                                assert(least <= kept[a] && m <= kept[b]);
                            }
                            lemma_after_remove(kept, shrunk, least);
                            lemma_after_insert(shrunk, heap@, key);
                            lemma_top_evict(all, t as int, k as nat, kept, heap@, least);
                        }
                    } else {
                        proof {
                            lemma_top_evict(all, t as int, k as nat, kept, kept, key);
                        }
                    }
                },
                None => {
                    proof {
                        lemma_take_contains(all, t as int);
                    }
                },
            }
        }
        t = t + 1;
    }
    assert(all.take(t as int) =~= all);
    heap.into_vec()
}

/// The indices as mathematical integers.
pub open spec fn as_ints(indices: Seq<usize>) -> Seq<int> {
    indices.map_values(|i: usize| i as int)
}

/// Turns the best `k` keys of an embedding into its selected indices, in
/// ascending order.
pub fn winners_to_indices(embedding: &[u8], winners: Vec<u128>, k: usize) -> (indices: Vec<usize>)
    requires
        is_top_keys(chunk_keys(embedding@, 0), k as nat, winners@),
    ensures
        as_ints(indices@) == selected(embedding@, k as nat),
        indices@.len() == if k <= embedding@.len() {
            k as nat
        } else {
            embedding@.len()
        },
{
    let ghost e = embedding@;
    let len = embedding.len();
    let ghost n = len as int;
    let ghost all = chunk_keys(e, 0);
    proof {
        lemma_chunk_keys_members(e, 0);
    }
    let mut indices: Vec<usize> = Vec::new();
    let mut t: usize = 0;
    while t < winners.len()
        invariant
            t <= winners@.len(),
            n == embedding@.len() == len,
            e == embedding@,
            all == chunk_keys(e, 0),
            is_top_keys(all, k as nat, winners@),
            forall|x: u128| #[trigger]
                all.contains(x) <==> (0 <= score_index(x as int) < n && x == score(
                    e[score_index(x as int)],
                    score_index(x as int),
                )),
            indices@.len() == t,
            forall|s: int| 0 <= s < t ==> #[trigger] indices@[s] == score_index(winners@[s] as int),
        decreases winners@.len() - t,
    {
        assert(all.contains(winners@[t as int]));
        indices.push(key_index(winners[t]));
        t = t + 1;
    }
    let ghost unsorted = indices@;
    sort_ascending(&mut indices);
    proof {
        let r = as_ints(indices@);
        lemma_same_items(unsorted, indices@);
        lemma_same_items(indices@, unsorted);
        assert(unsorted.no_duplicates()) by {
            assert forall|a: int, b: int|
                0 <= a < unsorted.len() && 0 <= b < unsorted.len() && a != b implies unsorted[a]
                != unsorted[b] by {
                assert(all.contains(winners@[a]) && all.contains(winners@[b]));
                assert(winners@[a] != winners@[b]);
            }
        }
        assert(strictly_increasing(r)) by {
            assert forall|a: int, b: int| 0 <= a < b < r.len() implies r[a] < r[b] by {
                assert(indices@[a] <= indices@[b]);
                assert(indices@[a] != indices@[b]);
            }
        }
        assert forall|s: int| 0 <= s < r.len() implies 0 <= #[trigger] r[s] < e.len() by {
            assert(indices@.contains(indices@[s]));
            assert(unsorted.contains(indices@[s]));
            let a = choose|a: int| 0 <= a < unsorted.len() && unsorted[a] == indices@[s];
            assert(all.contains(winners@[a]));
        }
        assert forall|s: int, j: int|
            0 <= s < r.len() && 0 <= j < e.len() && !r.contains(j) implies #[trigger] outranks(
            e,
            r[s],
            j,
        ) by {
            assert(indices@.contains(indices@[s]));
            assert(unsorted.contains(indices@[s]));
            let a = choose|a: int| 0 <= a < unsorted.len() && unsorted[a] == indices@[s];
            assert(all.contains(winners@[a]));
            lemma_score_order(e, j, j);
            let y = score(e[j], j) as u128;
            assert(all.contains(y));
            if winners@.contains(y) {
                let b = choose|b: int| 0 <= b < winners@.len() && winners@[b] == y;
                assert(unsorted[b] == j);
                assert(unsorted.contains(j as usize));
                assert(indices@.contains(j as usize));
                let c = choose|c: int| 0 <= c < indices@.len() && indices@[c] == j as usize;
                assert(r[c] == j);
            }
            assert(y < winners@[a]);
            lemma_score_order(e, r[s], j);
        }
        lemma_selected_characterized(e, k as nat, r);
    }
    indices
}

/// The index list emitted for the selected indices `r`: `k` entries, the
/// indices clamped to 255 first, then the sentinel 255.
pub open spec fn render(r: Seq<int>, k: nat) -> Seq<u8> {
    Seq::new(
        k,
        |t: int|
            if t < r.len() {
                clamp_index(r[t])
            } else {
                255u8
            },
    )
}

/// Emits `k` entries for the given indices: each index clamped to 255, then
/// the sentinel 255 until `k` entries are there.
pub fn emit_indices(indices: &Vec<usize>, k: usize) -> (out: Vec<u8>)
    requires
        indices@.len() <= k,
    ensures
        out@ == render(as_ints(indices@), k as nat),
{
    let mut out: Vec<u8> = Vec::new();
    let mut t: usize = 0;
    while t < indices.len()
        invariant
            t <= indices@.len() <= k,
            out@ == render(as_ints(indices@), k as nat).take(t as int),
        decreases indices@.len() - t,
    {
        let idx = indices[t];
        let entry: u8 = if idx >= 255 {
            255
        } else {
            idx as u8
        };
        out.push(entry);
        assert(out@ =~= render(as_ints(indices@), k as nat).take(t + 1));
        t = t + 1;
    }
    while t < k
        invariant
            indices@.len() <= t <= k,
            out@ == render(as_ints(indices@), k as nat).take(t as int),
        decreases k - t,
    {
        out.push(255);
        assert(out@ =~= render(as_ints(indices@), k as nat).take(t + 1));
        t = t + 1;
    }
    assert(out@ =~= render(as_ints(indices@), k as nat));
    out
}

} // verus!
