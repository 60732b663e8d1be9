//! What "the k largest values" means, and the facts that let every selection
//! strategy be held to that one meaning.
//!
//! Index `j` outranks index `i` when its value is larger, or equal with
//! `j < i`: among equal values the lowest index wins. The rank of an index is
//! the number of indices that outrank it, and the selected indices are those
//! of rank below `k`, in ascending order.

use vstd::prelude::*;

verus! {

/// Whether index `j` is preferred to index `i`: a larger value wins, and
/// among equal values the lower index.
pub open spec fn outranks(e: Seq<u8>, j: int, i: int) -> bool {
    e[j] > e[i] || (e[j] == e[i] && j < i)
}

/// The number of indices below `n` that satisfy `p`.
pub open spec fn count_upto(p: spec_fn(int) -> bool, n: int) -> nat
    decreases n,
{
    if n <= 0 {
        0
    } else {
        count_upto(p, n - 1) + if p(n - 1) {
            1nat
        } else {
            0nat
        }
    }
}

/// The indices below `n` that satisfy `p`, in ascending order.
pub open spec fn picks_upto(p: spec_fn(int) -> bool, n: int) -> Seq<int>
    decreases n,
{
    if n <= 0 {
        seq![]
    } else if p(n - 1) {
        picks_upto(p, n - 1).push(n - 1)
    } else {
        picks_upto(p, n - 1)
    }
}

/// The test "outranks `i`" on indices of `e`.
pub open spec fn outrankers(e: Seq<u8>, i: int) -> spec_fn(int) -> bool {
    |j: int| outranks(e, j, i)
}

/// The rank of index `i`: how many indices of `e` outrank it. The best index
/// has rank 0, and no two indices share a rank.
pub open spec fn rank(e: Seq<u8>, i: int) -> nat {
    count_upto(outrankers(e, i), e.len() as int)
}

/// The test "has a rank below `k`" on indices of `e`.
pub open spec fn chosen(e: Seq<u8>, k: nat) -> spec_fn(int) -> bool {
    |i: int| rank(e, i) < k
}

/// The indices of the `k` largest values of `e`, in ascending order; all
/// indices if `e` has fewer than `k`.
pub open spec fn selected(e: Seq<u8>, k: nat) -> Seq<int> {
    picks_upto(chosen(e, k), e.len() as int)
}

/// An index as it is emitted: indices from 255 on all become 255.
pub open spec fn clamp_index(i: int) -> u8 {
    if i >= 255 {
        255u8
    } else {
        i as u8
    }
}

/// The top-k index list of `e`: exactly `k` entries, first the selected
/// indices in ascending order, each clamped to 255, then the sentinel 255
/// for every entry that no index is left for.
pub open spec fn top_k_spec(e: Seq<u8>, k: nat) -> Seq<u8> {
    Seq::new(
        k,
        |t: int|
            if t < selected(e, k).len() {
                clamp_index(selected(e, k)[t])
            } else {
                255u8
            },
    )
}

/// Whether each entry of `r` is below the next.
pub open spec fn strictly_increasing(r: Seq<int>) -> bool {
    forall|a: int, b: int| 0 <= a < b < r.len() ==> r[a] < r[b]
}

/// The test "occurs in `r`".
pub open spec fn member_of(r: Seq<int>) -> spec_fn(int) -> bool {
    |j: int| r.contains(j)
}

/// The test that every index passes.
pub open spec fn every_index() -> spec_fn(int) -> bool {
    |j: int| true
}

/// A test that implies another is passed by no more indices.
pub proof fn lemma_count_monotone(p: spec_fn(int) -> bool, q: spec_fn(int) -> bool, n: int)
    requires
        forall|j: int| 0 <= j < n && #[trigger] p(j) ==> q(j),
    ensures
        count_upto(p, n) <= count_upto(q, n),
    decreases n,
{
    if n > 0 {
        lemma_count_monotone(p, q, n - 1);
    }
}

/// A test that implies another and fails on an index that the other passes
/// is passed by fewer indices.
pub proof fn lemma_count_strict(p: spec_fn(int) -> bool, q: spec_fn(int) -> bool, n: int, w: int)
    requires
        forall|j: int| 0 <= j < n && #[trigger] p(j) ==> q(j),
        0 <= w < n,
        q(w),
        !p(w),
    ensures
        count_upto(p, n) < count_upto(q, n),
    decreases n,
{
    if w == n - 1 {
        lemma_count_monotone(p, q, n - 1);
    } else {
        lemma_count_strict(p, q, n - 1, w);
    }
}

/// Every index below `n` passes the test that every index passes.
pub proof fn lemma_count_every(n: int)
    requires
        0 <= n,
    ensures
        count_upto(every_index(), n) == n,
    decreases n,
{
    if n > 0 {
        lemma_count_every(n - 1);
    }
}

/// The last entry of an increasing list of indices below `n` that holds
/// `n - 1` is `n - 1`.
proof fn lemma_last_is_top(r: Seq<int>, n: int)
    requires
        strictly_increasing(r),
        forall|t: int| 0 <= t < r.len() ==> 0 <= #[trigger] r[t] < n,
        r.contains(n - 1),
    ensures
        r.len() > 0,
        r.last() == n - 1,
{
    let t = choose|t: int| 0 <= t < r.len() && r[t] == n - 1;
    if t < r.len() - 1 {
        assert(r[t] < r[r.len() - 1]);
    }
}

/// An increasing list of indices below `n` has as many entries as there are
/// indices below `n` that occur in it.
pub proof fn lemma_count_members(r: Seq<int>, n: int)
    requires
        strictly_increasing(r),
        forall|t: int| 0 <= t < r.len() ==> 0 <= #[trigger] r[t] < n,
    ensures
        count_upto(member_of(r), n) == r.len(),
    decreases n,
{
    if n <= 0 {
        if r.len() > 0 {
            assert(0 <= r[0] < n);
        }
    } else if r.contains(n - 1) {
        lemma_last_is_top(r, n);
        let head = r.drop_last();
        assert forall|t: int| 0 <= t < head.len() implies 0 <= #[trigger] head[t] < n - 1 by {
            assert(head[t] == r[t]);
            assert(r[t] < r[r.len() - 1]);
        }
        assert(strictly_increasing(head)) by {
            assert forall|a: int, b: int| 0 <= a < b < head.len() implies head[a] < head[b] by {
                assert(head[a] == r[a] && head[b] == r[b]);
            }
        }
        lemma_count_members(head, n - 1);
        assert forall|j: int| 0 <= j < n - 1 implies #[trigger] member_of(r)(j) == member_of(
            head,
        )(j) by {
            if r.contains(j) {
                let t = choose|t: int| 0 <= t < r.len() && r[t] == j;
                assert(head[t] == j);
            }
            if head.contains(j) {
                let t = choose|t: int| 0 <= t < head.len() && head[t] == j;
                assert(r[t] == j);
            }
        }
        lemma_count_monotone(member_of(r), member_of(head), n - 1);
        lemma_count_monotone(member_of(head), member_of(r), n - 1);
    } else {
        assert forall|t: int| 0 <= t < r.len() implies 0 <= #[trigger] r[t] < n - 1 by {
            assert(r.contains(r[t]));
        }
        lemma_count_members(r, n - 1);
    }
}

/// An increasing list of indices below `n` that holds exactly the indices
/// passing `p` is the list of picks of `p`.
pub proof fn lemma_picks_unique(p: spec_fn(int) -> bool, n: int, r: Seq<int>)
    requires
        strictly_increasing(r),
        forall|t: int| 0 <= t < r.len() ==> 0 <= #[trigger] r[t] < n,
        forall|i: int| 0 <= i < n ==> (r.contains(i) <==> #[trigger] p(i)),
    ensures
        r == picks_upto(p, n),
    decreases n,
{
    if n <= 0 {
        if r.len() > 0 {
            assert(0 <= r[0] < n);
        }
        assert(r =~= picks_upto(p, n));
    } else if p(n - 1) {
        lemma_last_is_top(r, n);
        let head = r.drop_last();
        assert forall|t: int| 0 <= t < head.len() implies 0 <= #[trigger] head[t] < n - 1 by {
            assert(head[t] == r[t]);
            assert(r[t] < r[r.len() - 1]);
        }
        assert(strictly_increasing(head)) by {
            assert forall|a: int, b: int| 0 <= a < b < head.len() implies head[a] < head[b] by {
                assert(head[a] == r[a] && head[b] == r[b]);
            }
        }
        assert forall|i: int| 0 <= i < n - 1 implies (head.contains(i) <==> #[trigger] p(i)) by {
            if r.contains(i) {
                let t = choose|t: int| 0 <= t < r.len() && r[t] == i;
                assert(head[t] == i);
            }
            if head.contains(i) {
                let t = choose|t: int| 0 <= t < head.len() && head[t] == i;
                assert(r[t] == i);
            }
        }
        lemma_picks_unique(p, n - 1, head);
        assert(r =~= head.push(n - 1));
    } else {
        assert forall|t: int| 0 <= t < r.len() implies 0 <= #[trigger] r[t] < n - 1 by {
            assert(r.contains(r[t]));
        }
        lemma_picks_unique(p, n - 1, r);
    }
}

/// What identifies the selected indices: an increasing list of `min(k, n)`
/// indices of `e`, each of which outranks every index left out, is the list
/// of selected indices.
pub proof fn lemma_selected_characterized(e: Seq<u8>, k: nat, r: Seq<int>)
    requires
        strictly_increasing(r),
        forall|t: int| 0 <= t < r.len() ==> 0 <= #[trigger] r[t] < e.len(),
        r.len() == if k <= e.len() {
            k
        } else {
            e.len()
        },
        forall|t: int, j: int|
            0 <= t < r.len() && 0 <= j < e.len() && !r.contains(j) ==> #[trigger] outranks(
                e,
                r[t],
                j,
            ),
    ensures
        r == selected(e, k),
{
    let n = e.len() as int;
    lemma_count_members(r, n);
    assert forall|i: int| 0 <= i < n implies (r.contains(i) <==> #[trigger] chosen(e, k)(i)) by {
        if r.contains(i) {
            let t = choose|t: int| 0 <= t < r.len() && r[t] == i;
            assert forall|j: int| 0 <= j < n && #[trigger] outrankers(e, i)(j) implies member_of(
                r,
            )(j) by {
                if !r.contains(j) {
                    assert(outranks(e, r[t], j));
                }
            }
            lemma_count_strict(outrankers(e, i), member_of(r), n, i);
        } else {
            assert forall|j: int| 0 <= j < n && #[trigger] member_of(r)(j) implies outrankers(
                e,
                i,
            )(j) by {
                let t = choose|t: int| 0 <= t < r.len() && r[t] == j;
                assert(outranks(e, r[t], i));
            }
            lemma_count_monotone(member_of(r), outrankers(e, i), n);
            lemma_count_monotone(member_of(r), every_index(), n);
            lemma_count_strict(member_of(r), every_index(), n, i);
            lemma_count_every(n);
        }
    }
    lemma_picks_unique(chosen(e, k), n, r);
}

/// A test that fewer than `n` indices below `n` pass fails on one of them.
proof fn lemma_count_short(p: spec_fn(int) -> bool, n: int) -> (j: int)
    requires
        count_upto(p, n) < n,
    ensures
        0 <= j < n,
        !p(j),
    decreases n,
{
    if n <= 0 {
        0
    } else if !p(n - 1) {
        n - 1
    } else {
        lemma_count_short(p, n - 1)
    }
}

/// The best index below `n` that `r` leaves out: it outranks every other
/// index below `n` that `r` leaves out.
proof fn lemma_best_outside(e: Seq<u8>, r: Seq<int>, n: int, some: int) -> (b: int)
    requires
        0 <= some < n <= e.len(),
        !r.contains(some),
    ensures
        0 <= b < n,
        !r.contains(b),
        forall|j: int| 0 <= j < n && !r.contains(j) && j != b ==> #[trigger] outranks(e, b, j),
    decreases n,
{
    let last = n - 1;
    if some < last {
        let b = lemma_best_outside(e, r, last, some);
        if !r.contains(last) && outranks(e, last, b) {
            assert forall|j: int|
                0 <= j < n && !r.contains(j) && j != last implies #[trigger] outranks(
                e,
                last,
                j,
            ) by {
                if j != b {
                    assert(outranks(e, b, j));
                }
            }
            last
        } else {
            b
        }
    } else if exists|j: int| 0 <= j < last && !r.contains(j) {
        let other = choose|j: int| 0 <= j < last && !r.contains(j);
        let b = lemma_best_outside(e, r, last, other);
        if outranks(e, last, b) {
            assert forall|j: int|
                0 <= j < n && !r.contains(j) && j != last implies #[trigger] outranks(
                e,
                last,
                j,
            ) by {
                if j != b {
                    assert(outranks(e, b, j));
                }
            }
            last
        } else {
            b
        }
    } else {
        last
    }
}

/// An increasing list with one more index put in at its place.
spec fn insert_sorted(r: Seq<int>, b: int) -> Seq<int>
    decreases r.len(),
{
    if r.len() == 0 {
        seq![b]
    } else if r.last() < b {
        r.push(b)
    } else {
        insert_sorted(r.drop_last(), b).push(r.last())
    }
}

/// Putting a new index into an increasing list at its place gives an
/// increasing list of the old indices and the new one.
proof fn lemma_insert_sorted(r: Seq<int>, b: int)
    requires
        strictly_increasing(r),
        !r.contains(b),
    ensures
        strictly_increasing(insert_sorted(r, b)),
        insert_sorted(r, b).len() == r.len() + 1,
        forall|j: int| insert_sorted(r, b).contains(j) <==> (r.contains(j) || j == b),
        insert_sorted(r, b).last() == if r.len() > 0 && r.last() > b {
            r.last()
        } else {
            b
        },
    decreases r.len(),
{
    let s = insert_sorted(r, b);
    if r.len() == 0 {
        assert(s[0] == b);
        assert forall|j: int| s.contains(j) <==> (r.contains(j) || j == b) by {
            if s.contains(j) {
                let t = choose|t: int| 0 <= t < s.len() && s[t] == j;
            }
        }
    } else if r.last() < b {
        assert forall|a: int, c: int| 0 <= a < c < s.len() implies s[a] < s[c] by {
            if c == r.len() {
                if a < r.len() - 1 {
                    assert(r[a] < r[r.len() - 1]);
                }
            } else {
                assert(r[a] < r[c]);
            }
        }
        assert forall|j: int| s.contains(j) <==> (r.contains(j) || j == b) by {
            if s.contains(j) {
                let t = choose|t: int| 0 <= t < s.len() && s[t] == j;
                if t < r.len() {
                    assert(r[t] == j);
                }
            }
            if r.contains(j) {
                let t = choose|t: int| 0 <= t < r.len() && r[t] == j;
                assert(s[t] == j);
            }
            if j == b {
                assert(s[r.len() as int] == b);
            }
        }
    } else {
        let head = r.drop_last();
        assert(r[r.len() - 1] == r.last());
        assert(r.contains(r.last()));
        assert(r.last() > b);
        assert(strictly_increasing(head)) by {
            assert forall|a: int, c: int| 0 <= a < c < head.len() implies head[a] < head[c] by {
                assert(r[a] < r[c]);
            }
        }
        assert(!head.contains(b)) by {
            if head.contains(b) {
                let t = choose|t: int| 0 <= t < head.len() && head[t] == b;
                assert(r[t] == b);
            }
        }
        lemma_insert_sorted(head, b);
        let inner = insert_sorted(head, b);
        assert(inner.last() < r.last()) by {
            if head.len() > 0 && head.last() > b {
                assert(r[head.len() - 1] < r[r.len() - 1]);
            }
        }
        assert forall|a: int, c: int| 0 <= a < c < s.len() implies s[a] < s[c] by {
            if c == inner.len() {
                if a < inner.len() - 1 {
                    assert(inner[a] < inner[inner.len() - 1]);
                }
            } else {
                assert(inner[a] < inner[c]);
            }
        }
        assert forall|j: int| s.contains(j) <==> (r.contains(j) || j == b) by {
            if s.contains(j) {
                let t = choose|t: int| 0 <= t < s.len() && s[t] == j;
                if t < inner.len() {
                    assert(inner[t] == j);
                    assert(inner.contains(j));
                    if head.contains(j) {
                        let u = choose|u: int| 0 <= u < head.len() && head[u] == j;
                        assert(r[u] == j);
                    }
                }
            }
            if r.contains(j) {
                let t = choose|t: int| 0 <= t < r.len() && r[t] == j;
                if t < head.len() {
                    assert(head[t] == j);
                    assert(head.contains(j));
                    assert(inner.contains(j));
                    let u = choose|u: int| 0 <= u < inner.len() && inner[u] == j;
                    assert(s[u] == j);
                } else {
                    assert(s[inner.len() as int] == j);
                }
            }
            if j == b {
                assert(inner.contains(b));
                let u = choose|u: int| 0 <= u < inner.len() && inner[u] == b;
                assert(s[u] == b);
            }
        }
    }
}

/// Builds, one index at a time, an increasing list of `min(k, n)` indices
/// each of which outranks every index left out.
proof fn lemma_build_selection(e: Seq<u8>, k: nat) -> (r: Seq<int>)
    ensures
        strictly_increasing(r),
        forall|t: int| 0 <= t < r.len() ==> 0 <= #[trigger] r[t] < e.len(),
        r.len() == if k <= e.len() {
            k
        } else {
            e.len()
        },
        forall|t: int, j: int|
            0 <= t < r.len() && 0 <= j < e.len() && !r.contains(j) ==> #[trigger] outranks(
                e,
                r[t],
                j,
            ),
    decreases k,
{
    if k == 0 {
        seq![]
    } else {
        let r0 = lemma_build_selection(e, (k - 1) as nat);
        if k - 1 >= e.len() {
            r0
        } else {
            let n = e.len() as int;
            lemma_count_members(r0, n);
            let some = lemma_count_short(member_of(r0), n);
            let b = lemma_best_outside(e, r0, n, some);
            lemma_insert_sorted(r0, b);
            let r = insert_sorted(r0, b);
            assert forall|t: int| 0 <= t < r.len() implies 0 <= #[trigger] r[t] < e.len() by {
                assert(r.contains(r[t]));
                if r0.contains(r[t]) {
                    let u = choose|u: int| 0 <= u < r0.len() && r0[u] == r[t];
                }
            }
            assert forall|t: int, j: int|
                0 <= t < r.len() && 0 <= j < e.len() && !r.contains(j) implies #[trigger] outranks(
                e,
                r[t],
                j,
            ) by {
                assert(r.contains(r[t]));
                if r0.contains(r[t]) {
                    let u = choose|u: int| 0 <= u < r0.len() && r0[u] == r[t];
                    assert(outranks(e, r0[u], j));
                }
            }
            r
        }
    }
}

/// How many indices are selected: `k`, or all of them if the embedding has
/// fewer. The entries of a top-k list behind those are the sentinel.
pub proof fn lemma_selected_len(e: Seq<u8>, k: nat)
    ensures
        selected(e, k).len() == if k <= e.len() {
            k
        } else {
            e.len()
        },
        strictly_increasing(selected(e, k)),
        forall|t: int|
            0 <= t < selected(e, k).len() ==> 0 <= #[trigger] selected(e, k)[t] < e.len(),
{
    let r = lemma_build_selection(e, k);
    lemma_selected_characterized(e, k, r);
}

/// The picks of a test are exactly the indices below `n` that pass it.
pub proof fn lemma_picks_members(p: spec_fn(int) -> bool, n: int, i: int)
    ensures
        picks_upto(p, n).contains(i) <==> (0 <= i < n && p(i)),
    decreases n,
{
    if n > 0 {
        lemma_picks_members(p, n - 1, i);
        let head = picks_upto(p, n - 1);
        if p(n - 1) {
            let all = head.push(n - 1);
            if head.contains(i) {
                let t = choose|t: int| 0 <= t < head.len() && head[t] == i;
                assert(all[t] == i);
            }
            if i == n - 1 {
                assert(all[head.len() as int] == i);
            }
        }
    }
}

/// A preferred index has the lower rank.
pub proof fn lemma_rank_order(e: Seq<u8>, a: int, b: int)
    requires
        0 <= a < e.len(),
        0 <= b < e.len(),
        outranks(e, a, b),
    ensures
        rank(e, a) < rank(e, b),
{
    lemma_count_strict(outrankers(e, a), outrankers(e, b), e.len() as int, a);
}

/// What is selected are the largest values: every selected index is
/// preferred to every index that is not selected, so its value is at least
/// as large.
pub proof fn lemma_selected_are_largest(e: Seq<u8>, k: nat, i: int, j: int)
    requires
        selected(e, k).contains(i),
        0 <= j < e.len(),
        !selected(e, k).contains(j),
    ensures
        0 <= i < e.len(),
        outranks(e, i, j),
        e[i] >= e[j],
{
    lemma_picks_members(chosen(e, k), e.len() as int, i);
    lemma_picks_members(chosen(e, k), e.len() as int, j);
    if outranks(e, j, i) {
        lemma_rank_order(e, j, i);
    }
}

/// With `k == 0` no index passes the test "has a rank below `k`".
proof fn lemma_none_picked(e: Seq<u8>, n: int)
    ensures
        picks_upto(chosen(e, 0), n).len() == 0,
    decreases n,
{
    if n > 0 {
        lemma_none_picked(e, n - 1);
    }
}

/// With `k == 0` no index is selected.
pub proof fn lemma_none_selected(e: Seq<u8>)
    ensures
        selected(e, 0).len() == 0,
{
    lemma_none_picked(e, e.len() as int);
}

/// Padding: an empty embedding has nothing to select, so its top-k list is
/// `k` times the sentinel 255.
pub proof fn lemma_top_k_of_empty(k: nat)
    ensures
        top_k_spec(Seq::<u8>::empty(), k) == Seq::new(k, |t: int| 255u8),
{
    assert(selected(Seq::<u8>::empty(), k).len() == 0);
    assert(top_k_spec(Seq::<u8>::empty(), k) =~= Seq::new(k, |t: int| 255u8));
}

/// With `k == 0` the top-k list of any embedding is empty.
pub proof fn lemma_top_zero(e: Seq<u8>)
    ensures
        top_k_spec(e, 0) == Seq::<u8>::empty(),
{
    assert(top_k_spec(e, 0) =~= Seq::<u8>::empty());
}

} // verus!
