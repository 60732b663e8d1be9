//! Facts about sequences read as collections: what holds when two of them
//! have the same items, and when one has an item more or less than another.

use vstd::prelude::*;

verus! {

/// Two sequences that hold the same items equally often have the same
/// length and the same members, and neither has a duplicate unless the other
/// has one.
pub proof fn lemma_same_items<A>(a: Seq<A>, b: Seq<A>)
    requires
        a.to_multiset() == b.to_multiset(),
    ensures
        a.len() == b.len(),
        forall|x: A| a.contains(x) <==> b.contains(x),
        a.no_duplicates() ==> b.no_duplicates(),
{
    broadcast use vstd::seq_lib::to_multiset_contains;

    vstd::seq_lib::to_multiset_len(a);
    vstd::seq_lib::to_multiset_len(b);
    assert forall|x: A| a.contains(x) <==> b.contains(x) by {
        assert(a.contains(x) <==> a.to_multiset().count(x) > 0);
        assert(b.contains(x) <==> b.to_multiset().count(x) > 0);
    }
    if a.no_duplicates() {
        a.lemma_multiset_has_no_duplicates();
        b.lemma_multiset_has_no_duplicates_conv();
    }
}

/// What adding one item does to a sequence read as a collection.
pub proof fn lemma_after_insert<A>(before: Seq<A>, after: Seq<A>, x: A)
    requires
        after.to_multiset() == before.to_multiset().insert(x),
    ensures
        after.len() == before.len() + 1,
        forall|y: A| after.contains(y) <==> (before.contains(y) || y == x),
        before.no_duplicates() && !before.contains(x) ==> after.no_duplicates(),
{
    broadcast use vstd::multiset::group_multiset_axioms;

    vstd::seq_lib::to_multiset_len(before);
    vstd::seq_lib::to_multiset_len(after);
    assert forall|y: A| after.contains(y) <==> (before.contains(y) || y == x) by {
        vstd::seq_lib::to_multiset_contains(before, y);
        vstd::seq_lib::to_multiset_contains(after, y);
    }
    if before.no_duplicates() && !before.contains(x) {
        before.lemma_multiset_has_no_duplicates();
        vstd::seq_lib::to_multiset_contains(before, x);
        assert forall|y: A| after.to_multiset().contains(y) implies after.to_multiset().count(y)
            == 1 by {
            vstd::seq_lib::to_multiset_contains(before, y);
        }
        after.lemma_multiset_has_no_duplicates_conv();
    }
}

/// What taking one item out does to a sequence without duplicates, read as
/// a collection.
pub proof fn lemma_after_remove<A>(before: Seq<A>, after: Seq<A>, x: A)
    requires
        after.to_multiset() == before.to_multiset().remove(x),
        before.contains(x),
        before.no_duplicates(),
    ensures
        after.len() == before.len() - 1,
        forall|y: A| after.contains(y) <==> (before.contains(y) && y != x),
        after.no_duplicates(),
{
    broadcast use vstd::multiset::group_multiset_axioms;

    vstd::seq_lib::to_multiset_len(before);
    vstd::seq_lib::to_multiset_len(after);
    vstd::seq_lib::to_multiset_contains(before, x);
    before.lemma_multiset_has_no_duplicates();
    assert forall|y: A| after.contains(y) <==> (before.contains(y) && y != x) by {
        vstd::seq_lib::to_multiset_contains(before, y);
        vstd::seq_lib::to_multiset_contains(after, y);
    }
    assert forall|y: A| after.to_multiset().contains(y) implies after.to_multiset().count(y)
        == 1 by {
        vstd::seq_lib::to_multiset_contains(before, y);
    }
    after.lemma_multiset_has_no_duplicates_conv();
}

/// A sequence without duplicates whose items all occur in another is no
/// longer than the other; if it is as long, every item of the other occurs
/// in it.
pub proof fn lemma_subset_no_longer(a: Seq<u128>, b: Seq<u128>)
    requires
        a.no_duplicates(),
        b.no_duplicates(),
        forall|x: u128| a.contains(x) ==> b.contains(x),
    ensures
        a.len() <= b.len(),
        a.len() == b.len() ==> forall|x: u128| b.contains(x) ==> a.contains(x),
{
    a.unique_seq_to_set();
    b.unique_seq_to_set();
    vstd::seq_lib::seq_to_set_is_finite(a);
    vstd::seq_lib::seq_to_set_is_finite(b);
    assert(a.to_set().subset_of(b.to_set()));
    vstd::set_lib::lemma_len_subset(a.to_set(), b.to_set());
    if a.len() == b.len() {
        vstd::set_lib::lemma_subset_equality(a.to_set(), b.to_set());
        assert forall|x: u128| b.contains(x) implies a.contains(x) by {
            assert(b.to_set().contains(x));
            assert(a.to_set().contains(x));
        }
    }
}

/// A key is among the first `t + 1` keys when it is among the first `t` or
/// is the next one.
pub proof fn lemma_take_contains(all: Seq<u128>, t: int)
    requires
        0 <= t < all.len(),
    ensures
        forall|y: u128| #[trigger]
            all.take(t + 1).contains(y) <==> (all.take(t).contains(y) || y == all[t]),
{
    let next = all.take(t + 1);
    let seen = all.take(t);
    assert forall|y: u128| #[trigger] next.contains(y) <==> (seen.contains(y) || y == all[t]) by {
        if next.contains(y) {
            let s = choose|s: int| 0 <= s < next.len() && next[s] == y;
            if s < t {
                assert(seen[s] == y);
            }
        }
        if seen.contains(y) {
            let s = choose|s: int| 0 <= s < seen.len() && seen[s] == y;
            assert(next[s] == y);
        }
        if y == all[t] {
            assert(next[t] == y);
        }
    }
}

} // verus!
