//! A binary min-heap of keys, kept in a vector: the parent of the key at
//! position `i > 0` stands at position `(i - 1) / 2` and is never larger.
//! The smallest key is therefore at the root.

use vstd::prelude::*;

verus! {

/// Whether every key is at least as large as its parent.
pub open spec fn heap_ordered(s: Seq<u128>) -> bool {
    forall|i: int| 0 < i < s.len() ==> s[(i - 1) / 2] <= #[trigger] s[i]
}

/// In an ordered heap no key is smaller than the root.
pub proof fn lemma_root_is_least(s: Seq<u128>, i: int)
    requires
        heap_ordered(s),
        0 <= i < s.len(),
    ensures
        s[0] <= s[i],
    decreases i,
{
    if i > 0 {
        lemma_root_is_least(s, (i - 1) / 2);
    }
}

/// Exchanging two keys changes neither which keys there are nor how often.
pub proof fn lemma_swap_keeps_items(s: Seq<u128>, i: int, j: int)
    requires
        0 <= i < s.len(),
        0 <= j < s.len(),
    ensures
        s.update(i, s[j]).update(j, s[i]).to_multiset() == s.to_multiset(),
{
    broadcast use vstd::multiset::group_multiset_axioms;

    let s1 = s.update(i, s[j]);
    vstd::seq_lib::to_multiset_update(s, i, s[j]);
    vstd::seq_lib::to_multiset_update(s1, j, s[i]);
    vstd::seq_lib::to_multiset_contains(s, s[i]);
    vstd::seq_lib::to_multiset_contains(s, s[j]);
}

/// A min-heap of keys.
pub struct MinHeap {
    data: Vec<u128>,
}

impl MinHeap {
    /// The keys in the order in which the heap holds them.
    pub closed spec fn view(&self) -> Seq<u128> {
        self.data@
    }

    /// Whether the heap is in order.
    pub closed spec fn well_formed(&self) -> bool {
        heap_ordered(self.data@)
    }

    /// An empty heap.
    pub fn new() -> (heap: MinHeap)
        ensures
            heap@.len() == 0,
            heap.well_formed(),
    {
        MinHeap { data: Vec::new() }
    }

    /// The number of keys in the heap.
    pub fn len(&self) -> (n: usize)
        ensures
            n == self@.len(),
    {
        self.data.len()
    }

    /// The smallest key, if the heap holds any.
    pub fn peek(&self) -> (least: Option<u128>)
        requires
            self.well_formed(),
        ensures
            least is None <==> self@.len() == 0,
            least matches Some(m) ==> self@.contains(m) && forall|t: int|
                0 <= t < self@.len() ==> m <= #[trigger] self@[t],
    {
        if self.data.len() == 0 {
            None
        } else {
            proof {
                assert forall|t: int| 0 <= t < self@.len() implies self@[0]
                    <= #[trigger] self@[t] by {
                    lemma_root_is_least(self@, t);
                }
            }
            Some(self.data[0])
        }
    }

    /// Adds a key.
    pub fn push(&mut self, key: u128)
        requires
            old(self).well_formed(),
        ensures
            final(self).well_formed(),
            final(self)@.to_multiset() == old(self)@.to_multiset().insert(key),
    {
        self.data.push(key);
        proof {
            vstd::seq_lib::to_multiset_build(old(self)@, key);
        }
        let ghost target = self.data@.to_multiset();
        let n = self.data.len();
        let mut pos: usize = n - 1;
        while pos > 0 && self.data[(pos - 1) / 2] > self.data[pos]
            invariant
                n == self.data@.len(),
                pos < n,
                self.data@.to_multiset() == target,
                forall|i: int|
                    0 < i < n && i != pos ==> self.data@[(i - 1) / 2] <= #[trigger] self.data@[i],
                forall|i: int|
                    0 < i < n && (i - 1) / 2 == pos && pos > 0 ==> self.data@[(pos - 1) / 2]
                        <= #[trigger] self.data@[i],
            decreases pos,
        {
            let parent = (pos - 1) / 2;
            let ghost before = self.data@;
            let low = self.data[pos];
            let high = self.data[parent];
            self.data[pos] = high;
            self.data[parent] = low;
            proof {
                lemma_swap_keeps_items(before, pos as int, parent as int);
            }
            pos = parent;
        }
    }

    /// Takes out the smallest key, if the heap holds any.
    pub fn pop(&mut self) -> (least: Option<u128>)
        requires
            old(self).well_formed(),
        ensures
            final(self).well_formed(),
            least is None <==> old(self)@.len() == 0,
            least is None ==> final(self)@ == old(self)@,
            least matches Some(m) ==> old(self)@.contains(m) && (forall|t: int|
                0 <= t < old(self)@.len() ==> m <= #[trigger] old(self)@[t])
                && final(self)@.to_multiset() == old(self)@.to_multiset().remove(m),
    {
        let len = self.data.len();
        if len == 0 {
            return None;
        }
        let least = self.data[0];
        let last = self.data[len - 1];
        proof {
            assert forall|t: int| 0 <= t < old(self)@.len() implies least
                <= #[trigger] old(self)@[t] by {
                lemma_root_is_least(old(self)@, t);
            }
        }
        self.data[0] = last;
        self.data.pop();
        proof {
            broadcast use vstd::multiset::group_multiset_axioms;

            let s = old(self)@;
            let moved = s.update(0, last);
            vstd::seq_lib::to_multiset_update(s, 0, last);
            assert(moved =~= self.data@.push(last));
            vstd::seq_lib::to_multiset_build(self.data@, last);
            vstd::seq_lib::to_multiset_contains(s, least);
            assert forall|v: u128| self.data@.to_multiset().count(v) == s.to_multiset().remove(
                least,
            ).count(v) by {
                assert(self.data@.to_multiset().insert(last).count(v) == s.to_multiset().insert(
                    last,
                ).remove(least).count(v));
            }
        }
        let ghost target = self.data@.to_multiset();
        let n = self.data.len();
        let mut pos: usize = 0;
        let mut settled = false;
        while !settled && pos < n / 2
            invariant
                n == self.data@.len(),
                pos < n || n == 0,
                self.data@.to_multiset() == target,
                forall|i: int|
                    0 < i < n && (i - 1) / 2 != pos ==> self.data@[(i - 1) / 2]
                        <= #[trigger] self.data@[i],
                forall|i: int|
                    0 < i < n && (i - 1) / 2 == pos && pos > 0 ==> self.data@[(pos - 1) / 2]
                        <= #[trigger] self.data@[i],
                settled ==> heap_ordered(self.data@),
            decreases n - pos, if settled { 0int } else { 1int },
        {
            let left = 2 * pos + 1;
            let right = left + 1;
            let child = if right < n && self.data[right] < self.data[left] {
                right
            } else {
                left
            };
            if self.data[pos] <= self.data[child] {
                settled = true;
            } else {
                let ghost before = self.data@;
                let high = self.data[pos];
                let low = self.data[child];
                self.data[pos] = low;
                self.data[child] = high;
                proof {
                    lemma_swap_keeps_items(before, pos as int, child as int);
                }
                pos = child;
            }
        }
        Some(least)
    }

    /// Hands out the keys, in no particular order.
    pub fn into_vec(self) -> (keys: Vec<u128>)
        ensures
            keys@ == self@,
    {
        self.data
    }
}

} // verus!
