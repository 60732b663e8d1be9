//! Finding the largest values in the shape that suits each instruction set:
//! for a single maximum the data is scanned a block at a time, the block's
//! maximum is taken first and looked up in the block only if it beats what
//! was found before. The code is portable.

use vstd::prelude::*;
use crate::encoders::candidates::{as_ints, select_top, winners_to_indices};
use crate::encoders::keys::{keys_of_chunk, lemma_chunk_keys_distinct};
use crate::encoders::selection::{lemma_selected_characterized, outranks, selected};
use crate::simd::dispatch::SimdLevel;

verus! {

/// Whether `i` is the first index of `data` that holds its largest value.
pub open spec fn is_first_max(data: Seq<u8>, i: int) -> bool {
    &&& 0 <= i < data.len()
    &&& forall|j: int| 0 <= j < data.len() ==> data[j] <= data[i]
    &&& forall|j: int| 0 <= j < i ==> data[j] < data[i]
}

/// The first index of the largest value is the one selected index when a
/// single index is asked for.
pub proof fn lemma_first_max_selected(data: Seq<u8>, i: int)
    requires
        is_first_max(data, i),
    ensures
        selected(data, 1) == seq![i],
{
    let r = seq![i];
    assert forall|t: int, j: int|
        0 <= t < r.len() && 0 <= j < data.len() && !r.contains(j) implies #[trigger] outranks(
        data,
        r[t],
        j,
    ) by {
        assert(r[0] == i);
    }
    lemma_selected_characterized(data, 1, r);
}

/// Finds the indices of the `k` largest values with the variant written for
/// the given level: in ascending order, ties going to the lowest index, all
/// indices if there are fewer than `k`. Whatever the level, the result is
/// that of [`find_max_indices_scalar`].
pub fn find_max_indices_simd_dispatch(data: &[u8], k: usize, level: SimdLevel) -> (indices: Vec<
    usize,
>)
    ensures
        as_ints(indices@) == selected(data@, k as nat),
{
    match level {
        SimdLevel::Avx2 => find_max_indices_avx2(data, k),
        SimdLevel::Sse2 => find_max_indices_sse2(data, k),
        SimdLevel::Sse41 => find_max_indices_sse2(data, k),
        SimdLevel::Neon => find_max_indices_neon(data, k),
        SimdLevel::Avx512 => find_max_indices_scalar(data, k),
        SimdLevel::Scalar => find_max_indices_scalar(data, k),
    }
}

/// Finds the indices of the `k` largest values by partial selection: in
/// ascending order, ties going to the lowest index, all indices if there are
/// fewer than `k`.
pub fn find_max_indices_scalar(data: &[u8], k: usize) -> (indices: Vec<usize>)
    ensures
        as_ints(indices@) == selected(data@, k as nat),
{
    proof {
        vstd::slice::axiom_spec_len(data);
        lemma_chunk_keys_distinct(data@, 0);
    }
    let winners = select_top(keys_of_chunk(data, 0), k);
    winners_to_indices(data, winners, k)
}

/// Wraps the single maximum of non-empty data as the answer for `k == 1`.
fn single_index(data: &[u8], index: usize) -> (indices: Vec<usize>)
    requires
        is_first_max(data@, index as int),
    ensures
        as_ints(indices@) == selected(data@, 1),
{
    let mut indices: Vec<usize> = Vec::new();
    indices.push(index);
    proof {
        lemma_first_max_selected(data@, index as int);
    }
    indices
}

/// The variant for AVX2: a single maximum is found 32 bytes at a time,
/// anything else by partial selection.
pub fn find_max_indices_avx2(data: &[u8], k: usize) -> (indices: Vec<usize>)
    ensures
        as_ints(indices@) == selected(data@, k as nat),
{
    if k == 1 && data.len() > 0 {
        return single_index(data, find_single_max_avx2(data));
    }
    find_max_indices_scalar(data, k)
}

/// The variant for SSE2: a single maximum is found 16 bytes at a time,
/// anything else by partial selection.
pub fn find_max_indices_sse2(data: &[u8], k: usize) -> (indices: Vec<usize>)
    ensures
        as_ints(indices@) == selected(data@, k as nat),
{
    if k == 1 && data.len() > 0 {
        return single_index(data, find_single_max_sse2(data));
    }
    find_max_indices_scalar(data, k)
}

/// The variant for NEON: a single maximum is found by a plain scan, anything
/// else by partial selection.
pub fn find_max_indices_neon(data: &[u8], k: usize) -> (indices: Vec<usize>)
    ensures
        as_ints(indices@) == selected(data@, k as nat),
{
    if k == 1 && data.len() > 0 {
        return single_index(data, find_single_max_neon(data));
    }
    find_max_indices_scalar(data, k)
}

/// The first index of the largest value, found 32 bytes at a time.
pub fn find_single_max_avx2(data: &[u8]) -> (index: usize)
    requires
        data@.len() > 0,
    ensures
        is_first_max(data@, index as int),
{
    if data.len() < 32 {
        return find_single_max_neon(data);
    }
    find_single_max_blocks(data, 32)
}

/// The first index of the largest value, found 16 bytes at a time.
pub fn find_single_max_sse2(data: &[u8]) -> (index: usize)
    requires
        data@.len() > 0,
    ensures
        is_first_max(data@, index as int),
{
    if data.len() < 16 {
        return find_single_max_neon(data);
    }
    find_single_max_blocks(data, 16)
}

/// The first index of the largest value, found by a plain scan.
pub fn find_single_max_neon(data: &[u8]) -> (index: usize)
    requires
        data@.len() > 0,
    ensures
        is_first_max(data@, index as int),
{
    let mut max_idx: usize = 0;
    let mut i: usize = 1;
    while i < data.len()
        invariant
            1 <= i <= data@.len(),
            max_idx < i,
            forall|j: int| 0 <= j < i ==> data@[j] <= data@[max_idx as int],
            forall|j: int| 0 <= j < max_idx ==> data@[j] < data@[max_idx as int],
        decreases data@.len() - i,
    {
        if data[i] > data[max_idx] {
            max_idx = i;
        }
        i = i + 1;
    }
    max_idx
}

/// The largest value of the block of `width` bytes that starts at `start`.
pub fn find_max_in_block(data: &[u8], start: usize, width: usize) -> (largest: u8)
    requires
        width > 0,
        start + width <= data@.len(),
    ensures
        forall|j: int| start <= j < start + width ==> data@[j] <= largest,
        exists|j: int| start <= j < start + width && data@[j] == largest,
{
    let len = data.len();
    let mut largest = data[start];
    let mut i: usize = 1;
    while i < width
        invariant
            1 <= i <= width,
            len == data@.len(),
            start + width <= data@.len(),
            forall|j: int| start <= j < start + i ==> data@[j] <= largest,
            exists|j: int| start <= j < start + i && data@[j] == largest,
        decreases width - i,
    {
        if data[start + i] > largest {
            largest = data[start + i];
        }
        i = i + 1;
    }
    largest
}

/// The first index of the largest value, found a block of `width` bytes at a
/// time: the largest value of each full block is compared with the largest
/// found before, and only a larger one is looked up in its block. The bytes
/// behind the last full block are scanned one by one.
pub fn find_single_max_blocks(data: &[u8], width: usize) -> (index: usize)
    requires
        width > 0,
        data@.len() > 0,
    ensures
        is_first_max(data@, index as int),
{
    let len = data.len();
    let blocks = len / width;
    let mut max_val: u8 = 0;
    let mut max_idx: usize = 0;
    let mut block: usize = 0;
    assert(blocks * width <= len) by (nonlinear_arith)
        requires
            blocks == len / width,
            width > 0,
    ;
    let mut start: usize = 0;
    while block < blocks
        invariant
            block <= blocks,
            width > 0,
            len == data@.len(),
            len > 0,
            blocks * width <= len,
            start == block * width,
            max_idx < len,
            forall|j: int| 0 <= j < start ==> data@[j] <= max_val,
            max_val > 0 ==> max_idx < start && data@[max_idx as int] == max_val && forall|j: int|
                0 <= j < max_idx ==> data@[j] < max_val,
            max_val == 0 ==> max_idx == 0,
        decreases blocks - block,
    {
        assert(block * width + width <= blocks * width && (block + 1) * width == block * width
            + width) by (nonlinear_arith)
            requires
                block < blocks,
                width > 0,
        ;
        let block_max = find_max_in_block(data, start, width);
        if block_max > max_val {
            let mut offset: usize = 0;
            while data[start + offset] != block_max
                invariant
                    offset < width,
                    start + width <= len,
                    len == data@.len(),
                    forall|j: int| start <= j < start + offset ==> data@[j] != block_max,
                    exists|j: int| start <= j < start + width && data@[j] == block_max,
                decreases width - offset,
            {
                offset = offset + 1;
            }
            max_val = block_max;
            max_idx = start + offset;
        }
        start = start + width;
        block = block + 1;
    }
    let mut i: usize = start;
    while i < len
        invariant
            i <= len,
            len == data@.len(),
            len > 0,
            max_idx < len,
            forall|j: int| 0 <= j < i ==> data@[j] <= max_val,
            max_val > 0 ==> max_idx < i && data@[max_idx as int] == max_val && forall|j: int|
                0 <= j < max_idx ==> data@[j] < max_val,
            max_val == 0 ==> max_idx == 0,
        decreases len - i,
    {
        if data[i] > max_val {
            max_val = data[i];
            max_idx = i;
        }
        i = i + 1;
    }
    max_idx
}

} // verus!
