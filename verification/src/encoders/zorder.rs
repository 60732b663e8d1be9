//! Z-order (Morton) encoder: the leading bits of the first dimensions are
//! laid side by side in one 32-bit code, so that embeddings whose leading
//! bits agree share a prefix of their codes.

use vstd::prelude::*;
use crate::encoders::q64::{
    buffer_too_small_text, q64_bytes, q64_encode, q64_encode_spec, q64_encode_to_buffer, Q64Error,
};

verus! {

/// Four to the power `d`.
pub open spec fn pow4(d: nat) -> nat
    decreases d,
{
    if d == 0 {
        1
    } else {
        4 * pow4((d - 1) as nat)
    }
}

/// Two to the power `d`.
pub open spec fn pow2(d: nat) -> nat
    decreases d,
{
    if d == 0 {
        1
    } else {
        2 * pow2((d - 1) as nat)
    }
}

/// The number of leading dimensions that enter a code holding `limit`
/// dimensions at most.
pub open spec fn dims_used(e: Seq<u8>, limit: nat) -> nat {
    if e.len() <= limit {
        e.len()
    } else {
        limit
    }
}

/// The code of the first `dims` dimensions: the top two bits of dimension
/// `d` stand at bit positions `2d` and `2d + 1`.
pub open spec fn z_order_code_upto(e: Seq<u8>, dims: nat) -> nat
    decreases dims,
{
    if dims == 0 {
        0
    } else {
        z_order_code_upto(e, (dims - 1) as nat) + (e[dims - 1] as nat / 64) * pow4(
            (dims - 1) as nat,
        )
    }
}

/// The Z-order code of an embedding: its first 16 dimensions, two bits each.
/// An empty embedding has code 0.
pub open spec fn z_order_code(e: Seq<u8>) -> nat {
    z_order_code_upto(e, dims_used(e, 16))
}

/// The four bytes of a 32-bit value, most significant first.
pub open spec fn be_bytes(x: nat) -> Seq<u8> {
    seq![
        (x / 16777216 % 256) as u8,
        (x / 65536 % 256) as u8,
        (x / 256 % 256) as u8,
        (x % 256) as u8,
    ]
}

/// The code of the first dimensions depends on their top two bits only.
pub proof fn lemma_z_order_code_upto_by_top_bits(a: Seq<u8>, b: Seq<u8>, dims: nat)
    requires
        dims <= a.len(),
        dims <= b.len(),
        forall|d: int| 0 <= d < dims ==> a[d] / 64 == b[d] / 64,
    ensures
        z_order_code_upto(a, dims) == z_order_code_upto(b, dims),
    decreases dims,
{
    if dims > 0 {
        lemma_z_order_code_upto_by_top_bits(a, b, (dims - 1) as nat);
    }
}

/// Prefix locality: embeddings that use as many dimensions and agree in the
/// top two bits of each of them have the same code, whatever their other
/// bits and their dimensions past the sixteenth.
pub proof fn lemma_z_order_code_by_top_bits(a: Seq<u8>, b: Seq<u8>)
    requires
        dims_used(a, 16) == dims_used(b, 16),
        forall|d: int| 0 <= d < dims_used(a, 16) ==> a[d] / 64 == b[d] / 64,
    ensures
        z_order_code(a) == z_order_code(b),
{
    lemma_z_order_code_upto_by_top_bits(a, b, dims_used(a, 16));
}

/// A code of `dims` dimensions of two bits fits in `2 * dims` bits.
pub proof fn lemma_z_order_code_bound(e: Seq<u8>, dims: nat)
    requires
        dims <= e.len(),
    ensures
        z_order_code_upto(e, dims) < pow4(dims),
    decreases dims,
{
    if dims > 0 {
        let d = (dims - 1) as nat;
        lemma_z_order_code_bound(e, d);
        let q = e[d as int] as nat / 64;
        assert(q * pow4(d) <= 3 * pow4(d)) by (nonlinear_arith)
            requires
                q <= 3,
        ;
    }
}

/// Shifting one left by `2 * d` bits gives four to the power `d`.
pub proof fn lemma_shift_pow4(d: nat)
    requires
        d <= 16,
    ensures
        (1u64 << ((2 * d) as u64)) == pow4(d),
    decreases d,
{
    if d == 0 {
        assert((1u64 << 0u64) == 1) by (bit_vector);
    } else {
        lemma_shift_pow4((d - 1) as nat);
        let s: u64 = (2 * (d - 1)) as u64;
        assert((1u64 << ((s + 2) as u64)) == 4 * (1u64 << s)) by (bit_vector)
            requires
                s <= 30,
        ;
    }
}

/// Splits a 32-bit value into its four bytes, most significant first.
pub fn u32_be_bytes(x: u32) -> (bytes: [u8; 4])
    ensures
        bytes@ == be_bytes(x as nat),
{
    let b0 = (x >> 24) as u8;
    let b1 = ((x >> 16) & 0xff) as u8;
    let b2 = ((x >> 8) & 0xff) as u8;
    let b3 = (x & 0xff) as u8;
    assert(b0 == x / 16777216 % 256 && b1 == x / 65536 % 256 && b2 == x / 256 % 256 && b3 == x
        % 256) by (bit_vector)
        requires
            b0 == (x >> 24) as u8,
            b1 == ((x >> 16) & 0xff) as u8,
            b2 == ((x >> 8) & 0xff) as u8,
            b3 == (x & 0xff) as u8,
    ;
    [b0, b1, b2, b3]
}

/// Computes the Z-order code of an embedding.
pub fn z_order_value(embedding: &[u8]) -> (code: u32)
    ensures
        code == z_order_code(embedding@),
{
    let dims_to_use: usize = if embedding.len() <= 16 {
        embedding.len()
    } else {
        16
    };
    let mut result: u32 = 0;
    let mut dim: usize = 0;
    while dim < dims_to_use
        invariant
            dim <= dims_to_use <= 16,
            dims_to_use == dims_used(embedding@, 16),
            result == z_order_code_upto(embedding@, dim as nat),
        decreases dims_to_use - dim,
    {
        let byte = embedding[dim];
        let val: u32 = ((byte >> 6) & 0b11) as u32;
        let shift: u32 = (dim * 2) as u32;
        let low: u32 = (val & 0b01) << shift;
        let high: u32 = ((val & 0b10) >> 1) << (shift + 1);
        let next: u32 = (result | low) | high;
        proof {
            lemma_z_order_code_bound(embedding@, dim as nat);
            lemma_shift_pow4(dim as nat);
            let weight: u64 = 1u64 << (shift as u64);
            assert(val == byte / 64) by (bit_vector)
                requires
                    val == ((byte >> 6) & 0b11) as u32,
            ;
            assert(next as u64 == result as u64 + (val as u64) * weight) by (bit_vector)
                requires
                    (result as u64) < weight,
                    weight == 1u64 << (shift as u64),
                    shift <= 30,
                    val < 4,
                    low == (val & 0b01) << shift,
                    high == ((val & 0b10) >> 1) << ((shift + 1) as u32),
                    next == (result | low) | high,
            ;
        }
        result = next;
        dim = dim + 1;
    }
    result
}

/// Encodes the Z-order code of an embedding as Q64 text: always eight
/// characters, whatever the length of the embedding.
pub fn z_order_q64(embedding: &[u8]) -> (encoded: String)
    ensures
        encoded@ == q64_encode_spec(be_bytes(z_order_code(embedding@))),
        encoded@.len() == 8,
{
    let bytes = u32_be_bytes(z_order_value(embedding));
    q64_encode(bytes.as_slice())
}

/// Encodes the Z-order code of an embedding as Q64 into the front of
/// `output`, and returns the eight bytes written. A buffer shorter than
/// eight bytes is refused before anything is written.
pub fn z_order_to_buffer(embedding: &[u8], output: &mut [u8]) -> (result: Result<usize, Q64Error>)
    ensures
        final(output)@.len() == old(output)@.len(),
        result is Ok <==> old(output)@.len() >= 8,
        result matches Ok(written) ==> written == 8 && final(output)@ == q64_bytes(
            be_bytes(z_order_code(embedding@)),
        ) + old(output)@.skip(8),
        result matches Err(e) ==> final(output)@ == old(output)@ && e.message@
            == buffer_too_small_text(8, old(output)@.len()),
{
    let bytes = u32_be_bytes(z_order_value(embedding));
    q64_encode_to_buffer(bytes.as_slice(), output)
}

/// The four bits of `q`, each moved to the lowest bit of its own byte: bit
/// `b` of `q` stands at bit position `8b`.
pub open spec fn spread4(q: nat) -> nat {
    (q % 2) + (q / 2 % 2) * 256 + (q / 4 % 2) * 65536 + (q / 8 % 2) * 16777216
}

/// The extended code of the first `dims` dimensions: bit `b` of the top four
/// bits of dimension `d` stands at bit position `8b + d`.
pub open spec fn z_order_extended_code_upto(e: Seq<u8>, dims: nat) -> nat
    decreases dims,
{
    if dims == 0 {
        0
    } else {
        z_order_extended_code_upto(e, (dims - 1) as nat) + spread4(e[dims - 1] as nat / 16)
            * pow2((dims - 1) as nat)
    }
}

/// The extended Z-order code of an embedding: its first 8 dimensions, four
/// bits each.
pub open spec fn z_order_extended_code(e: Seq<u8>) -> nat {
    z_order_extended_code_upto(e, dims_used(e, 8))
}

/// The lowest `d` bits of each of the four bytes of a 32-bit value.
pub open spec fn low_lanes(d: u32) -> u32 {
    (0xFFu32 >> ((8 - d) as u32)) | ((0xFFu32 >> ((8 - d) as u32)) << 8) | ((0xFFu32 >> ((8
        - d) as u32)) << 16) | ((0xFFu32 >> ((8 - d) as u32)) << 24)
}

/// Shifting one left by `d` bits gives two to the power `d`.
pub proof fn lemma_shift_pow2(d: nat)
    requires
        d <= 8,
    ensures
        (1u64 << (d as u64)) == pow2(d),
    decreases d,
{
    if d == 0 {
        assert((1u64 << 0u64) == 1) by (bit_vector);
    } else {
        lemma_shift_pow2((d - 1) as nat);
        let s: u64 = (d - 1) as u64;
        assert((1u64 << ((s + 1) as u64)) == 2 * (1u64 << s)) by (bit_vector)
            requires
                s <= 7,
        ;
    }
}

/// Computes the extended Z-order code of an embedding.
pub fn z_order_extended_value(embedding: &[u8]) -> (code: u32)
    ensures
        code == z_order_extended_code(embedding@),
{
    let dims_to_use: usize = if embedding.len() <= 8 {
        embedding.len()
    } else {
        8
    };
    let mut result: u32 = 0;
    let mut dim: usize = 0;
    assert(0u32 & !low_lanes(0) == 0) by (bit_vector);
    while dim < dims_to_use
        invariant
            dim <= dims_to_use <= 8,
            dims_to_use == dims_used(embedding@, 8),
            result == z_order_extended_code_upto(embedding@, dim as nat),
            result & !low_lanes(dim as u32) == 0,
        decreases dims_to_use - dim,
    {
        let byte = embedding[dim];
        let val: u32 = ((byte >> 4) & 0b1111) as u32;
        let d: u32 = dim as u32;
        let mut next: u32 = result;
        next = next | ((val & 1) << d);
        next = next | (((val >> 1) & 1) << (8 + d));
        next = next | (((val >> 2) & 1) << (16 + d));
        next = next | (((val >> 3) & 1) << (24 + d));
        proof {
            lemma_shift_pow2(dim as nat);
            let weight: u64 = 1u64 << (d as u64);
            assert(val == byte / 16) by (bit_vector)
                requires
                    val == ((byte >> 4) & 0b1111) as u32,
            ;
            let spread: u64 = ((val % 2) + (val / 2 % 2) * 256 + (val / 4 % 2) * 65536 + (val / 8
                % 2) * 16777216) as u64;
            let before: u32 = low_lanes(d);
            let after: u32 = low_lanes((d + 1) as u32);
            assert(next as u64 == result as u64 + spread * weight && next & !after == 0)
                by (bit_vector)
                requires
                    result & !before == 0,
                    before == (0xFFu32 >> ((8 - d) as u32)) | ((0xFFu32 >> ((8 - d) as u32)) << 8)
                        | ((0xFFu32 >> ((8 - d) as u32)) << 16) | ((0xFFu32 >> ((8 - d) as u32))
                        << 24),
                    after == (0xFFu32 >> ((7 - d) as u32)) | ((0xFFu32 >> ((7 - d) as u32)) << 8)
                        | ((0xFFu32 >> ((7 - d) as u32)) << 16) | ((0xFFu32 >> ((7 - d) as u32))
                        << 24),
                    weight == 1u64 << (d as u64),
                    d < 8,
                    val < 16,
                    spread == ((val % 2) + (val / 2 % 2) * 256 + (val / 4 % 2) * 65536 + (val / 8
                        % 2) * 16777216) as u64,
                    next == (((result | ((val & 1) << d)) | (((val >> 1) & 1) << ((8 + d) as u32)))
                        | (((val >> 2) & 1) << ((16 + d) as u32))) | (((val >> 3) & 1) << ((24
                        + d) as u32)),
            ;
        }
        result = next;
        dim = dim + 1;
    }
    result
}

/// Encodes the extended Z-order code of an embedding, four bits for each of
/// its first eight dimensions, as Q64 text: always eight characters.
pub fn z_order_q64_extended(embedding: &[u8]) -> (encoded: String)
    ensures
        encoded@ == q64_encode_spec(be_bytes(z_order_extended_code(embedding@))),
        encoded@.len() == 8,
{
    let bytes = u32_be_bytes(z_order_extended_value(embedding));
    q64_encode(bytes.as_slice())
}


/// Where the two bits of the first dimension of a pair go: bit 0 to position
/// 0, bit 1 to position 2.
pub const MORTON_TABLE_X: [u32; 4] = [0b00, 0b01, 0b100, 0b101];

/// Where the two bits of the second dimension of a pair go: bit 0 to
/// position 1, bit 1 to position 3.
pub const MORTON_TABLE_Y: [u32; 4] = [0b00, 0b10, 0b1000, 0b1010];

/// The four bits that a pair of 2-bit values gives when their bits
/// alternate, those of `x` on the even positions.
pub open spec fn pair_code(x: nat, y: nat) -> nat {
    (x % 2) + 2 * (y % 2) + 4 * (x / 2) + 8 * (y / 2)
}

/// The top two bits of dimension `d`, or 0 behind the last dimension used.
pub open spec fn quantized_or_zero(e: Seq<u8>, d: nat, dims: nat) -> nat {
    if d < dims {
        e[d as int] as nat / 64
    } else {
        0
    }
}

/// The pairwise code of the first `pairs` pairs of dimensions: pair `j`,
/// made of dimensions `2j` and `2j + 1`, stands at bit positions `4j` to
/// `4j + 3`.
pub open spec fn z_order_fast_code_upto(e: Seq<u8>, dims: nat, pairs: nat) -> nat
    decreases pairs,
{
    if pairs == 0 {
        0
    } else {
        let j = (pairs - 1) as nat;
        z_order_fast_code_upto(e, dims, j) + pair_code(
            quantized_or_zero(e, 2 * j, dims),
            quantized_or_zero(e, 2 * j + 1, dims),
        ) * pow4(2 * j)
    }
}

/// The pairwise Z-order code of an embedding: its first 16 dimensions, two
/// bits each, the bits of each pair of neighbours alternating.
pub open spec fn z_order_fast_code(e: Seq<u8>) -> nat {
    z_order_fast_code_upto(e, dims_used(e, 16), (dims_used(e, 16) + 1) / 2)
}

/// A code of `pairs` pairs fits in `4 * pairs` bits.
pub proof fn lemma_z_order_fast_code_bound(e: Seq<u8>, dims: nat, pairs: nat)
    requires
        dims <= e.len(),
    ensures
        z_order_fast_code_upto(e, dims, pairs) < pow4(2 * pairs),
    decreases pairs,
{
    if pairs > 0 {
        let j = (pairs - 1) as nat;
        lemma_z_order_fast_code_bound(e, dims, j);
        let c = pair_code(quantized_or_zero(e, 2 * j, dims), quantized_or_zero(e, 2 * j + 1, dims));
        assert(c * pow4(2 * j) <= 15 * pow4(2 * j)) by (nonlinear_arith)
            requires
                c <= 15,
        ;
        assert(pow4(2 * pairs) == 16 * pow4(2 * j)) by {
            assert(pow4(2 * pairs) == 4 * pow4((2 * pairs - 1) as nat));
        }
    }
}

/// Computes the pairwise Z-order code of an embedding from the two tables.
pub fn z_order_fast_value(embedding: &[u8]) -> (code: u32)
    ensures
        code == z_order_fast_code(embedding@),
{
    let dims_to_use: usize = if embedding.len() <= 16 {
        embedding.len()
    } else {
        16
    };
    let mut result: u32 = 0;
    let mut i: usize = 0;
    while i < dims_to_use
        invariant
            i % 2 == 0,
            i <= dims_to_use + 1,
            dims_to_use <= 16,
            dims_to_use == dims_used(embedding@, 16),
            result == z_order_fast_code_upto(embedding@, dims_to_use as nat, (i / 2) as nat),
        decreases dims_to_use + 1 - i,
    {
        let bx = embedding[i];
        let x: usize = ((bx >> 6) & 0b11) as usize;
        let by: u8 = if i + 1 < dims_to_use {
            embedding[i + 1]
        } else {
            0
        };
        let y: usize = ((by >> 6) & 0b11) as usize;
        assert(x == bx / 64 && y == by / 64) by (bit_vector)
            requires
                x == ((bx >> 6) & 0b11) as usize,
                y == ((by >> 6) & 0b11) as usize,
        ;
        let morton: u32 = MORTON_TABLE_X[x] | MORTON_TABLE_Y[y];
        let shift: u32 = (i * 2) as u32;
        let next: u32 = result | (morton << shift);
        proof {
            let j = (i / 2) as nat;
            lemma_z_order_fast_code_bound(embedding@, dims_to_use as nat, j);
            lemma_shift_pow4(2 * j);
            let weight: u64 = 1u64 << (shift as u64);
            let xv: u32 = x as u32;
            let yv: u32 = y as u32;
            let tx: u32 = MORTON_TABLE_X[x as int];
            let ty: u32 = MORTON_TABLE_Y[y as int];
            let code: u64 = ((xv % 2) + 2 * (yv % 2) + 4 * (xv / 2) + 8 * (yv / 2)) as u64;
            assert(next as u64 == result as u64 + code * weight) by (bit_vector)
                requires
                    (result as u64) < weight,
                    weight == 1u64 << (shift as u64),
                    shift <= 28,
                    xv < 4,
                    yv < 4,
                    tx == (xv % 2) + 4 * (xv / 2),
                    ty == 2 * (yv % 2) + 8 * (yv / 2),
                    morton == tx | ty,
                    code == ((xv % 2) + 2 * (yv % 2) + 4 * (xv / 2) + 8 * (yv / 2)) as u64,
                    next == result | (morton << shift),
            ;
        }
        result = next;
        i = i + 2;
    }
    result
}

/// Encodes the pairwise Z-order code of an embedding, computed from lookup
/// tables, as Q64 text: always eight characters.
pub fn z_order_q64_fast(embedding: &[u8]) -> (encoded: String)
    ensures
        encoded@ == q64_encode_spec(be_bytes(z_order_fast_code(embedding@))),
        encoded@.len() == 8,
{
    let bytes = u32_be_bytes(z_order_fast_value(embedding));
    q64_encode(bytes.as_slice())
}


} // verus!
