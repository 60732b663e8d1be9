//! SimHash signatures. A signature has one bit for each hyperplane, set when
//! the embedding lies on the non-negative side of the plane. The sides are
//! worked out by the caller; here the bits are packed into bytes, eight to a
//! byte with the first bit in the most significant place, and rendered as
//! Q64.

use vstd::prelude::*;
use crate::encoders::q64::{
    buffer_too_small_text, q64_bytes, q64_encode, q64_encode_spec, q64_encode_to_buffer,
    Q64Error,
};

verus! {

/// The value of the `i`-th bit of a byte, counted from the most significant.
pub open spec fn msb_weight(i: int) -> int {
    if i == 0 {
        128
    } else if i == 1 {
        64
    } else if i == 2 {
        32
    } else if i == 3 {
        16
    } else if i == 4 {
        8
    } else if i == 5 {
        4
    } else if i == 6 {
        2
    } else {
        1
    }
}

/// What the first `i` bits of byte `b` add up to: bit `8b + j` of the
/// signature counts `msb_weight(j)` if it is set. Bits behind the end of the
/// signature count as unset.
pub open spec fn packed_partial(bits: Seq<bool>, b: int, i: int) -> int
    decreases i,
{
    if i <= 0 {
        0
    } else {
        packed_partial(bits, b, i - 1) + if 8 * b + i - 1 < bits.len() && bits[8 * b + i - 1] {
            msb_weight(i - 1)
        } else {
            0
        }
    }
}

/// Byte `b` of the packed signature.
pub open spec fn packed_byte(bits: Seq<bool>, b: int) -> u8 {
    packed_partial(bits, b, 8) as u8
}

/// The packed signature: one byte for every eight bits, the last one filled
/// up with unset bits.
pub open spec fn pack_bits_spec(bits: Seq<bool>) -> Seq<u8> {
    Seq::new((bits.len() + 7) / 8, |b: int| packed_byte(bits, b))
}

/// Packs the bits of a signature into bytes, most significant bit first.
pub fn pack_bits(bits: &[bool]) -> (bytes: Vec<u8>)
    ensures
        bytes@ == pack_bits_spec(bits@),
        bytes@.len() == (bits@.len() + 7) / 8,
{
    let len = bits.len();
    let full = len / 8;
    let count = if len % 8 == 0 {
        full
    } else {
        full + 1
    };
    let mut bytes: Vec<u8> = Vec::new();
    let mut b: usize = 0;
    while b < count
        invariant
            b <= count,
            len == bits@.len(),
            count == (len + 7) / 8,
            bytes@ == pack_bits_spec(bits@).take(b as int),
        decreases count - b,
    {
        let start = b * 8;
        let mut byte: u8 = 0;
        let mut i: usize = 0;
        assert(0u8 & (0xFFu8 >> 0u8) == 0) by (bit_vector);
        while i < 8 && start + i < len
            invariant
                i <= 8,
                start == b * 8,
                start < len,
                len == bits@.len(),
                byte == packed_partial(bits@, b as int, i as int),
                byte & (0xFFu8 >> (i as u8)) == 0 || i == 8,
            decreases 8 - i,
        {
            let shift: u8 = (7 - i) as u8;
            if bits[start + i] {
                let place: u8 = 1u8 << shift;
                let next: u8 = byte | place;
                assert(next == byte + place && place == msb_weight(i as int) && (next & (0xFFu8 >> (
                (i + 1) as u8)) == 0 || i == 7)) by (bit_vector)
                    requires
                        i < 8,
                        shift == (7 - i) as u8,
                        place == 1u8 << shift,
                        next == byte | place,
                        byte & (0xFFu8 >> (i as u8)) == 0,
                ;
                byte = next;
            } else {
                assert(byte & (0xFFu8 >> ((i + 1) as u8)) == 0 || i == 7) by (bit_vector)
                    requires
                        i < 8,
                        byte & (0xFFu8 >> (i as u8)) == 0,
                ;
            }
            i = i + 1;
        }
        proof {
            lemma_packed_rest(bits@, b as int, i as int);
        }
        bytes.push(byte);
        b = b + 1;
    }
    bytes
}

/// Bits behind the end of the signature add nothing to a byte.
pub proof fn lemma_packed_rest(bits: Seq<bool>, b: int, i: int)
    requires
        0 <= i <= 8,
        i == 8 || 8 * b + i >= bits.len(),
    ensures
        packed_partial(bits, b, 8) == packed_partial(bits, b, i),
    decreases 8 - i,
{
    if i < 8 {
        lemma_packed_rest(bits, b, i + 1);
    }
}

/// Renders a signature as Q64 text: two characters for every eight bits
/// begun.
pub fn simhash_q64(bits: &[bool]) -> (encoded: String)
    ensures
        encoded@ == q64_encode_spec(pack_bits_spec(bits@)),
        encoded@.len() == 2 * ((bits@.len() + 7) / 8),
{
    let bytes = pack_bits(bits);
    q64_encode(bytes.as_slice())
}

/// Renders a signature as Q64 into the front of `output`, and returns the
/// number of bytes written: two for every eight bits begun. A shorter buffer
/// is refused before anything is written.
pub fn simhash_to_buffer(bits: &[bool], output: &mut [u8]) -> (result: Result<usize, Q64Error>)
    ensures
        final(output)@.len() == old(output)@.len(),
        result is Ok <==> old(output)@.len() >= 2 * ((bits@.len() + 7) / 8),
        result matches Ok(written) ==> written == 2 * ((bits@.len() + 7) / 8) && final(output)@
            == q64_bytes(pack_bits_spec(bits@)) + old(output)@.skip(
            2 * ((bits@.len() + 7) / 8) as int,
        ),
        result matches Err(e) ==> final(output)@ == old(output)@ && e.message@
            == buffer_too_small_text(2 * ((bits@.len() + 7) / 8) as nat, old(output)@.len()),
{
    let bytes = pack_bits(bits);
    q64_encode_to_buffer(bytes.as_slice(), output)
}

/// Does what [`simhash_to_buffer`] does, with the error given as plain text.
pub fn simhash_q64_to_buffer(bits: &[bool], output: &mut [u8]) -> (result: Result<usize, String>)
    ensures
        final(output)@.len() == old(output)@.len(),
        result is Ok <==> old(output)@.len() >= 2 * ((bits@.len() + 7) / 8),
        result matches Ok(written) ==> written == 2 * ((bits@.len() + 7) / 8) && final(output)@
            == q64_bytes(pack_bits_spec(bits@)) + old(output)@.skip(
            2 * ((bits@.len() + 7) / 8) as int,
        ),
        result matches Err(text) ==> final(output)@ == old(output)@ && text@
            == buffer_too_small_text(2 * ((bits@.len() + 7) / 8) as nat, old(output)@.len()),
{
    match simhash_to_buffer(bits, output) {
        Ok(written) => Ok(written),
        Err(e) => Err(e.message),
    }
}

/// Bit `p` of a packed signature.
pub open spec fn bit_at(bytes: Seq<u8>, p: int) -> bool {
    (bytes[p / 8] as int / msb_weight(p % 8)) % 2 == 1
}

/// A byte holds what its eight bits add up to, and no more than 255.
proof fn lemma_packed_sum(bits: Seq<bool>, b: int)
    ensures
        packed_partial(bits, b, 8) == packed_partial(bits, b, 0) + (if 8 * b < bits.len()
            && bits[8 * b] {
            128int
        } else {
            0
        }) + (if 8 * b + 1 < bits.len() && bits[8 * b + 1] {
            64int
        } else {
            0
        }) + (if 8 * b + 2 < bits.len() && bits[8 * b + 2] {
            32int
        } else {
            0
        }) + (if 8 * b + 3 < bits.len() && bits[8 * b + 3] {
            16int
        } else {
            0
        }) + (if 8 * b + 4 < bits.len() && bits[8 * b + 4] {
            8int
        } else {
            0
        }) + (if 8 * b + 5 < bits.len() && bits[8 * b + 5] {
            4int
        } else {
            0
        }) + (if 8 * b + 6 < bits.len() && bits[8 * b + 6] {
            2int
        } else {
            0
        }) + (if 8 * b + 7 < bits.len() && bits[8 * b + 7] {
            1int
        } else {
            0
        }),
{
    reveal_with_fuel(packed_partial, 9);
}

/// Nothing is lost in packing: bit `p` of the packed signature is bit `p` of
/// the signature.
pub proof fn lemma_packed_bit(bits: Seq<bool>, p: int)
    requires
        0 <= p < bits.len(),
    ensures
        bit_at(pack_bits_spec(bits), p) == bits[p],
{
    lemma_packed_sum(bits, p / 8);
}

/// Signatures of the same length that pack to the same bytes are the same.
pub proof fn lemma_pack_bits_injective(a: Seq<bool>, b: Seq<bool>)
    requires
        a.len() == b.len(),
        pack_bits_spec(a) == pack_bits_spec(b),
    ensures
        a == b,
{
    assert forall|p: int| 0 <= p < a.len() implies a[p] == b[p] by {
        lemma_packed_bit(a, p);
        lemma_packed_bit(b, p);
    }
    assert(a =~= b);
}


} // verus!
