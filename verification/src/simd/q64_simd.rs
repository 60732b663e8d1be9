//! Q64 encoding in the shape that suits each instruction set: sixteen bytes
//! are split into their nibbles at a time, then turned into symbols. The
//! code is portable; the shape leaves the vector instructions to the
//! compiler.

use vstd::prelude::*;
use crate::encoders::q64::{q64_encode, q64_encode_spec, symbol, ALPHABETS};
use crate::simd::dispatch::SimdLevel;

verus! {

/// The number of bytes split into nibbles at a time.
pub const LANES: usize = 16;

/// Encodes with the variant written for the given level. Whatever the
/// level, the result is the Q64 encoding of `data`.
pub fn q64_encode_simd_dispatch(data: &[u8], level: SimdLevel) -> (encoded: String)
    ensures
        encoded@ == q64_encode_spec(data@),
        encoded@.len() == 2 * data@.len(),
{
    match level {
        SimdLevel::Avx512 => q64_encode_avx512(data),
        SimdLevel::Avx2 => q64_encode_avx2(data),
        SimdLevel::Sse41 => q64_encode_sse2(data),
        SimdLevel::Sse2 => q64_encode_sse2(data),
        SimdLevel::Neon => q64_encode_neon(data),
        SimdLevel::Scalar => q64_encode_scalar(data),
    }
}

/// The plain encoder, byte by byte.
pub fn q64_encode_scalar(data: &[u8]) -> (encoded: String)
    ensures
        encoded@ == q64_encode_spec(data@),
        encoded@.len() == 2 * data@.len(),
{
    q64_encode(data)
}

/// The variant for AVX-512, which is the AVX2 variant.
pub fn q64_encode_avx512(data: &[u8]) -> (encoded: String)
    ensures
        encoded@ == q64_encode_spec(data@),
        encoded@.len() == 2 * data@.len(),
{
    q64_encode_avx2(data)
}

/// The variant for AVX2: inputs under 32 bytes are encoded byte by byte,
/// longer ones sixteen bytes at a time with the rest byte by byte.
pub fn q64_encode_avx2(data: &[u8]) -> (encoded: String)
    ensures
        encoded@ == q64_encode_spec(data@),
        encoded@.len() == 2 * data@.len(),
{
    let mut output = String::new();
    let alphabets = get_q64_alphabets();
    if data.len() < 32 {
        let mut idx: usize = 0;
        while idx < data.len()
            invariant
                idx <= data@.len(),
                alphabets@ == ALPHABETS@,
                output@ == q64_encode_spec(data@).take(2 * idx),
            decreases data@.len() - idx,
        {
            encode_byte_scalar(data[idx], idx, &mut output, &alphabets);
            idx = idx + 1;
        }
        return output;
    }
    encode_lanes(data, &mut output, &alphabets);
    output
}

/// The variant for SSE2: sixteen bytes at a time, the rest byte by byte.
pub fn q64_encode_sse2(data: &[u8]) -> (encoded: String)
    ensures
        encoded@ == q64_encode_spec(data@),
        encoded@.len() == 2 * data@.len(),
{
    let mut output = String::new();
    let alphabets = get_q64_alphabets();
    encode_lanes(data, &mut output, &alphabets);
    output
}

/// The variant for NEON: sixteen bytes at a time, the rest byte by byte.
pub fn q64_encode_neon(data: &[u8]) -> (encoded: String)
    ensures
        encoded@ == q64_encode_spec(data@),
        encoded@.len() == 2 * data@.len(),
{
    let mut output = String::new();
    let alphabets = get_q64_alphabets();
    encode_lanes(data, &mut output, &alphabets);
    output
}

/// Appends the encoding of `data`: full blocks of sixteen bytes are split
/// into high and low nibbles first and turned into symbols after, and the
/// bytes behind the last full block are encoded one by one.
pub fn encode_lanes(data: &[u8], output: &mut String, alphabets: &[u8; 64])
    requires
        alphabets@ == ALPHABETS@,
    ensures
        final(output)@ == old(output)@ + q64_encode_spec(data@),
{
    let len = data.len();
    let blocks = len / LANES;
    let mut block: usize = 0;
    while block < blocks
        invariant
            block <= blocks,
            len == data@.len(),
            blocks == data@.len() / 16,
            alphabets@ == ALPHABETS@,
            output@ == old(output)@ + q64_encode_spec(data@).take(32 * block),
        decreases blocks - block,
    {
        let start = block * LANES;
        let mut hi_nibbles: [u8; 16] = [0;16];
        let mut lo_nibbles: [u8; 16] = [0;16];
        let mut i: usize = 0;
        while i < LANES
            invariant
                i <= 16,
                start == block * 16,
                start + 16 <= data@.len(),
                forall|j: int| 0 <= j < i ==> #[trigger] hi_nibbles@[j] == data@[start + j] / 16,
                forall|j: int| 0 <= j < i ==> #[trigger] lo_nibbles@[j] == data@[start + j] % 16,
            decreases 16 - i,
        {
            let byte = data[start + i];
            let hi = (byte >> 4) & 0xF;
            let lo = byte & 0xF;
            assert(hi == byte / 16 && lo == byte % 16) by (bit_vector)
                requires
                    hi == (byte >> 4) & 0xF,
                    lo == byte & 0xF,
            ;
            hi_nibbles[i] = hi;
            lo_nibbles[i] = lo;
            i = i + 1;
        }
        let mut i: usize = 0;
        while i < LANES
            invariant
                i <= 16,
                start == block * 16,
                start + 16 <= data@.len(),
                alphabets@ == ALPHABETS@,
                forall|j: int| 0 <= j < 16 ==> #[trigger] hi_nibbles@[j] == data@[start + j] / 16,
                forall|j: int| 0 <= j < 16 ==> #[trigger] lo_nibbles@[j] == data@[start + j] % 16,
                output@ == old(output)@ + q64_encode_spec(data@).take(32 * block + 2 * i),
            decreases 16 - i,
        {
            let hi = hi_nibbles[i] as usize;
            let lo = lo_nibbles[i] as usize;
            let pos: usize = i * 2;
            let next: usize = pos + 1;
            let even: usize = pos & 3;
            let odd: usize = next & 3;
            assert(even == pos % 4 && odd == next % 4) by (bit_vector)
                requires
                    even == pos & 3,
                    odd == next & 3,
            ;
            assert((2 * (start + i)) % 4 == even && (2 * (start + i) + 1) % 4 == odd) by {
                assert((2 * (block * 16 + i)) % 4 == (2 * i) % 4) by (nonlinear_arith);
                assert((2 * (block * 16 + i) + 1) % 4 == (2 * i + 1) % 4) by (nonlinear_arith);
            }
            output.push(alphabets[even * 16 + hi] as char);
            output.push(alphabets[odd * 16 + lo] as char);
            i = i + 1;
        }
        block = block + 1;
    }
    let mut idx: usize = blocks * LANES;
    while idx < data.len()
        invariant
            blocks * 16 <= idx <= data@.len(),
            alphabets@ == ALPHABETS@,
            output@ == old(output)@ + q64_encode_spec(data@).take(2 * idx),
        decreases data@.len() - idx,
    {
        encode_byte_scalar(data[idx], idx, output, alphabets);
        idx = idx + 1;
    }
}

/// Appends the two symbols of one byte, found in the given tables.
pub fn encode_byte_scalar(byte: u8, byte_idx: usize, output: &mut String, alphabets: &[u8; 64])
    requires
        alphabets@ == ALPHABETS@,
    ensures
        final(output)@ == old(output)@.push(
            symbol((2 * byte_idx) % 4, byte as int / 16) as char,
        ).push(symbol((2 * byte_idx + 1) % 4, byte as int % 16) as char),
{
    let hi_nibble = (byte >> 4) & 0xF;
    let lo_nibble = byte & 0xF;
    let half: usize = byte_idx & 1;
    assert(hi_nibble == byte / 16 && lo_nibble == byte % 16) by (bit_vector)
        requires
            hi_nibble == (byte >> 4) & 0xF,
            lo_nibble == byte & 0xF,
    ;
    assert(half == byte_idx % 2) by (bit_vector)
        requires
            half == byte_idx & 1,
    ;
    let even = 2 * half;
    let odd = even + 1;
    assert((2 * byte_idx) % 4 == even && (2 * byte_idx + 1) % 4 == odd) by (nonlinear_arith)
        requires
            half == byte_idx % 2,
            even == 2 * half,
            odd == even + 1,
    ;
    output.push(alphabets[even * 16 + hi_nibble as usize] as char);
    output.push(alphabets[odd * 16 + lo_nibble as usize] as char);
}

/// The four alphabets in one table, sixteen symbols each.
pub fn get_q64_alphabets() -> (table: [u8; 64])
    ensures
        table@ == ALPHABETS@,
{
    ALPHABETS
}

} // verus!
