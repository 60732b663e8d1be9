//! The SimHash entry points for callers that keep their projection state to
//! themselves, one per thread: the signature as bytes, and as Q64 text.

use vstd::prelude::*;
use crate::encoders::q64::{q64_encode, q64_encode_spec};
use crate::encoders::simhash::{pack_bits, pack_bits_spec};

verus! {

/// The signature as bytes: eight bits to a byte, most significant first, the
/// last byte filled up with unset bits.
pub fn simhash(bits: &[bool]) -> (hash: Vec<u8>)
    ensures
        hash@ == pack_bits_spec(bits@),
        hash@.len() == (bits@.len() + 7) / 8,
{
    pack_bits(bits)
}

/// The signature as Q64 text: two characters for every eight bits begun.
pub fn simhash_q64_safe(bits: &[bool]) -> (encoded: String)
    ensures
        encoded@ == q64_encode_spec(pack_bits_spec(bits@)),
        encoded@.len() == 2 * ((bits@.len() + 7) / 8),
{
    let hash = simhash(bits);
    q64_encode(hash.as_slice())
}

} // verus!
