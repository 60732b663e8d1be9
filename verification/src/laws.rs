//! Laws that hold of the encoders together: how long their outputs are, and
//! that each output is a function of the input alone.

use vstd::prelude::*;
use crate::encoders::mq64::{default_levels, mq64_spec};
use crate::encoders::q64::q64_encode_spec;
use crate::encoders::selection::top_k_spec;
use crate::encoders::simhash::pack_bits_spec;
use crate::encoders::zorder::{be_bytes, z_order_code};

verus! {

/// Length law: Q64 text has two characters for each byte; the top-k text of
/// any embedding has `2 * k` characters; the Z-order text of any embedding,
/// the empty one too, has 8.
pub proof fn lemma_length_law(x: Seq<u8>, k: nat)
    ensures
        q64_encode_spec(x).len() == 2 * x.len(),
        q64_encode_spec(top_k_spec(x, k)).len() == 2 * k,
        q64_encode_spec(be_bytes(z_order_code(x))).len() == 8,
{
}

/// Determinism of the top-k text: whatever two calls on the same embedding
/// and `k` return, they return the same.
pub proof fn lemma_top_k_q64_deterministic(x: Seq<u8>, k: nat, first: Seq<char>, second: Seq<char>)
    requires
        first == q64_encode_spec(top_k_spec(x, k)),
        second == q64_encode_spec(top_k_spec(x, k)),
    ensures
        first == second,
{
}

/// Determinism of the Z-order text: whatever two calls on the same
/// embedding return, they return the same.
pub proof fn lemma_z_order_q64_deterministic(x: Seq<u8>, first: Seq<char>, second: Seq<char>)
    requires
        first == q64_encode_spec(be_bytes(z_order_code(x))),
        second == q64_encode_spec(be_bytes(z_order_code(x))),
    ensures
        first == second,
{
}

/// Determinism of the Mq64 text: whatever two calls on the same data
/// return, they return the same.
pub proof fn lemma_mq64_encode_deterministic(x: Seq<u8>, first: Seq<char>, second: Seq<char>)
    requires
        first == mq64_spec(x, default_levels(x.len())),
        second == mq64_spec(x, default_levels(x.len())),
    ensures
        first == second,
{
}

/// Determinism of the SimHash text: whatever two calls on the same
/// signature bits return, they return the same.
pub proof fn lemma_simhash_q64_deterministic(bits: Seq<bool>, first: Seq<char>, second: Seq<char>)
    requires
        first == q64_encode_spec(pack_bits_spec(bits)),
        second == q64_encode_spec(pack_bits_spec(bits)),
    ensures
        first == second,
{
}

} // verus!
