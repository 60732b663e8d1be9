//! The encoders: Q64 and the codecs built on it.

pub mod candidates;
pub mod chunks;
pub mod collections;
pub mod heap;
pub mod keys;
pub mod mq64;
pub mod q64;
pub mod selection;
pub mod simhash;
pub mod simhash_safe;
pub mod topk;
pub mod topk_optimized;
pub mod zorder;

pub use mq64::{mq64_decode, mq64_encode, mq64_encode_with_levels};
pub use q64::{q64_decode, q64_encode, q64_encode_to_buffer};
pub use simhash::{simhash_q64, simhash_to_buffer};
pub use simhash_safe::simhash_q64_safe;
pub use topk::top_k_q64;
pub use topk_optimized::{top_k_q64_optimized, top_k_to_buffer};
pub use zorder::{z_order_q64, z_order_to_buffer};
