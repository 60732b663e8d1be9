//! Encoder variants for the instruction sets a processor may offer, and the
//! rule that picks one. Every variant computes what the plain encoder
//! computes.

pub mod dispatch;
pub mod q64_simd;
pub mod topk_simd;
