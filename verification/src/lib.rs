//! Position-safe encoders that turn byte embeddings into printable tokens.
//!
//! * [`encoders::q64`] renders bytes as text in which the character at
//!   position `p` comes from alphabet `p mod 4`, and reads such text back.
//! * [`encoders::mq64`] joins the Q64 encodings of ever longer prefixes.
//! * [`encoders::simhash`] packs the sign bits of random projections.
//! * [`encoders::topk`] and [`encoders::topk_optimized`] list the indices of
//!   the `k` largest bytes; [`encoders::selection`] says what that means.
//! * [`encoders::zorder`] lays the leading bits of the first dimensions side
//!   by side in one 32-bit code.
//! * [`error`] holds the errors, the bounds on inputs and lenient helpers.
//!
//! Every function states what it returns as a function of its arguments, and
//! [`laws`] collects what holds of the encoders together.

pub mod capi;
pub mod encoders;
pub mod error;
pub mod laws;
pub mod parallel;
pub mod perf;
pub mod simd;
pub mod text;

pub use encoders::{mq64_decode, mq64_encode, q64_decode, q64_encode};
pub use error::{UubedError, UubedResult};
