//! A parallel, order-preserving streaming digest pipeline core.
//!
//! The input stream is cut into fixed-size, sequence-numbered blocks;
//! each block is hashed independently with a keyed 128-bit hash whose
//! input starts with the block's sequence number; the per-block digests
//! are folded by exclusive-or into one combined digest plus a total byte
//! length.  Because every per-block digest already encodes its position,
//! the fold is order-independent, and the combined result is the same
//! whether blocks are hashed one by one or out of order across a worker
//! pool.

pub mod sip;
pub mod digest;
pub mod reducer;
pub mod stream;
pub mod config;
pub mod producer;
pub mod pool;
