//! A fixed-capacity data block of key-value entries: the atomic unit written
//! to a sorted-string-table file.
//!
//! A [`Block`] is filled by `add`, turned into bytes by `encode` and read back
//! by `decode`.
//!
//! - [`layout`] states the byte layout over sequences: what a block encodes
//!   to, and what a buffer decodes to.
//! - [`wire`] holds the little-endian fields and the additive checksum.
//! - [`block`] holds the block itself; each of its functions is verified
//!   against the layout.
//! - [`laws`] holds what follows for every block: encoding and decoding undo
//!   each other, a block takes exactly as many entries as fit, and a changed
//!   byte is detected.
//! - [`lemmas`] and [`consistency`] hold the facts that the proofs rest on.

pub mod wire;
pub mod layout;
pub mod lemmas;
pub mod consistency;
pub mod laws;
pub mod block;

pub use block::Block;
pub use layout::{DecodeError, BLOCKSIZE, SIZE_AVAILABLE};
