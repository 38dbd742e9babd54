//! What holds of filling, encoding and decoding a block, whatever the entries.

pub mod capacity;
pub mod corruption;
pub mod round_trip;
pub mod spans;
