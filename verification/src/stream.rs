//! Bit-level access on top of a byte stream.

pub mod bit_stream;
