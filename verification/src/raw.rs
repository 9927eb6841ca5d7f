//! Raw-image decoding: the ARW decoder that validates a parsed file and the
//! bit-level decompressor that reconstructs its sample plane.

pub mod decoder;
pub mod decompressor;
