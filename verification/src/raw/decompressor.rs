//! Strip decompressors, one per vendor coding.

pub mod arw2;
