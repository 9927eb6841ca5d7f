//! Decoders that turn a parsed file and its byte stream into a sample
//! plane.

pub mod arw;

pub use crate::img::RawImage;
pub use arw::ArwDecoder;

use crate::error::Error;
use vstd::prelude::*;

verus! {

/// A raw decoder: it recognises the files it can handle and decodes them.
pub trait RawDecoder {
    /// Whether this decoder handles the parsed file.
    fn is_acceptable(&self) -> bool;

    /// Decode the file into a sample plane.
    fn decode(&mut self) -> Result<RawImage, Error>;
}

} // verus!
