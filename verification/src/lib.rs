//! Decoder for Sony ARW raw-image files built on the TIFF container format.
//!
//! The crate is organised after the data flow: a [`tiff::stream::ByteStream`]
//! gives positioned, endianness-aware access to the file bytes; a
//! [`tiff::parser::Parser`] turns them into a [`tiff::Tiff`] directory tree;
//! and the decoders under [`raw`] reconstruct the 16-bit sensor sample plane
//! from the vendor bit-packed strip, returning an [`img::RawImage`].

pub mod error;
pub mod img;
pub mod raw;
pub mod stream;
pub mod tiff;

use crate::error::Error;
use crate::img::RawImage;
use crate::raw::decoder::arw::{acceptable_spec, arw_decode_err, arw_decode_matches, ArwDecoder};
use crate::tiff::parser::{parse_err, parse_ok, Parser};
use crate::tiff::stream::ByteStream;
use crate::tiff::Tiff;
use vstd::prelude::*;

verus! {

/// What decoding a whole byte source returns: the stream-opening errors,
/// then the parse errors, then (for a parse result, which the byte source
/// determines) the maker check and the ARW decode itself.
pub open spec fn decode_raw_spec(data: Seq<u8>, r: Result<RawImage, Error>) -> bool {
    if !ByteStream::valid_magic(data) {
        r == Err::<RawImage, Error>(
            if data.len() < 2 {
                Error::IoError
            } else {
                Error::FormatError
            },
        )
    } else {
        let en = ByteStream::magic_order(data);
        match parse_err(data, en, 0) {
            Some(e) => r == Err::<RawImage, Error>(e),
            None => exists|t: Tiff|
                #[trigger] parse_ok(data, en, 0, t) && if !acceptable_spec(t) {
                    r == Err::<RawImage, Error>(Error::FormatError)
                } else {
                    match arw_decode_err(data, en, t) {
                        Some(e) => r == Err::<RawImage, Error>(e),
                        None => r is Ok && arw_decode_matches(data, en, t, r.unwrap()),
                    }
                },
        }
    }
}

/// Decode one raw file held in memory: open the byte stream, parse the
/// directory tree, check the maker is `SONY`, and decompress the strip.
pub fn decode_raw(data: Vec<u8>) -> (r: Result<RawImage, Error>)
    ensures
        decode_raw_spec(data@, r),
{
    let stream: ByteStream = match ByteStream::open(data) {
        Ok(s) => s,
        Err(e) => {
            return Err(e);
        },
    };
    let mut parser: Parser = Parser::new(stream);
    let tiff: Tiff = match parser.parse() {
        Ok(t) => t,
        Err(e) => {
            return Err(e);
        },
    };
    let stream: ByteStream = parser.into_stream();
    let mut decoder: ArwDecoder = ArwDecoder::new(stream, tiff);
    if !decoder.is_acceptable() {
        return Err(Error::FormatError);
    }
    decoder.decode()
}

} // verus!
