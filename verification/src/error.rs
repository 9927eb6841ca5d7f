//! The error taxonomy of the decoder. Every failure surfaces to the caller as
//! one of these variants; nothing is silently defaulted or retried.

use crate::tiff::data_type::DataType;
use crate::tiff::Compression;
use vstd::prelude::*;

verus! {

/// A field the ARW decoder cannot work without.
#[derive(Clone, Copy, PartialEq, Eq, Structural, Debug)]
pub enum RequiredField {
    ImageWidth,
    ImageLength,
    StripOffsets,
    StripByteCounts,
    BitsPerSample,
}

/// Everything that can go wrong while opening, parsing or decoding a file.
#[derive(Clone, Copy, PartialEq, Eq, Debug)]
pub enum Error {
    /// The byte-order mark or the `42` validity marker is wrong: the input is
    /// not a TIFF-family container at all.
    FormatError,
    /// A read or seek went past the end of the byte source.
    IoError,
    /// The named tag's declared type is not among the types its decoder
    /// accepts; carries the tag number and the declared type.
    TypeMismatch(u16, DataType),
    /// A fixed-arity tag (carried as the tag number) has the wrong element
    /// count.
    FieldCountMismatch(u16),
    /// A tag required for decoding is absent from the strip directory.
    MissingField(RequiredField),
    /// No directory in the file declares strip data.
    NoStripData,
    /// The compression code is not the Sony ARW code; carries what was
    /// declared, if anything.
    UnsupportedCompression(Option<Compression>),
    /// More than one strip is declared; this decoder handles single-strip
    /// files only.
    MultipleStripsUnsupported,
    /// The strip offset and byte-count arrays have different lengths.
    StripCountMismatch,
    /// The strip's byte count does not match the sample plane's size: the
    /// file uses the older ARW packing, which this decoder rejects.
    LegacyFormatUnsupported,
    /// The encoded data breaks an invariant of the ARW2 row coding, or the
    /// declared geometry cannot tile into its 16-sample groups.
    InvariantViolation,
}

} // verus!
