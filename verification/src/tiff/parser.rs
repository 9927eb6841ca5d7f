//! The directory-tree parser: TIFF header, IFD chain, and the per-tag entry
//! decoders with strict type validation.
//!
//! The spec functions in this module say, byte for byte, what a successful
//! parse returns and which error a failing one raises; the executable parser
//! is proved against them. `chain_err`/`entry_err` mirror the exact order in
//! which the parser reads and validates, so each error is pinned to the
//! first condition that fails.

use crate::error::Error;
use crate::tiff::data_type::{data_type_of, DataType};
use crate::tiff::stream::{rational_at, u16_at, u32_at, utf8_lossy_of, ByteOrder, ByteStream};
use crate::tiff::{
    CFAPattern, Compression, Entry, ImageFileDirectory, Orientation, PhotometricInterpretation,
    PlanarConfiguration, ResolutionUnit, Tiff, YCbCrPositioning,
};
use vstd::prelude::*;

verus! {

/// Deepest sub-directory nesting the parser will follow. A conforming file
/// nests one or two levels; the bound makes parsing of hostile files
/// terminate.
pub const MAX_IFD_DEPTH: u32 = 16;

/// Longest directory chain the parser will follow at one level. The bound
/// rejects cyclic next-offset links, which would otherwise never terminate.
pub const MAX_IFD_COUNT: u32 = 4096;

/// The compression scheme a tag-259 value slot denotes.
pub open spec fn compression_of(v: u32) -> Compression {
    if v == 1 {
        Compression::NoCompression
    } else if v == 6 {
        Compression::OldJpeg
    } else if v == 7 {
        Compression::BaselineJpeg
    } else if v == 8 {
        Compression::AdobeDeflate
    } else if v == 32767 {
        Compression::SonyARW
    } else {
        Compression::Undefined(v as u16)
    }
}

/// The photometric interpretation a tag-262 value slot denotes.
pub open spec fn photometric_of(v: u32) -> PhotometricInterpretation {
    if v == 1 {
        PhotometricInterpretation::Grayscale
    } else if v == 2 {
        PhotometricInterpretation::RGB
    } else if v == 6 {
        PhotometricInterpretation::YCbCr
    } else if v == 32803 {
        PhotometricInterpretation::ColorFilterArray
    } else {
        PhotometricInterpretation::Undefined(v as u16)
    }
}

/// The orientation a tag-274 value slot denotes.
pub open spec fn orientation_of(v: u32) -> Orientation {
    if v == 1 {
        Orientation::Rotate0
    } else if v == 3 {
        Orientation::Rotate180
    } else if v == 6 {
        Orientation::Rotate270
    } else if v == 8 {
        Orientation::Rotate90
    } else {
        Orientation::Undefined(v as u16)
    }
}

/// The planar configuration a tag-284 value slot denotes.
pub open spec fn planar_of(v: u32) -> PlanarConfiguration {
    if v == 1 {
        PlanarConfiguration::Chunky
    } else if v == 2 {
        PlanarConfiguration::Planar
    } else {
        PlanarConfiguration::Unknown(v as u16)
    }
}

/// The resolution unit a tag-296 value slot denotes.
pub open spec fn resolution_unit_of(v: u32) -> ResolutionUnit {
    if v == 1 {
        ResolutionUnit::Unknown
    } else if v == 2 {
        ResolutionUnit::Inch
    } else if v == 3 {
        ResolutionUnit::Centimeter
    } else {
        ResolutionUnit::Undefined(v as u16)
    }
}

/// The chroma positioning a tag-531 value slot denotes.
pub open spec fn ycbcr_positioning_of(v: u32) -> YCbCrPositioning {
    if v == 2 {
        YCbCrPositioning::CoSited
    } else {
        YCbCrPositioning::Undefined(v as u16)
    }
}

/// The color-filter cell a tag-33422 byte denotes.
pub open spec fn cfa_of(v: u8) -> CFAPattern {
    if v == 0 {
        CFAPattern::R
    } else if v == 1 {
        CFAPattern::G
    } else if v == 2 {
        CFAPattern::B
    } else {
        CFAPattern::Unknown(v)
    }
}

/// Whether a declared field type is among the types the given tag's decoder
/// accepts. Tags without a dedicated decoder accept anything: they are
/// preserved opaquely.
pub open spec fn allowed_type(tag: u16, ty: DataType) -> bool {
    match tag {
        254u16 => ty == DataType::U32,
        256u16 | 257u16 => ty == DataType::U16 || ty == DataType::U32,
        258u16 => ty == DataType::U16,
        259u16 => ty == DataType::U16,
        262u16 => ty == DataType::U16,
        270u16 | 271u16 | 272u16 | 305u16 | 306u16 => ty == DataType::Ascii,
        273u16 | 279u16 => ty == DataType::U16 || ty == DataType::U32,
        274u16 => ty == DataType::U16,
        277u16 => ty == DataType::U16,
        278u16 => ty == DataType::U16 || ty == DataType::U32,
        282u16 | 283u16 => ty == DataType::Rational,
        284u16 => ty == DataType::U16,
        296u16 => ty == DataType::U16,
        318u16 | 319u16 => ty == DataType::Rational,
        330u16 => ty == DataType::U32,
        513u16 | 514u16 => ty == DataType::U32,
        529u16 => ty == DataType::Rational,
        531u16 => ty == DataType::U16,
        700u16 => ty == DataType::U8,
        33421u16 => ty == DataType::U16,
        33422u16 => ty == DataType::U8,
        34665u16 => ty == DataType::U32,
        50706u16 | 50740u16 => ty == DataType::U8,
        _ => true,
    }
}

/// Tag number of the entry record starting at `p`.
pub open spec fn e_tag(d: Seq<u8>, en: ByteOrder, p: int) -> u16 {
    u16_at(d, en, p)
}

/// Declared field type of the entry record starting at `p`.
pub open spec fn e_ty(d: Seq<u8>, en: ByteOrder, p: int) -> DataType {
    data_type_of(u16_at(d, en, p + 2))
}

/// Declared element count of the entry record starting at `p`.
pub open spec fn e_count(d: Seq<u8>, en: ByteOrder, p: int) -> u32 {
    u32_at(d, en, p + 4)
}

/// The 4-byte value slot of the entry record starting at `p`: either the
/// value itself or the offset where it is stored.
pub open spec fn e_data(d: Seq<u8>, en: ByteOrder, p: int) -> u32 {
    u32_at(d, en, p + 8)
}

/// Where an ASCII or byte-array field's elements live: at the offset held in
/// the value slot when more than 4 bytes are declared, else inline in the
/// slot itself.
pub open spec fn u8s_src(d: Seq<u8>, en: ByteOrder, p: int) -> int {
    if e_count(d, en, p) > 4 {
        e_data(d, en, p) as int
    } else {
        p + 8
    }
}

/// Where a u16-array field's elements live: indirect above 2 elements.
pub open spec fn u16s_src(d: Seq<u8>, en: ByteOrder, p: int) -> int {
    if e_count(d, en, p) > 2 {
        e_data(d, en, p) as int
    } else {
        p + 8
    }
}

/// Where a u32-array field's elements live: indirect above 1 element.
pub open spec fn u32s_src(d: Seq<u8>, en: ByteOrder, p: int) -> int {
    if e_count(d, en, p) > 1 {
        e_data(d, en, p) as int
    } else {
        p + 8
    }
}

/// Declared entry count of the directory starting at `p`.
pub open spec fn dir_count(d: Seq<u8>, en: ByteOrder, p: int) -> u16 {
    u16_at(d, en, p)
}

/// Byte position of entry `i` of the directory starting at `p`.
pub open spec fn entry_pos(p: int, i: int) -> int {
    p + 2 + 12 * i
}

/// The next-directory offset stored after the entries of the directory at
/// `p`; 0 ends the chain.
pub open spec fn dir_next_pos(d: Seq<u8>, en: ByteOrder, p: int) -> int {
    u32_at(d, en, p + 2 + 12 * (dir_count(d, en, p) as int)) as int
}

/// Position of the `k`-th directory of the chain starting at `p0`, following
/// the next-offset links.
pub open spec fn chain_pos(d: Seq<u8>, en: ByteOrder, p0: int, k: int) -> int
    decreases k,
{
    if k <= 0 {
        p0
    } else {
        dir_next_pos(d, en, chain_pos(d, en, p0, k - 1))
    }
}

/// How many directories the chain starting at `p0` holds before a zero link,
/// following at most `fuel` links.
pub open spec fn chain_len(d: Seq<u8>, en: ByteOrder, p0: int, fuel: nat) -> nat
    decreases fuel,
{
    if p0 == 0 || fuel == 0 {
        0
    } else {
        1 + chain_len(d, en, dir_next_pos(d, en, p0), (fuel - 1) as nat)
    }
}

/// The entry value decoded from the record at `p` is exactly `e`. `depth`
/// bounds the remaining sub-directory nesting.
pub open spec fn entry_ok(d: Seq<u8>, en: ByteOrder, p: int, depth: nat, e: Entry) -> bool
    decreases depth, 0int, 0int, 0int,
{
    let tag = e_tag(d, en, p);
    let ty = e_ty(d, en, p);
    let count = e_count(d, en, p);
    let data = e_data(d, en, p);
    match tag {
        254u16 => e == Entry::NewSubFileType { is_thumbnail: data & 1 == 1 },
        256u16 => e == Entry::ImageWidth(data),
        257u16 => e == Entry::ImageLength(data),
        258u16 => e matches Entry::BitsPerSample(v) && v@.len() == count && (forall|i: int|
            0 <= i < count ==> v@[i] == u16_at(d, en, u16s_src(d, en, p) + 2 * i)),
        259u16 => e == Entry::Compression(compression_of(data)),
        262u16 => e == Entry::PhotometricInterpretation(photometric_of(data)),
        270u16 => e matches Entry::ImageDescription(s) && s@ == ascii_val(d, en, p),
        271u16 => e matches Entry::Make(s) && s@ == ascii_val(d, en, p),
        272u16 => e matches Entry::Model(s) && s@ == ascii_val(d, en, p),
        273u16 => e matches Entry::StripOffsets(v) && v@.len() == count && (forall|i: int|
            0 <= i < count ==> v@[i] == u16_or_u32_elem(d, en, p, i)),
        274u16 => e == Entry::Orientation(orientation_of(data)),
        277u16 => e == Entry::SamplesPerPixel(data as u16),
        278u16 => e == Entry::RowsPerStrip(data),
        279u16 => e matches Entry::StripByteCounts(v) && v@.len() == count && (forall|i: int|
            0 <= i < count ==> v@[i] == u16_or_u32_elem(d, en, p, i)),
        282u16 => e == Entry::XResolution(rational_at(d, en, data as int)),
        283u16 => e == Entry::YResolution(rational_at(d, en, data as int)),
        284u16 => e == Entry::PlanarConfiguration(planar_of(data)),
        296u16 => e == Entry::ResolutionUnit(resolution_unit_of(data)),
        305u16 => e matches Entry::Software(s) && s@ == ascii_val(d, en, p),
        306u16 => e matches Entry::DateTime(s) && s@ == ascii_val(d, en, p),
        318u16 => e == Entry::WhitePoint {
            x: rational_at(d, en, data as int),
            y: rational_at(d, en, data + 8),
        },
        319u16 => e == Entry::PrimaryChromaticities {
            red_x: rational_at(d, en, data as int),
            red_y: rational_at(d, en, data + 8),
            green_x: rational_at(d, en, data + 16),
            green_y: rational_at(d, en, data + 24),
            blue_x: rational_at(d, en, data + 32),
            blue_y: rational_at(d, en, data + 40),
        },
        330u16 => e matches Entry::SubIFDs(ds) && depth > 0 && chain_ok(
            d,
            en,
            data as int,
            (depth - 1) as nat,
            ds@,
        ),
        513u16 => e == Entry::JPEGInterChangeFormat(data != 0),
        514u16 => e == Entry::JPEGInterChangeFormatLength(data),
        529u16 => e == Entry::YCbCrCoefficients {
            luma_red: rational_at(d, en, data as int),
            luma_green: rational_at(d, en, data + 8),
            luma_blue: rational_at(d, en, data + 16),
        },
        531u16 => e == Entry::YCbCrPositioning(ycbcr_positioning_of(data)),
        700u16 => e matches Entry::XMP(v) && v@ == d.subrange(
            u8s_src(d, en, p),
            u8s_src(d, en, p) + count,
        ),
        33421u16 => e == Entry::CFARepeatPatternDim {
            rows: u16_at(d, en, u16s_src(d, en, p)),
            cols: u16_at(d, en, u16s_src(d, en, p) + 2),
        },
        33422u16 => e matches Entry::CFAPattern(v) && v@.len() == count && (forall|i: int|
            0 <= i < count ==> v@[i] == cfa_of(d[u8s_src(d, en, p) + i])),
        34665u16 => e matches Entry::ExifIFD(ds) && depth > 0 && chain_ok(
            d,
            en,
            data as int,
            (depth - 1) as nat,
            ds@,
        ),
        50706u16 => e matches Entry::DNGVersion(v) && v@ == d.subrange(
            u8s_src(d, en, p),
            u8s_src(d, en, p) + count,
        ),
        50740u16 => e matches Entry::DNGPrivateData(v) && v@ == d.subrange(
            u8s_src(d, en, p),
            u8s_src(d, en, p) + count,
        ),
        _ => e == Entry::Unknown(tag, ty, count, data),
    }
}

/// The text an ASCII field at `p` decodes to: its declared length less the
/// NUL terminator, decoded lossily.
pub open spec fn ascii_val(d: Seq<u8>, en: ByteOrder, p: int) -> Seq<char> {
    utf8_lossy_of(
        d.subrange(u8s_src(d, en, p), u8s_src(d, en, p) + (e_count(d, en, p) - 1)),
    )
}

/// One element of a strip-offsets or strip-byte-counts array: read as u16 or
/// u32 according to the declared type, widened to u32.
pub open spec fn u16_or_u32_elem(d: Seq<u8>, en: ByteOrder, p: int, i: int) -> u32 {
    if e_ty(d, en, p) == DataType::U16 {
        u16_at(d, en, u16s_src(d, en, p) + 2 * i) as u32
    } else {
        u32_at(d, en, u32s_src(d, en, p) + 4 * i)
    }
}

/// The directory value at `p` is exactly `dir`: the declared number of
/// entries, each decoded from its 12-byte record.
pub open spec fn dir_ok(
    d: Seq<u8>,
    en: ByteOrder,
    p: int,
    depth: nat,
    dir: ImageFileDirectory,
) -> bool
    decreases depth, 0int, 1int, 0int,
{
    &&& dir.entries@.len() == dir_count(d, en, p)
    &&& forall|i: int|
        0 <= i < dir.entries@.len() ==> entry_ok(d, en, entry_pos(p, i), depth, dir.entries@[i])
}

/// The directory chain starting at `p0` is exactly `dirs`: one directory per
/// non-zero link, ended by a zero link.
pub open spec fn chain_ok(
    d: Seq<u8>,
    en: ByteOrder,
    p0: int,
    depth: nat,
    dirs: Seq<ImageFileDirectory>,
) -> bool
    decreases depth, 0int, 2int, 0int,
{
    &&& forall|k: int|
        0 <= k < dirs.len() ==> #[trigger] chain_pos(d, en, p0, k) != 0 && dir_ok(
            d,
            en,
            chain_pos(d, en, p0, k),
            depth,
            dirs[k],
        )
    &&& chain_pos(d, en, p0, dirs.len() as int) == 0
}

/// The first failure the entry decoder at `p` runs into, in the order it
/// reads and validates, or `None` when it succeeds: a short record or a
/// short indirect read is `IoError`; a declared type outside the tag's
/// allowed set is `TypeMismatch`, and comes before any element read; a
/// fixed-arity tag with the wrong count is `FieldCountMismatch`; nesting
/// deeper than the parser follows is `FormatError`.
pub open spec fn entry_err(d: Seq<u8>, en: ByteOrder, p: int, depth: nat) -> Option<Error>
    decreases depth, 0int, 0int, 0int,
{
    if p + 12 > d.len() {
        Some(Error::IoError)
    } else {
        let tag = e_tag(d, en, p);
        let ty = e_ty(d, en, p);
        let count = e_count(d, en, p);
        let data = e_data(d, en, p);
        if !allowed_type(tag, ty) {
            Some(Error::TypeMismatch(tag, ty))
        } else {
            match tag {
                258u16 => if count > 2 && data + 2 * count > d.len() {
                    Some(Error::IoError)
                } else {
                    None
                },
                270u16 | 271u16 | 272u16 | 305u16 | 306u16 => if count == 0 {
                    Some(Error::FieldCountMismatch(tag))
                } else if u8s_src(d, en, p) + count > d.len() {
                    Some(Error::IoError)
                } else {
                    None
                },
                273u16 | 279u16 => if ty == DataType::U16 {
                    if count > 2 && data + 2 * count > d.len() {
                        Some(Error::IoError)
                    } else {
                        None
                    }
                } else {
                    if count > 1 && data + 4 * count > d.len() {
                        Some(Error::IoError)
                    } else {
                        None
                    }
                },
                282u16 | 283u16 => if data + 8 > d.len() {
                    Some(Error::IoError)
                } else {
                    None
                },
                318u16 => if count != 2 {
                    Some(Error::FieldCountMismatch(tag))
                } else if data + 16 > d.len() {
                    Some(Error::IoError)
                } else {
                    None
                },
                319u16 => if count != 6 {
                    Some(Error::FieldCountMismatch(tag))
                } else if data + 48 > d.len() {
                    Some(Error::IoError)
                } else {
                    None
                },
                330u16 => if count != 1 {
                    Some(Error::FieldCountMismatch(tag))
                } else if depth == 0 {
                    Some(Error::FormatError)
                } else {
                    chain_err(d, en, data as int, (depth - 1) as nat, MAX_IFD_COUNT as nat)
                },
                529u16 => if count != 3 {
                    Some(Error::FieldCountMismatch(tag))
                } else if data + 24 > d.len() {
                    Some(Error::IoError)
                } else {
                    None
                },
                700u16 | 33422u16 | 50706u16 | 50740u16 => if count > 4 && data + count
                    > d.len() {
                    Some(Error::IoError)
                } else {
                    None
                },
                33421u16 => if count > 2 && data + 2 * count > d.len() {
                    Some(Error::IoError)
                } else if count != 2 {
                    Some(Error::FieldCountMismatch(tag))
                } else {
                    None
                },
                34665u16 => if depth == 0 {
                    Some(Error::FormatError)
                } else {
                    chain_err(d, en, data as int, (depth - 1) as nat, MAX_IFD_COUNT as nat)
                },
                _ => None,
            }
        }
    }
}

/// The first failure among `n` consecutive entry records starting at `p`.
pub open spec fn entries_err(d: Seq<u8>, en: ByteOrder, p: int, n: nat, depth: nat) -> Option<
    Error,
>
    decreases depth, 0int, 0int, n,
{
    if n == 0 {
        None
    } else {
        match entry_err(d, en, p, depth) {
            Some(e) => Some(e),
            None => entries_err(d, en, p + 12, (n - 1) as nat, depth),
        }
    }
}

/// The first failure along the directory chain starting at `p`, following at
/// most `fuel` links; a chain longer than that (in particular a cyclic one)
/// is a `FormatError`.
pub open spec fn chain_err(d: Seq<u8>, en: ByteOrder, p: int, depth: nat, fuel: nat) -> Option<
    Error,
>
    decreases depth, fuel, 3int, 0int,
{
    if p == 0 {
        None
    } else if fuel == 0 {
        Some(Error::FormatError)
    } else if p + 2 > d.len() {
        Some(Error::IoError)
    } else {
        match entries_err(d, en, p + 2, dir_count(d, en, p) as nat, depth) {
            Some(e) => Some(e),
            None => {
                if p + 2 + 12 * (dir_count(d, en, p) as int) + 4 > d.len() {
                    Some(Error::IoError)
                } else {
                    chain_err(d, en, dir_next_pos(d, en, p), depth, (fuel - 1) as nat)
                }
            },
        }
    }
}

/// The first failure of a whole-file parse whose header starts at `q`: a
/// short header is `IoError`, a wrong `42` marker is `FormatError`, then the
/// root chain is parsed from the header's first-IFD offset.
pub open spec fn parse_err(d: Seq<u8>, en: ByteOrder, q: int) -> Option<Error> {
    if q + 4 > d.len() {
        Some(Error::IoError)
    } else if u16_at(d, en, q + 2) != 42 {
        Some(Error::FormatError)
    } else if q + 8 > d.len() {
        Some(Error::IoError)
    } else {
        chain_err(
            d,
            en,
            u32_at(d, en, q + 4) as int,
            MAX_IFD_DEPTH as nat,
            MAX_IFD_COUNT as nat,
        )
    }
}

/// A successful whole-file parse from `q` returns exactly these root
/// directories.
pub open spec fn parse_ok(d: Seq<u8>, en: ByteOrder, q: int, t: Tiff) -> bool {
    chain_ok(d, en, u32_at(d, en, q + 4) as int, MAX_IFD_DEPTH as nat, t.directories@)
}

/// A tag whose declared type is outside its decoder's allowed set always
/// fails with `TypeMismatch` carrying that tag and type, never with any
/// other error and never with a value.
pub proof fn lemma_type_mismatch(d: Seq<u8>, en: ByteOrder, p: int, depth: nat)
    requires
        p + 12 <= d.len(),
        !allowed_type(e_tag(d, en, p), e_ty(d, en, p)),
    ensures
        entry_err(d, en, p, depth) == Some(Error::TypeMismatch(e_tag(d, en, p), e_ty(d, en, p))),
{
}

/// Every directory chain the parser returns has one directory per non-zero
/// link of the on-disk chain: its length is the chain's length.
pub proof fn lemma_chain_ok_len(
    d: Seq<u8>,
    en: ByteOrder,
    p0: int,
    depth: nat,
    fuel: nat,
    dirs: Seq<ImageFileDirectory>,
)
    requires
        chain_ok(d, en, p0, depth, dirs),
        dirs.len() <= fuel,
    ensures
        dirs.len() == chain_len(d, en, p0, fuel),
    decreases dirs.len(),
{
    if dirs.len() == 0 {
        assert(chain_pos(d, en, p0, 0) == p0);
    } else {
        assert(chain_pos(d, en, p0, 0) == p0);
        assert(chain_pos(d, en, p0, 0) != 0);
        let p1 = dir_next_pos(d, en, p0);
        let rest = dirs.drop_first();
        assert forall|k: int| 0 <= k < rest.len() implies #[trigger] chain_pos(d, en, p1, k) != 0
            && dir_ok(d, en, chain_pos(d, en, p1, k), depth, rest[k]) by {
            lemma_chain_pos_shift(d, en, p0, k + 1);
            assert(chain_pos(d, en, p0, k + 1) != 0);
            assert(dirs[k + 1] == rest[k]);
        }
        lemma_chain_pos_shift(d, en, p0, dirs.len() as int);
        assert(chain_pos(d, en, p1, rest.len() as int) == 0);
        lemma_chain_ok_len(d, en, p1, depth, (fuel - 1) as nat, rest);
    }
}

/// Link positions after the first directory are the links of the tail chain.
proof fn lemma_chain_pos_shift(d: Seq<u8>, en: ByteOrder, p0: int, k: int)
    requires
        k >= 1,
    ensures
        chain_pos(d, en, p0, k) == chain_pos(d, en, dir_next_pos(d, en, p0), k - 1),
    decreases k,
{
    let p1 = dir_next_pos(d, en, p0);
    if k == 1 {
        assert(chain_pos(d, en, p0, 1) == dir_next_pos(d, en, chain_pos(d, en, p0, 0)));
        assert(chain_pos(d, en, p0, 0) == p0);
        assert(chain_pos(d, en, p1, 0) == p1);
    } else {
        lemma_chain_pos_shift(d, en, p0, k - 1);
        assert(chain_pos(d, en, p0, k) == dir_next_pos(d, en, chain_pos(d, en, p0, k - 1)));
        assert(chain_pos(d, en, p1, k - 1) == dir_next_pos(d, en, chain_pos(d, en, p1, k - 2)));
    }
}


/// Widen a u16 array to u32, element for element.
fn widen_u16s(v: &Vec<u16>) -> (r: Vec<u32>)
    ensures
        r@.len() == v@.len(),
        forall|i: int| 0 <= i < v@.len() ==> r@[i] == v@[i] as u32,
{
    let mut r: Vec<u32> = Vec::new();
    let mut i: usize = 0;
    while i < v.len()
        invariant
            0 <= i <= v@.len(),
            r@.len() == i,
            forall|j: int| 0 <= j < i ==> r@[j] == v@[j] as u32,
        decreases v@.len() - i,
    {
        r.push(v[i] as u32);
        i = i + 1;
    }
    r
}

/// Decode raw color-filter-array bytes into cells.
fn map_cfa(v: &Vec<u8>) -> (r: Vec<CFAPattern>)
    ensures
        r@.len() == v@.len(),
        forall|i: int| 0 <= i < v@.len() ==> r@[i] == cfa_of(v@[i]),
{
    let mut r: Vec<CFAPattern> = Vec::new();
    let mut i: usize = 0;
    while i < v.len()
        invariant
            0 <= i <= v@.len(),
            r@.len() == i,
            forall|j: int| 0 <= j < i ==> r@[j] == cfa_of(v@[j]),
        decreases v@.len() - i,
    {
        let c: CFAPattern = match v[i] {
            0 => CFAPattern::R,
            1 => CFAPattern::G,
            2 => CFAPattern::B,
            n => CFAPattern::Unknown(n),
        };
        r.push(c);
        i = i + 1;
    }
    r
}

/// Parse one 12-byte entry record at the stream cursor. On success the
/// cursor rests exactly 12 bytes after where it started, however deep a
/// sub-directory descent went: indirect values are fetched with the cursor
/// restored, and descents restore it too. `depth` bounds the sub-directory
/// nesting still allowed.
pub fn parse_entry(stream: &mut ByteStream, depth: u32) -> (r: Result<Entry, Error>)
    ensures
        final(stream).bytes() == old(stream).bytes(),
        final(stream).order() == old(stream).order(),
        match r {
            Ok(e) => entry_err(old(stream).bytes(), old(stream).order(), old(stream).pos(), depth as nat) is None
                && entry_ok(old(stream).bytes(), old(stream).order(), old(stream).pos(), depth as nat, e)
                && final(stream).pos() == old(stream).pos() + 12,
            Err(er) => entry_err(old(stream).bytes(), old(stream).order(), old(stream).pos(), depth as nat) == Some(er),
        },
    decreases depth, 0int,
{
    let ghost b = old(stream).bytes();
    let ghost en = old(stream).order();
    let ghost p = old(stream).pos();
    let tag: u16 = match stream.read_u16() {
        Ok(v) => v,
        Err(e) => { return Err(e); },
    };
    let ty_code: u16 = match stream.read_u16() {
        Ok(v) => v,
        Err(e) => { return Err(e); },
    };
    let ty: DataType = DataType::from(ty_code);
    let count: u32 = match stream.read_u32() {
        Ok(v) => v,
        Err(e) => { return Err(e); },
    };
    let data_offset: u64 = stream.position();
    let data: u32 = match stream.read_u32() {
        Ok(v) => v,
        Err(e) => { return Err(e); },
    };
    proof {
        assert(tag == e_tag(b, en, p));
        assert(ty == e_ty(b, en, p));
        assert(count == e_count(b, en, p));
        assert(data == e_data(b, en, p));
        assert(data_offset == p + 8);
    }
    let entry: Entry = match tag {
        254 => {
            if !(ty == DataType::U32) {
                return Err(Error::TypeMismatch(tag, ty));
            }
            Entry::NewSubFileType { is_thumbnail: data & 1 == 1 }
        },
        256 => {
            if !(ty == DataType::U16 || ty == DataType::U32) {
                return Err(Error::TypeMismatch(tag, ty));
            }
            Entry::ImageWidth(data)
        },
        257 => {
            if !(ty == DataType::U16 || ty == DataType::U32) {
                return Err(Error::TypeMismatch(tag, ty));
            }
            Entry::ImageLength(data)
        },
        258 => {
            if !(ty == DataType::U16) {
                return Err(Error::TypeMismatch(tag, ty));
            }
            let off: u64 = if count > 2 { data as u64 } else { data_offset };
            let v: Vec<u16> = match stream.fetch_vec_u16(off, count as usize) {
                Ok(v) => v,
                Err(e) => { return Err(e); },
            };
            Entry::BitsPerSample(v)
        },
        259 => {
            if !(ty == DataType::U16) {
                return Err(Error::TypeMismatch(tag, ty));
            }
            match data {
                1 => Entry::Compression(Compression::NoCompression),
                6 => Entry::Compression(Compression::OldJpeg),
                7 => Entry::Compression(Compression::BaselineJpeg),
                8 => Entry::Compression(Compression::AdobeDeflate),
                32767 => Entry::Compression(Compression::SonyARW),
                _ => Entry::Compression(Compression::Undefined(data as u16)),
            }
        },
        262 => {
            if !(ty == DataType::U16) {
                return Err(Error::TypeMismatch(tag, ty));
            }
            match data {
                1 => Entry::PhotometricInterpretation(PhotometricInterpretation::Grayscale),
                2 => Entry::PhotometricInterpretation(PhotometricInterpretation::RGB),
                6 => Entry::PhotometricInterpretation(PhotometricInterpretation::YCbCr),
                32803 => Entry::PhotometricInterpretation(
                    PhotometricInterpretation::ColorFilterArray,
                ),
                _ => Entry::PhotometricInterpretation(
                    PhotometricInterpretation::Undefined(data as u16),
                ),
            }
        },
        270 => {
            if !(ty == DataType::Ascii) {
                return Err(Error::TypeMismatch(tag, ty));
            }
            match read_entry_ascii(stream, tag, count, data_offset, data) {
                Ok(s) => Entry::ImageDescription(s),
                Err(e) => { return Err(e); },
            }
        },
        271 => {
            if !(ty == DataType::Ascii) {
                return Err(Error::TypeMismatch(tag, ty));
            }
            match read_entry_ascii(stream, tag, count, data_offset, data) {
                Ok(s) => Entry::Make(s),
                Err(e) => { return Err(e); },
            }
        },
        272 => {
            if !(ty == DataType::Ascii) {
                return Err(Error::TypeMismatch(tag, ty));
            }
            match read_entry_ascii(stream, tag, count, data_offset, data) {
                Ok(s) => Entry::Model(s),
                Err(e) => { return Err(e); },
            }
        },
        273 => {
            if !(ty == DataType::U16 || ty == DataType::U32) {
                return Err(Error::TypeMismatch(tag, ty));
            }
            match read_entry_u16_or_u32s(stream, ty, count, data_offset, data) {
                Ok(v) => Entry::StripOffsets(v),
                Err(e) => { return Err(e); },
            }
        },
        274 => {
            if !(ty == DataType::U16) {
                return Err(Error::TypeMismatch(tag, ty));
            }
            match data {
                1 => Entry::Orientation(Orientation::Rotate0),
                3 => Entry::Orientation(Orientation::Rotate180),
                6 => Entry::Orientation(Orientation::Rotate270),
                8 => Entry::Orientation(Orientation::Rotate90),
                _ => Entry::Orientation(Orientation::Undefined(data as u16)),
            }
        },
        277 => {
            if !(ty == DataType::U16) {
                return Err(Error::TypeMismatch(tag, ty));
            }
            Entry::SamplesPerPixel(data as u16)
        },
        278 => {
            if !(ty == DataType::U16 || ty == DataType::U32) {
                return Err(Error::TypeMismatch(tag, ty));
            }
            Entry::RowsPerStrip(data)
        },
        279 => {
            if !(ty == DataType::U16 || ty == DataType::U32) {
                return Err(Error::TypeMismatch(tag, ty));
            }
            match read_entry_u16_or_u32s(stream, ty, count, data_offset, data) {
                Ok(v) => Entry::StripByteCounts(v),
                Err(e) => { return Err(e); },
            }
        },
        282 => {
            if !(ty == DataType::Rational) {
                return Err(Error::TypeMismatch(tag, ty));
            }
            match stream.fetch_unsigned_rational(data as u64) {
                Ok(v) => Entry::XResolution(v),
                Err(e) => { return Err(e); },
            }
        },
        283 => {
            if !(ty == DataType::Rational) {
                return Err(Error::TypeMismatch(tag, ty));
            }
            match stream.fetch_unsigned_rational(data as u64) {
                Ok(v) => Entry::YResolution(v),
                Err(e) => { return Err(e); },
            }
        },
        284 => {
            if !(ty == DataType::U16) {
                return Err(Error::TypeMismatch(tag, ty));
            }
            match data {
                1 => Entry::PlanarConfiguration(PlanarConfiguration::Chunky),
                2 => Entry::PlanarConfiguration(PlanarConfiguration::Planar),
                n => Entry::PlanarConfiguration(PlanarConfiguration::Unknown(n as u16)),
            }
        },
        296 => {
            if !(ty == DataType::U16) {
                return Err(Error::TypeMismatch(tag, ty));
            }
            match data {
                1 => Entry::ResolutionUnit(ResolutionUnit::Unknown),
                2 => Entry::ResolutionUnit(ResolutionUnit::Inch),
                3 => Entry::ResolutionUnit(ResolutionUnit::Centimeter),
                _ => Entry::ResolutionUnit(ResolutionUnit::Undefined(data as u16)),
            }
        },
        305 => {
            if !(ty == DataType::Ascii) {
                return Err(Error::TypeMismatch(tag, ty));
            }
            match read_entry_ascii(stream, tag, count, data_offset, data) {
                Ok(s) => Entry::Software(s),
                Err(e) => { return Err(e); },
            }
        },
        306 => {
            if !(ty == DataType::Ascii) {
                return Err(Error::TypeMismatch(tag, ty));
            }
            match read_entry_ascii(stream, tag, count, data_offset, data) {
                Ok(s) => Entry::DateTime(s),
                Err(e) => { return Err(e); },
            }
        },
        318 => {
            if !(ty == DataType::Rational) {
                return Err(Error::TypeMismatch(tag, ty));
            }
            if count != 2 {
                return Err(Error::FieldCountMismatch(tag));
            }
            let v: Vec<crate::tiff::data_type::UnsignedRational> = match stream
                .fetch_unsigned_rationals(data as u64, 2) {
                Ok(v) => v,
                Err(e) => { return Err(e); },
            };
            Entry::WhitePoint { x: v[0], y: v[1] }
        },
        319 => {
            if !(ty == DataType::Rational) {
                return Err(Error::TypeMismatch(tag, ty));
            }
            if count != 6 {
                return Err(Error::FieldCountMismatch(tag));
            }
            let v: Vec<crate::tiff::data_type::UnsignedRational> = match stream
                .fetch_unsigned_rationals(data as u64, 6) {
                Ok(v) => v,
                Err(e) => { return Err(e); },
            };
            Entry::PrimaryChromaticities {
                red_x: v[0],
                red_y: v[1],
                green_x: v[2],
                green_y: v[3],
                blue_x: v[4],
                blue_y: v[5],
            }
        },
        330 => {
            if !(ty == DataType::U32) {
                return Err(Error::TypeMismatch(tag, ty));
            }
            if count != 1 {
                return Err(Error::FieldCountMismatch(tag));
            }
            if depth == 0 {
                return Err(Error::FormatError);
            }
            let saved: u64 = stream.position();
            stream.seek(data as u64);
            let r = parse_image_file_directories(stream, depth - 1);
            stream.seek(saved);
            match r {
                Ok(dirs) => Entry::SubIFDs(dirs),
                Err(e) => { return Err(e); },
            }
        },
        513 => {
            if !(ty == DataType::U32) {
                return Err(Error::TypeMismatch(tag, ty));
            }
            Entry::JPEGInterChangeFormat(data != 0)
        },
        514 => {
            if !(ty == DataType::U32) {
                return Err(Error::TypeMismatch(tag, ty));
            }
            Entry::JPEGInterChangeFormatLength(data)
        },
        529 => {
            if !(ty == DataType::Rational) {
                return Err(Error::TypeMismatch(tag, ty));
            }
            if count != 3 {
                return Err(Error::FieldCountMismatch(tag));
            }
            let v: Vec<crate::tiff::data_type::UnsignedRational> = match stream
                .fetch_unsigned_rationals(data as u64, 3) {
                Ok(v) => v,
                Err(e) => { return Err(e); },
            };
            Entry::YCbCrCoefficients { luma_red: v[0], luma_green: v[1], luma_blue: v[2] }
        },
        531 => {
            if !(ty == DataType::U16) {
                return Err(Error::TypeMismatch(tag, ty));
            }
            match data {
                2 => Entry::YCbCrPositioning(YCbCrPositioning::CoSited),
                n => Entry::YCbCrPositioning(YCbCrPositioning::Undefined(n as u16)),
            }
        },
        700 => {
            if !(ty == DataType::U8) {
                return Err(Error::TypeMismatch(tag, ty));
            }
            match read_entry_u8s(stream, count, data_offset, data) {
                Ok(v) => Entry::XMP(v),
                Err(e) => { return Err(e); },
            }
        },
        33421 => {
            if !(ty == DataType::U16) {
                return Err(Error::TypeMismatch(tag, ty));
            }
            let off: u64 = if count > 2 { data as u64 } else { data_offset };
            let vs: Vec<u16> = match stream.fetch_vec_u16(off, count as usize) {
                Ok(v) => v,
                Err(e) => { return Err(e); },
            };
            if vs.len() != 2 {
                return Err(Error::FieldCountMismatch(tag));
            }
            Entry::CFARepeatPatternDim { rows: vs[0], cols: vs[1] }
        },
        33422 => {
            if !(ty == DataType::U8) {
                return Err(Error::TypeMismatch(tag, ty));
            }
            match read_entry_u8s(stream, count, data_offset, data) {
                Ok(v) => Entry::CFAPattern(map_cfa(&v)),
                Err(e) => { return Err(e); },
            }
        },
        34665 => {
            if !(ty == DataType::U32) {
                return Err(Error::TypeMismatch(tag, ty));
            }
            if depth == 0 {
                return Err(Error::FormatError);
            }
            let saved: u64 = stream.position();
            stream.seek(data as u64);
            let r = parse_image_file_directories(stream, depth - 1);
            stream.seek(saved);
            match r {
                Ok(dirs) => Entry::ExifIFD(dirs),
                Err(e) => { return Err(e); },
            }
        },
        50706 => {
            if !(ty == DataType::U8) {
                return Err(Error::TypeMismatch(tag, ty));
            }
            match read_entry_u8s(stream, count, data_offset, data) {
                Ok(v) => Entry::DNGVersion(v),
                Err(e) => { return Err(e); },
            }
        },
        50740 => {
            if !(ty == DataType::U8) {
                return Err(Error::TypeMismatch(tag, ty));
            }
            match read_entry_u8s(stream, count, data_offset, data) {
                Ok(v) => Entry::DNGPrivateData(v),
                Err(e) => { return Err(e); },
            }
        },
        _ => Entry::Unknown(tag, ty, count, data),
    };
    Ok(entry)
}

/// Where an ASCII or byte field's payload lives, given its own slot fields:
/// indirect above 4 bytes, else inline in the value slot.
pub open spec fn ascii_src(count: u32, data_offset: int, data: u32) -> int {
    if count > 4 {
        data as int
    } else {
        data_offset
    }
}

/// Read an ASCII field's text, inline or indirect by its declared length.
/// A zero count cannot even hold the NUL terminator.
fn read_entry_ascii(stream: &mut ByteStream, tag: u16, count: u32, data_offset: u64, data: u32) -> (r: Result<String, Error>)
    requires
        data_offset + 4 == old(stream).pos(),
        old(stream).pos() <= old(stream).bytes().len(),
    ensures
        final(stream).bytes() == old(stream).bytes(),
        final(stream).order() == old(stream).order(),
        final(stream).pos() == old(stream).pos(),
        match r {
            Ok(s) => count >= 1 && ascii_src(count, data_offset as int, data) + count <= old(
                stream,
            ).bytes().len() && s@ == utf8_lossy_of(
                old(stream).bytes().subrange(
                    ascii_src(count, data_offset as int, data),
                    ascii_src(count, data_offset as int, data) + (count - 1),
                ),
            ),
            Err(e) => if count == 0 {
                e == Error::FieldCountMismatch(tag)
            } else {
                e == Error::IoError && ascii_src(count, data_offset as int, data) + count > old(
                    stream,
                ).bytes().len()
            },
        },
{
    if count == 0 {
        return Err(Error::FieldCountMismatch(tag));
    }
    let off: u64 = if count > 4 {
        data as u64
    } else {
        data_offset
    };
    stream.fetch_ascii(off, count as usize)
}

/// Read a strip-offsets or strip-byte-counts array, whose element width is
/// the declared type's, widening u16 elements to u32.
fn read_entry_u16_or_u32s(
    stream: &mut ByteStream,
    ty: DataType,
    count: u32,
    data_offset: u64,
    data: u32,
) -> (r: Result<Vec<u32>, Error>)
    requires
        data_offset + 4 == old(stream).pos(),
        old(stream).pos() <= old(stream).bytes().len(),
        ty == DataType::U16 || ty == DataType::U32,
    ensures
        final(stream).bytes() == old(stream).bytes(),
        final(stream).order() == old(stream).order(),
        final(stream).pos() == old(stream).pos(),
        match r {
            Ok(v) => v@.len() == count && (forall|i: int|
                0 <= i < count ==> v@[i] == (if ty == DataType::U16 {
                    u16_at(
                        old(stream).bytes(),
                        old(stream).order(),
                        (if count > 2 {
                            data as int
                        } else {
                            data_offset as int
                        }) + 2 * i,
                    ) as u32
                } else {
                    u32_at(
                        old(stream).bytes(),
                        old(stream).order(),
                        (if count > 1 {
                            data as int
                        } else {
                            data_offset as int
                        }) + 4 * i,
                    )
                })) && !(ty == DataType::U16 && count > 2 && data + 2 * count > old(
                stream,
            ).bytes().len()) && !(ty == DataType::U32 && count > 1 && data + 4 * count > old(
                stream,
            ).bytes().len()),
            Err(e) => e == Error::IoError && (if ty == DataType::U16 {
                count > 2 && data + 2 * count > old(stream).bytes().len()
            } else {
                count > 1 && data + 4 * count > old(stream).bytes().len()
            }),
        },
{
    if matches!(ty, DataType::U16) {
        let off: u64 = if count > 2 {
            data as u64
        } else {
            data_offset
        };
        let v: Vec<u16> = match stream.fetch_vec_u16(off, count as usize) {
            Ok(v) => v,
            Err(e) => { return Err(e); },
        };
        Ok(widen_u16s(&v))
    } else {
        let off: u64 = if count > 1 {
            data as u64
        } else {
            data_offset
        };
        match stream.fetch_vec_u32(off, count as usize) {
            Ok(v) => Ok(v),
            Err(e) => Err(e),
        }
    }
}

/// Read a byte-array field, inline or indirect by its declared count.
fn read_entry_u8s(stream: &mut ByteStream, count: u32, data_offset: u64, data: u32) -> (r: Result<
    Vec<u8>,
    Error,
>)
    requires
        data_offset + 4 == old(stream).pos(),
        old(stream).pos() <= old(stream).bytes().len(),
    ensures
        final(stream).bytes() == old(stream).bytes(),
        final(stream).order() == old(stream).order(),
        final(stream).pos() == old(stream).pos(),
        match r {
            Ok(v) => ascii_src(count, data_offset as int, data) + count <= old(
                stream,
            ).bytes().len() && v@ == old(stream).bytes().subrange(
                ascii_src(count, data_offset as int, data),
                ascii_src(count, data_offset as int, data) + count,
            ),
            Err(e) => e == Error::IoError && ascii_src(count, data_offset as int, data) + count
                > old(stream).bytes().len(),
        },
{
    let off: u64 = if count > 4 {
        data as u64
    } else {
        data_offset
    };
    stream.fetch_vec_u8(off, count as usize)
}

/// Parse the chain of directories whose first one starts at the stream
/// cursor, following next-offset links until a zero link; at most
/// `MAX_IFD_COUNT` of them, so a cyclic chain terminates with an error.
#[verifier::loop_isolation(false)]
pub fn parse_image_file_directories(stream: &mut ByteStream, depth: u32) -> (r: Result<
    Vec<ImageFileDirectory>,
    Error,
>)
    ensures
        final(stream).bytes() == old(stream).bytes(),
        final(stream).order() == old(stream).order(),
        match r {
            Ok(dirs) => chain_err(old(stream).bytes(), old(stream).order(), old(stream).pos(), depth as nat, MAX_IFD_COUNT as nat) is None
                && chain_ok(old(stream).bytes(), old(stream).order(), old(stream).pos(), depth as nat, dirs@),
            Err(e) => chain_err(old(stream).bytes(), old(stream).order(), old(stream).pos(), depth as nat, MAX_IFD_COUNT as nat) == Some(e),
        },
    decreases depth, 1int,
{
    let ghost b = old(stream).bytes();
    let ghost en = old(stream).order();
    let mut ifd: Vec<ImageFileDirectory> = Vec::new();
    let mut pos: u64 = stream.position();
    let ghost p0 = old(stream).pos();
    let mut budget: u32 = MAX_IFD_COUNT;
    while pos != 0
        invariant
            stream.bytes() == b,
            stream.order() == en,
            budget <= MAX_IFD_COUNT,
            ifd@.len() == MAX_IFD_COUNT - budget,
            pos == chain_pos(b, en, p0, ifd@.len() as int),
            forall|k: int|
                0 <= k < ifd@.len() ==> #[trigger] chain_pos(b, en, p0, k) != 0 && dir_ok(
                    b,
                    en,
                    chain_pos(b, en, p0, k),
                    depth as nat,
                    ifd@[k],
                ),
            chain_err(b, en, p0, depth as nat, MAX_IFD_COUNT as nat) == chain_err(
                b,
                en,
                pos as int,
                depth as nat,
                budget as nat,
            ),
        decreases budget,
    {
        if budget == 0 {
            return Err(Error::FormatError);
        }
        budget = budget - 1;
        let ghost dir_p = pos as int;
        stream.seek(pos);
        let num: u16 = match stream.read_u16() {
            Ok(v) => v,
            Err(e) => { return Err(e); },
        };
        let mut entries: Vec<Entry> = Vec::new();
        let mut i: u16 = 0;
        while i < num
            invariant
                stream.bytes() == b,
                stream.order() == en,
                0 <= i <= num,
                num == dir_count(b, en, dir_p),
                dir_p + 2 <= b.len(),
                stream.pos() == entry_pos(dir_p, i as int),
                entries@.len() == i,
                forall|j: int|
                    0 <= j < i ==> entry_ok(
                        b,
                        en,
                        entry_pos(dir_p, j),
                        depth as nat,
                        #[trigger] entries@[j],
                    ),
                entries_err(b, en, dir_p + 2, num as nat, depth as nat) == entries_err(
                    b,
                    en,
                    entry_pos(dir_p, i as int),
                    (num - i) as nat,
                    depth as nat,
                ),
            decreases num - i,
        {
            let e: Entry = match parse_entry(stream, depth) {
                Ok(e) => e,
                Err(er) => { return Err(er); },
            };
            entries.push(e);
            i = i + 1;
        }
        let next: u32 = match stream.read_u32() {
            Ok(v) => v,
            Err(e) => { return Err(e); },
        };
        let ghost old_len = ifd@.len() as int;
        ifd.push(ImageFileDirectory { entries });
        proof {
            assert(dir_next_pos(b, en, dir_p) == next as int);
            assert(chain_pos(b, en, p0, old_len + 1) == dir_next_pos(
                b,
                en,
                chain_pos(b, en, p0, old_len),
            ));
        }
        pos = next as u64;
    }
    proof {
        assert(chain_pos(b, en, p0, ifd@.len() as int) == 0);
    }
    Ok(ifd)
}

/// Turns a positioned byte stream into a [`Tiff`] value.
pub struct Parser {
    stream: ByteStream,
}

impl Parser {
    /// The stream the parser reads from.
    pub closed spec fn stream(&self) -> ByteStream {
        self.stream
    }

    /// Wrap a stream, ready to parse from its current cursor.
    pub fn new(stream: ByteStream) -> (r: Parser)
        ensures
            r.stream() == stream,
    {
        Parser { stream }
    }

    /// Hand the stream back, for the decoding stages that follow parsing.
    pub fn into_stream(self) -> (r: ByteStream)
        ensures
            r == self.stream(),
    {
        self.stream
    }

    /// Parse a whole file from the cursor: skip the 2-byte order mark,
    /// check the `42` validity marker, and follow the first-IFD offset into
    /// the directory chain.
    pub fn parse(&mut self) -> (r: Result<Tiff, Error>)
        ensures
            final(self).stream().bytes() == old(self).stream().bytes(),
            final(self).stream().order() == old(self).stream().order(),
            match r {
                Ok(t) => parse_err(old(self).stream().bytes(), old(self).stream().order(), old(self).stream().pos()) is None
                    && parse_ok(old(self).stream().bytes(), old(self).stream().order(), old(self).stream().pos(), t),
                Err(e) => parse_err(old(self).stream().bytes(), old(self).stream().order(), old(self).stream().pos()) == Some(e),
            },
    {
        let _order_mark: u16 = match self.stream.read_u16() {
            Ok(v) => v,
            Err(e) => { return Err(e); },
        };
        let truth: u16 = match self.stream.read_u16() {
            Ok(v) => v,
            Err(e) => { return Err(e); },
        };
        if truth != 42 {
            return Err(Error::FormatError);
        }
        let offset: u32 = match self.stream.read_u32() {
            Ok(v) => v,
            Err(e) => { return Err(e); },
        };
        self.stream.seek(offset as u64);
        let directories: Vec<ImageFileDirectory> = match parse_image_file_directories(
            &mut self.stream,
            MAX_IFD_DEPTH,
        ) {
            Ok(v) => v,
            Err(e) => { return Err(e); },
        };
        Ok(Tiff { directories })
    }
}

} // verus!
