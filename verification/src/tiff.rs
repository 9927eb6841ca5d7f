//! The TIFF data model: field-type codes, the typed entry vocabulary, and the
//! directory tree produced by the parser.

pub mod data_type;
pub mod parser;
pub mod stream;

use crate::tiff::data_type::{DataType, UnsignedRational};
use vstd::prelude::*;

verus! {

/// Compression scheme declared by tag 259.
#[derive(Clone, Copy, PartialEq, Eq, Structural, Debug)]
pub enum Compression {
    /// Code 1: rows are packed into bytes with no coding at all.
    NoCompression,
    /// Code 6: the deprecated first JPEG-in-TIFF scheme.
    OldJpeg,
    /// Code 7: baseline DCT JPEG.
    BaselineJpeg,
    /// Code 8: Deflate, introduced by DNG 1.4.
    AdobeDeflate,
    /// Code 32767: Sony's proprietary ARW bit-packed rows.
    SonyARW,
    /// Any other code, preserved as read.
    Undefined(u16),
}

/// Photometric interpretation declared by tag 262.
#[derive(Clone, Copy, PartialEq, Eq, Structural, Debug)]
pub enum PhotometricInterpretation {
    Grayscale,
    RGB,
    YCbCr,
    ColorFilterArray,
    Undefined(u16),
}

/// Image orientation declared by tag 274, counter-clockwise.
#[derive(Clone, Copy, PartialEq, Eq, Structural, Debug)]
pub enum Orientation {
    Rotate0,
    Rotate180,
    Rotate270,
    Rotate90,
    Undefined(u16),
}

/// Unit for the resolution tags, declared by tag 296.
#[derive(Clone, Copy, PartialEq, Eq, Structural, Debug)]
pub enum ResolutionUnit {
    Unknown,
    Inch,
    Centimeter,
    Undefined(u16),
}

/// Sample layout declared by tag 284.
#[derive(Clone, Copy, PartialEq, Eq, Structural, Debug)]
pub enum PlanarConfiguration {
    Chunky,
    Planar,
    Unknown(u16),
}

/// One cell of the repeating color-filter-array tile, declared by tag 33422.
#[derive(Clone, Copy, PartialEq, Eq, Structural, Debug)]
pub enum CFAPattern {
    R,
    G,
    B,
    Unknown(u8),
}

/// Chroma sample positioning declared by tag 531.
#[derive(Clone, Copy, PartialEq, Eq, Structural, Debug)]
pub enum YCbCrPositioning {
    CoSited,
    Undefined(u16),
}

/// Dimensions of the repeating color-filter-array tile, declared by tag 33421.
#[derive(Clone, Copy, PartialEq, Eq, Structural, Debug)]
pub struct CFAPatternDim {
    pub width: usize,
    pub height: usize,
}

/// A well-known tag number. Tags the parser handles semantically become
/// dedicated [`Entry`] variants instead; this enumeration only names the
/// low-numbered baseline tags.
#[derive(Clone, Copy, PartialEq, Eq, Structural, Debug)]
pub enum Tag {
    NewSubFileType,
    SubFileType,
    ImageWidth,
    ImageHeight,
    BitsPerSample,
    Compression,
    PhotometricInterpretation,
    Thresholding,
    Unknown(u16),
}

/// The `Tag` denoted by an on-disk tag number.
pub open spec fn tag_of(code: u16) -> Tag {
    match code {
        254u16 => Tag::NewSubFileType,
        255u16 => Tag::SubFileType,
        256u16 => Tag::ImageWidth,
        257u16 => Tag::ImageWidth,
        258u16 => Tag::BitsPerSample,
        259u16 => Tag::Compression,
        262u16 => Tag::PhotometricInterpretation,
        263u16 => Tag::Thresholding,
        _ => Tag::Unknown(code),
    }
}

impl From<u16> for Tag {
    /// Decode the on-disk tag number.
    fn from(code: u16) -> (t: Tag)
        ensures
            t == tag_of(code),
    {
        match code {
            254 => Tag::NewSubFileType,
            255 => Tag::SubFileType,
            256 => Tag::ImageWidth,
            257 => Tag::ImageWidth,
            258 => Tag::BitsPerSample,
            259 => Tag::Compression,
            262 => Tag::PhotometricInterpretation,
            263 => Tag::Thresholding,
            _ => Tag::Unknown(code),
        }
    }
}

impl vstd::std_specs::convert::FromSpecImpl<u16> for Tag {
    open spec fn obeys_from_spec() -> bool {
        true
    }

    open spec fn from_spec(code: u16) -> Tag {
        tag_of(code)
    }
}

/// One decoded directory field. Every tag the decoder understands has a
/// typed variant; any other tag is preserved opaquely as `Unknown` with its
/// tag number, declared type, element count and raw 4-byte value slot.
#[derive(Debug)]
pub enum Entry {
    NewSubFileType { is_thumbnail: bool },
    ImageWidth(u32),
    ImageLength(u32),
    BitsPerSample(Vec<u16>),
    Compression(Compression),
    PhotometricInterpretation(PhotometricInterpretation),
    ImageDescription(String),
    Make(String),
    Model(String),
    StripOffsets(Vec<u32>),
    Orientation(Orientation),
    SamplesPerPixel(u16),
    RowsPerStrip(u32),
    StripByteCounts(Vec<u32>),
    XResolution(UnsignedRational),
    YResolution(UnsignedRational),
    PlanarConfiguration(PlanarConfiguration),
    ResolutionUnit(ResolutionUnit),
    Software(String),
    DateTime(String),
    WhitePoint { x: UnsignedRational, y: UnsignedRational },
    PrimaryChromaticities {
        red_x: UnsignedRational,
        red_y: UnsignedRational,
        green_x: UnsignedRational,
        green_y: UnsignedRational,
        blue_x: UnsignedRational,
        blue_y: UnsignedRational,
    },
    SubIFDs(Vec<ImageFileDirectory>),
    JPEGInterChangeFormat(bool),
    JPEGInterChangeFormatLength(u32),
    YCbCrCoefficients {
        luma_red: UnsignedRational,
        luma_green: UnsignedRational,
        luma_blue: UnsignedRational,
    },
    YCbCrPositioning(YCbCrPositioning),
    XMP(Vec<u8>),
    CFARepeatPatternDim { rows: u16, cols: u16 },
    CFAPattern(Vec<CFAPattern>),
    ExifIFD(Vec<ImageFileDirectory>),
    DNGVersion(Vec<u8>),
    DNGPrivateData(Vec<u8>),
    Unknown(u16, DataType, u32, u32),
}

/// One Image File Directory: an ordered run of decoded entries.
#[derive(Debug)]
pub struct ImageFileDirectory {
    pub entries: Vec<Entry>,
}

/// A parsed file: the root-level directory chain, in the order the on-disk
/// next-offset links give it. Sub-directories are owned by the entries that
/// point at them: the structure is a tree, never a graph.
#[derive(Debug)]
pub struct Tiff {
    pub directories: Vec<ImageFileDirectory>,
}

/// The first `Make` string among the entries, if any.
pub open spec fn first_make(es: Seq<Entry>) -> Option<String>
    decreases es.len(),
{
    if es.len() == 0 {
        None
    } else {
        match es[0] {
            Entry::Make(s) => Some(s),
            _ => first_make(es.drop_first()),
        }
    }
}

impl ImageFileDirectory {
    /// The camera maker string, from the directory's first `Make` entry.
    pub fn make(&self) -> (r: Option<String>)
        ensures
            r == first_make(self.entries@),
    {
        let n: usize = self.entries.len();
        let mut i: usize = 0;
        proof {
            assert(self.entries@.skip(0) =~= self.entries@);
        }
        while i < n
            invariant
                0 <= i <= n,
                n == self.entries@.len(),
                first_make(self.entries@.skip(i as int)) == first_make(self.entries@),
            decreases n - i,
        {
            proof {
                assert(self.entries@.skip(i as int)[0] == self.entries@[i as int]);
                assert(self.entries@.skip(i as int).drop_first() =~= self.entries@.skip(
                    i as int + 1,
                ));
            }
            match &self.entries[i] {
                Entry::Make(s) => {
                    return Some(s.clone());
                },
                _ => {},
            }
            i = i + 1;
        }
        proof {
            assert(self.entries@.skip(n as int) =~= Seq::<Entry>::empty());
        }
        None
    }
}

/// Whether the executable predicate `f` decides the spec predicate `p`:
/// every boolean a call of `f` can return is the value of `p` on its
/// argument.
pub open spec fn decides<F: Fn(&ImageFileDirectory) -> bool>(
    f: F,
    p: spec_fn(ImageFileDirectory) -> bool,
) -> bool {
    forall|d: &ImageFileDirectory, b: bool| #[trigger] call_ensures(f, (d,), b) ==> b == p(*d)
}

/// The directories referenced by a sequence of borrows, by value.
pub open spec fn derefs(s: Seq<&ImageFileDirectory>) -> Seq<ImageFileDirectory> {
    s.map_values(|d: &ImageFileDirectory| *d)
}

/// The directories of the tree that `p` selects, in walk order: a directory
/// before its sub-directories, sub-directories before the next sibling.
pub open spec fn walk_filtered(
    dirs: Seq<ImageFileDirectory>,
    p: spec_fn(ImageFileDirectory) -> bool,
) -> Seq<ImageFileDirectory>
    decreases dirs,
{
    if dirs.len() == 0 {
        Seq::empty()
    } else {
        (if p(dirs[0]) {
            seq![dirs[0]]
        } else {
            Seq::empty()
        }) + walk_filtered_subs(dirs[0].entries@, p) + walk_filtered(dirs.drop_first(), p)
    }
}

/// The selected directories of the sub-directory trees the entries point
/// at, in entry order.
pub open spec fn walk_filtered_subs(
    es: Seq<Entry>,
    p: spec_fn(ImageFileDirectory) -> bool,
) -> Seq<ImageFileDirectory>
    decreases es,
{
    if es.len() == 0 {
        Seq::empty()
    } else {
        (match es[0] {
            Entry::SubIFDs(ds) => walk_filtered(ds@, p),
            _ => Seq::empty(),
        }) + walk_filtered_subs(es.drop_first(), p)
    }
}

/// One step of the walk: the selected directories from position `i` on are
/// directory `i`'s own contribution followed by the rest.
proof fn lemma_walk_filtered_step(
    dirs: Seq<ImageFileDirectory>,
    i: int,
    p: spec_fn(ImageFileDirectory) -> bool,
)
    requires
        0 <= i < dirs.len(),
    ensures
        walk_filtered(dirs.skip(i), p) == (if p(dirs[i]) {
            seq![dirs[i]]
        } else {
            Seq::empty()
        }) + walk_filtered_subs(dirs[i].entries@, p) + walk_filtered(dirs.skip(i + 1), p),
{
    assert(dirs.skip(i)[0] == dirs[i]);
    assert(dirs.skip(i).drop_first() =~= dirs.skip(i + 1));
}

/// One step over the entries: the selection from entry `j` on is entry
/// `j`'s sub-tree contribution followed by the rest.
proof fn lemma_walk_subs_step(es: Seq<Entry>, j: int, p: spec_fn(ImageFileDirectory) -> bool)
    requires
        0 <= j < es.len(),
    ensures
        walk_filtered_subs(es.skip(j), p) == (match es[j] {
            Entry::SubIFDs(ds) => walk_filtered(ds@, p),
            _ => Seq::empty(),
        }) + walk_filtered_subs(es.skip(j + 1), p),
{
    assert(es.skip(j)[0] == es[j]);
    assert(es.skip(j).drop_first() =~= es.skip(j + 1));
}

impl Tiff {
    /// Collect, in walk order (a directory before its sub-directories,
    /// sub-directories before the next sibling), the directories the given
    /// predicate selects. Every directory handed back satisfied a call of
    /// `f` that returned true.
    pub fn filter_ifd<F: Fn(&ImageFileDirectory) -> bool>(&self, f: F) -> (r: Vec<
        &ImageFileDirectory,
    >)
        requires
            forall|d: &ImageFileDirectory| #[trigger] f.requires((d,)),
        ensures
            forall|k: int| 0 <= k < r@.len() ==> call_ensures(f, (r@[k],), true),
            forall|p: spec_fn(ImageFileDirectory) -> bool|
                decides(f, p) ==> derefs(r@) == #[trigger] walk_filtered(self.directories@, p),
    {
        let mut acc: Vec<&ImageFileDirectory> = Vec::new();
        walk_and_filter_ifd(&mut acc, &f, &self.directories);
        proof {
            assert forall|p: spec_fn(ImageFileDirectory) -> bool| decides(f, p) implies derefs(
                acc@,
            ) == #[trigger] walk_filtered(self.directories@, p) by {
                assert(derefs(Seq::<&ImageFileDirectory>::empty()) =~= Seq::<
                    ImageFileDirectory,
                >::empty());
                assert(derefs(acc@) =~= Seq::<ImageFileDirectory>::empty() + walk_filtered(
                    self.directories@,
                    p,
                ));
            }
        }
        acc
    }

    /// The first root-level directory, where TIFF keeps the primary image's
    /// description.
    pub fn root_ifd(&self) -> (r: Option<&ImageFileDirectory>)
        ensures
            match r {
                Some(d) => self.directories@.len() > 0 && *d == self.directories@[0],
                None => self.directories@.len() == 0,
            },
    {
        if self.directories.len() > 0 {
            Some(&self.directories[0])
        } else {
            None
        }
    }
}


/// The first `Compression` entry's value, if any.
pub open spec fn first_compression(es: Seq<Entry>) -> Option<Compression>
    decreases es.len(),
{
    if es.len() == 0 {
        None
    } else {
        match es[0] {
            Entry::Compression(c) => Some(c),
            _ => first_compression(es.drop_first()),
        }
    }
}

/// The first `ImageWidth` entry's value, if any.
pub open spec fn first_width(es: Seq<Entry>) -> Option<u32>
    decreases es.len(),
{
    if es.len() == 0 {
        None
    } else {
        match es[0] {
            Entry::ImageWidth(w) => Some(w),
            _ => first_width(es.drop_first()),
        }
    }
}

/// The first `ImageLength` entry's value, if any.
pub open spec fn first_height(es: Seq<Entry>) -> Option<u32>
    decreases es.len(),
{
    if es.len() == 0 {
        None
    } else {
        match es[0] {
            Entry::ImageLength(h) => Some(h),
            _ => first_height(es.drop_first()),
        }
    }
}

/// The first `StripOffsets` entry's array, if any.
pub open spec fn first_strip_offsets(es: Seq<Entry>) -> Option<Seq<u32>>
    decreases es.len(),
{
    if es.len() == 0 {
        None
    } else {
        match es[0] {
            Entry::StripOffsets(v) => Some(v@),
            _ => first_strip_offsets(es.drop_first()),
        }
    }
}

/// The first `StripByteCounts` entry's array, if any.
pub open spec fn first_strip_byte_counts(es: Seq<Entry>) -> Option<Seq<u32>>
    decreases es.len(),
{
    if es.len() == 0 {
        None
    } else {
        match es[0] {
            Entry::StripByteCounts(v) => Some(v@),
            _ => first_strip_byte_counts(es.drop_first()),
        }
    }
}

/// The first `BitsPerSample` entry's array, if any.
pub open spec fn first_bits_per_sample(es: Seq<Entry>) -> Option<Seq<u16>>
    decreases es.len(),
{
    if es.len() == 0 {
        None
    } else {
        match es[0] {
            Entry::BitsPerSample(v) => Some(v@),
            _ => first_bits_per_sample(es.drop_first()),
        }
    }
}

/// The first `CFARepeatPatternDim` entry's rows and columns, if any.
pub open spec fn first_cfa_dim(es: Seq<Entry>) -> Option<(u16, u16)>
    decreases es.len(),
{
    if es.len() == 0 {
        None
    } else {
        match es[0] {
            Entry::CFARepeatPatternDim { rows, cols } => Some((rows, cols)),
            _ => first_cfa_dim(es.drop_first()),
        }
    }
}

/// The first `CFAPattern` entry's cells, if any.
pub open spec fn first_cfa_pattern(es: Seq<Entry>) -> Option<Seq<CFAPattern>>
    decreases es.len(),
{
    if es.len() == 0 {
        None
    } else {
        match es[0] {
            Entry::CFAPattern(v) => Some(v@),
            _ => first_cfa_pattern(es.drop_first()),
        }
    }
}

/// Whether the entries declare strip data.
pub open spec fn has_strip_offsets(es: Seq<Entry>) -> bool {
    exists|i: int| 0 <= i < es.len() && es[i] is StripOffsets
}

impl ImageFileDirectory {
    /// The declared compression scheme.
    pub fn compression(&self) -> (r: Option<Compression>)
        ensures
            r == first_compression(self.entries@),
    {
        let n: usize = self.entries.len();
        let mut i: usize = 0;
        proof {
            assert(self.entries@.skip(0) =~= self.entries@);
        }
        while i < n
            invariant
                0 <= i <= n,
                n == self.entries@.len(),
                first_compression(self.entries@.skip(i as int)) == first_compression(
                    self.entries@,
                ),
            decreases n - i,
        {
            proof {
                assert(self.entries@.skip(i as int)[0] == self.entries@[i as int]);
                assert(self.entries@.skip(i as int).drop_first() =~= self.entries@.skip(
                    i as int + 1,
                ));
            }
            match &self.entries[i] {
                Entry::Compression(c) => {
                    return Some(*c);
                },
                _ => {},
            }
            i = i + 1;
        }
        None
    }

    /// The declared image width in samples.
    pub fn image_width(&self) -> (r: Option<u32>)
        ensures
            r == first_width(self.entries@),
    {
        let n: usize = self.entries.len();
        let mut i: usize = 0;
        proof {
            assert(self.entries@.skip(0) =~= self.entries@);
        }
        while i < n
            invariant
                0 <= i <= n,
                n == self.entries@.len(),
                first_width(self.entries@.skip(i as int)) == first_width(self.entries@),
            decreases n - i,
        {
            proof {
                assert(self.entries@.skip(i as int)[0] == self.entries@[i as int]);
                assert(self.entries@.skip(i as int).drop_first() =~= self.entries@.skip(
                    i as int + 1,
                ));
            }
            match &self.entries[i] {
                Entry::ImageWidth(w) => {
                    return Some(*w);
                },
                _ => {},
            }
            i = i + 1;
        }
        None
    }

    /// The declared image height in rows.
    pub fn image_height(&self) -> (r: Option<u32>)
        ensures
            r == first_height(self.entries@),
    {
        let n: usize = self.entries.len();
        let mut i: usize = 0;
        proof {
            assert(self.entries@.skip(0) =~= self.entries@);
        }
        while i < n
            invariant
                0 <= i <= n,
                n == self.entries@.len(),
                first_height(self.entries@.skip(i as int)) == first_height(self.entries@),
            decreases n - i,
        {
            proof {
                assert(self.entries@.skip(i as int)[0] == self.entries@[i as int]);
                assert(self.entries@.skip(i as int).drop_first() =~= self.entries@.skip(
                    i as int + 1,
                ));
            }
            match &self.entries[i] {
                Entry::ImageLength(h) => {
                    return Some(*h);
                },
                _ => {},
            }
            i = i + 1;
        }
        None
    }

    /// The declared strip offsets.
    pub fn strip_byte_offsets(&self) -> (r: Option<Vec<u32>>)
        ensures
            match r {
                Some(v) => first_strip_offsets(self.entries@) == Some(v@),
                None => first_strip_offsets(self.entries@) is None,
            },
    {
        let n: usize = self.entries.len();
        let mut i: usize = 0;
        proof {
            assert(self.entries@.skip(0) =~= self.entries@);
        }
        while i < n
            invariant
                0 <= i <= n,
                n == self.entries@.len(),
                first_strip_offsets(self.entries@.skip(i as int)) == first_strip_offsets(
                    self.entries@,
                ),
            decreases n - i,
        {
            proof {
                assert(self.entries@.skip(i as int)[0] == self.entries@[i as int]);
                assert(self.entries@.skip(i as int).drop_first() =~= self.entries@.skip(
                    i as int + 1,
                ));
            }
            match &self.entries[i] {
                Entry::StripOffsets(v) => {
                    return Some(copy_u32s(v));
                },
                _ => {},
            }
            i = i + 1;
        }
        None
    }

    /// The declared strip byte counts.
    pub fn strip_byte_counts(&self) -> (r: Option<Vec<u32>>)
        ensures
            match r {
                Some(v) => first_strip_byte_counts(self.entries@) == Some(v@),
                None => first_strip_byte_counts(self.entries@) is None,
            },
    {
        let n: usize = self.entries.len();
        let mut i: usize = 0;
        proof {
            assert(self.entries@.skip(0) =~= self.entries@);
        }
        while i < n
            invariant
                0 <= i <= n,
                n == self.entries@.len(),
                first_strip_byte_counts(self.entries@.skip(i as int)) == first_strip_byte_counts(
                    self.entries@,
                ),
            decreases n - i,
        {
            proof {
                assert(self.entries@.skip(i as int)[0] == self.entries@[i as int]);
                assert(self.entries@.skip(i as int).drop_first() =~= self.entries@.skip(
                    i as int + 1,
                ));
            }
            match &self.entries[i] {
                Entry::StripByteCounts(v) => {
                    return Some(copy_u32s(v));
                },
                _ => {},
            }
            i = i + 1;
        }
        None
    }

    /// The declared bits per sample.
    pub fn bits_per_sample(&self) -> (r: Option<Vec<u16>>)
        ensures
            match r {
                Some(v) => first_bits_per_sample(self.entries@) == Some(v@),
                None => first_bits_per_sample(self.entries@) is None,
            },
    {
        let n: usize = self.entries.len();
        let mut i: usize = 0;
        proof {
            assert(self.entries@.skip(0) =~= self.entries@);
        }
        while i < n
            invariant
                0 <= i <= n,
                n == self.entries@.len(),
                first_bits_per_sample(self.entries@.skip(i as int)) == first_bits_per_sample(
                    self.entries@,
                ),
            decreases n - i,
        {
            proof {
                assert(self.entries@.skip(i as int)[0] == self.entries@[i as int]);
                assert(self.entries@.skip(i as int).drop_first() =~= self.entries@.skip(
                    i as int + 1,
                ));
            }
            match &self.entries[i] {
                Entry::BitsPerSample(v) => {
                    return Some(copy_u16s(v));
                },
                _ => {},
            }
            i = i + 1;
        }
        None
    }

    /// The declared color-filter tile dimensions, rows then columns.
    pub fn cfa_repeat_pattern_dim(&self) -> (r: Option<(u16, u16)>)
        ensures
            r == first_cfa_dim(self.entries@),
    {
        let n: usize = self.entries.len();
        let mut i: usize = 0;
        proof {
            assert(self.entries@.skip(0) =~= self.entries@);
        }
        while i < n
            invariant
                0 <= i <= n,
                n == self.entries@.len(),
                first_cfa_dim(self.entries@.skip(i as int)) == first_cfa_dim(self.entries@),
            decreases n - i,
        {
            proof {
                assert(self.entries@.skip(i as int)[0] == self.entries@[i as int]);
                assert(self.entries@.skip(i as int).drop_first() =~= self.entries@.skip(
                    i as int + 1,
                ));
            }
            match &self.entries[i] {
                Entry::CFARepeatPatternDim { rows, cols } => {
                    return Some((*rows, *cols));
                },
                _ => {},
            }
            i = i + 1;
        }
        None
    }

    /// The declared color-filter cells.
    pub fn cfa_pattern(&self) -> (r: Option<Vec<CFAPattern>>)
        ensures
            match r {
                Some(v) => first_cfa_pattern(self.entries@) == Some(v@),
                None => first_cfa_pattern(self.entries@) is None,
            },
    {
        let n: usize = self.entries.len();
        let mut i: usize = 0;
        proof {
            assert(self.entries@.skip(0) =~= self.entries@);
        }
        while i < n
            invariant
                0 <= i <= n,
                n == self.entries@.len(),
                first_cfa_pattern(self.entries@.skip(i as int)) == first_cfa_pattern(
                    self.entries@,
                ),
            decreases n - i,
        {
            proof {
                assert(self.entries@.skip(i as int)[0] == self.entries@[i as int]);
                assert(self.entries@.skip(i as int).drop_first() =~= self.entries@.skip(
                    i as int + 1,
                ));
            }
            match &self.entries[i] {
                Entry::CFAPattern(v) => {
                    return Some(copy_cfa_cells(v));
                },
                _ => {},
            }
            i = i + 1;
        }
        None
    }

    /// Whether the directory declares strip data.
    pub fn has_strips(&self) -> (r: bool)
        ensures
            r == has_strip_offsets(self.entries@),
    {
        let n: usize = self.entries.len();
        let mut i: usize = 0;
        while i < n
            invariant
                0 <= i <= n,
                n == self.entries@.len(),
                forall|j: int| 0 <= j < i ==> !(self.entries@[j] is StripOffsets),
            decreases n - i,
        {
            match &self.entries[i] {
                Entry::StripOffsets(_) => {
                    return true;
                },
                _ => {},
            }
            i = i + 1;
        }
        false
    }
}

/// Walk a directory list in order, descending into sub-directories, and
/// push every directory the predicate selects: exactly the walk's selection,
/// appended in walk order.
fn walk_and_filter_ifd<'a, F: Fn(&ImageFileDirectory) -> bool>(
    acc: &mut Vec<&'a ImageFileDirectory>,
    f: &F,
    dirs: &'a Vec<ImageFileDirectory>,
)
    requires
        forall|d: &ImageFileDirectory| #[trigger] f.requires((d,)),
        forall|k: int| 0 <= k < old(acc)@.len() ==> call_ensures(f, (old(acc)@[k],), true),
    ensures
        forall|k: int| 0 <= k < final(acc)@.len() ==> call_ensures(f, (final(acc)@[k],), true),
        forall|p: spec_fn(ImageFileDirectory) -> bool|
            decides(f, p) ==> derefs(final(acc)@) == derefs(old(acc)@) + #[trigger] walk_filtered(
                dirs@,
                p,
            ),
    decreases dirs@,
{
    let n: usize = dirs.len();
    let mut i: usize = 0;
    proof {
        assert(dirs@.skip(0) =~= dirs@);
    }
    while i < n
        invariant
            0 <= i <= n,
            n == dirs@.len(),
            forall|d: &ImageFileDirectory| #[trigger] f.requires((d,)),
            forall|k: int| 0 <= k < acc@.len() ==> call_ensures(f, (acc@[k],), true),
            forall|p: spec_fn(ImageFileDirectory) -> bool|
                decides(f, p) ==> derefs(acc@) + walk_filtered(dirs@.skip(i as int), p) == derefs(
                    old(acc)@,
                ) + #[trigger] walk_filtered(dirs@, p),
        decreases n - i,
    {
        let dir = &dirs[i];
        let keep: bool = f(dir);
        let ghost acc_at_dir = acc@;
        if keep {
            acc.push(dir);
        }
        proof {
            assert forall|p: spec_fn(ImageFileDirectory) -> bool| decides(f, p) implies derefs(
                acc@,
            ) + walk_filtered_subs(dir.entries@.skip(0), p) + walk_filtered(
                dirs@.skip(i as int + 1),
                p,
            ) == derefs(old(acc)@) + #[trigger] walk_filtered(dirs@, p) by {
                lemma_walk_filtered_step(dirs@, i as int, p);
                assert(keep == p(dirs@[i as int]));
                assert(dir.entries@.skip(0) =~= dir.entries@);
                if keep {
                    assert(derefs(acc@) =~= derefs(acc_at_dir).push(dirs@[i as int]));
                    assert(derefs(acc@) =~= derefs(acc_at_dir) + seq![dirs@[i as int]]);
                }
                assert(derefs(acc@) + walk_filtered_subs(dir.entries@, p) + walk_filtered(
                    dirs@.skip(i as int + 1),
                    p,
                ) =~= derefs(acc_at_dir) + walk_filtered(dirs@.skip(i as int), p));
            }
        }
        let m: usize = dir.entries.len();
        let mut j: usize = 0;
        while j < m
            invariant
                0 <= j <= m,
                0 <= i < n,
                n == dirs@.len(),
                m == dir.entries@.len(),
                dir == &dirs[i as int],
                forall|d: &ImageFileDirectory| #[trigger] f.requires((d,)),
                forall|k: int| 0 <= k < acc@.len() ==> call_ensures(f, (acc@[k],), true),
                forall|p: spec_fn(ImageFileDirectory) -> bool|
                    decides(f, p) ==> derefs(acc@) + walk_filtered_subs(
                        dir.entries@.skip(j as int),
                        p,
                    ) + walk_filtered(dirs@.skip(i as int + 1), p) == derefs(old(acc)@)
                        + #[trigger] walk_filtered(dirs@, p),
            decreases m - j,
        {
            match &dir.entries[j] {
                Entry::SubIFDs(ds) => {
                    proof {
                        broadcast use vstd::seq::axiom_seq_index_decreases;
                        broadcast use vstd::std_specs::vec::axiom_vec_decreases_to_view;
                        broadcast use vstd::std_specs::vec::axiom_vec_index_decreases;

                        assert(decreases_to!(dirs@ => dirs@[i as int]));
                        assert(decreases_to!(dirs@[i as int] => dirs@[i as int].entries));
                        assert(decreases_to!(dirs@[i as int].entries => dir.entries@[j as int]));
                        assert(decreases_to!(dir.entries@[j as int] => ds@));
                    }
                    let ghost acc_before = acc@;
                    walk_and_filter_ifd(acc, f, ds);
                    proof {
                        assert forall|p: spec_fn(ImageFileDirectory) -> bool| decides(
                            f,
                            p,
                        ) implies derefs(acc@) + walk_filtered_subs(
                            dir.entries@.skip(j as int + 1),
                            p,
                        ) + walk_filtered(dirs@.skip(i as int + 1), p) == derefs(old(acc)@)
                            + #[trigger] walk_filtered(dirs@, p) by {
                            lemma_walk_subs_step(dir.entries@, j as int, p);
                            assert(derefs(acc@) =~= derefs(acc_before) + walk_filtered(ds@, p));
                            assert(derefs(acc@) + walk_filtered_subs(
                                dir.entries@.skip(j as int + 1),
                                p,
                            ) + walk_filtered(dirs@.skip(i as int + 1), p) =~= derefs(acc_before)
                                + walk_filtered_subs(dir.entries@.skip(j as int), p)
                                + walk_filtered(dirs@.skip(i as int + 1), p));
                        }
                    }
                },
                _ => {
                    proof {
                        assert forall|p: spec_fn(ImageFileDirectory) -> bool| decides(
                            f,
                            p,
                        ) implies derefs(acc@) + walk_filtered_subs(
                            dir.entries@.skip(j as int + 1),
                            p,
                        ) + walk_filtered(dirs@.skip(i as int + 1), p) == derefs(old(acc)@)
                            + #[trigger] walk_filtered(dirs@, p) by {
                            lemma_walk_subs_step(dir.entries@, j as int, p);
                            assert(walk_filtered_subs(dir.entries@.skip(j as int), p)
                                =~= walk_filtered_subs(dir.entries@.skip(j as int + 1), p));
                        }
                    }
                },
            }
            j = j + 1;
        }
        proof {
            assert forall|p: spec_fn(ImageFileDirectory) -> bool| decides(f, p) implies derefs(
                acc@,
            ) + walk_filtered(dirs@.skip(i as int + 1), p) == derefs(old(acc)@)
                + #[trigger] walk_filtered(dirs@, p) by {
                assert(dir.entries@.skip(m as int) =~= Seq::<Entry>::empty());
                assert(walk_filtered_subs(Seq::<Entry>::empty(), p) =~= Seq::<
                    ImageFileDirectory,
                >::empty());
                assert(derefs(acc@) + walk_filtered(dirs@.skip(i as int + 1), p) =~= derefs(acc@)
                    + walk_filtered_subs(dir.entries@.skip(m as int), p) + walk_filtered(
                    dirs@.skip(i as int + 1),
                    p,
                ));
            }
        }
        i = i + 1;
    }
    proof {
        assert forall|p: spec_fn(ImageFileDirectory) -> bool| decides(f, p) implies derefs(acc@)
            == derefs(old(acc)@) + #[trigger] walk_filtered(dirs@, p) by {
            assert(dirs@.skip(n as int) =~= Seq::<ImageFileDirectory>::empty());
            assert(walk_filtered(Seq::<ImageFileDirectory>::empty(), p) =~= Seq::<
                ImageFileDirectory,
            >::empty());
            assert(derefs(acc@) =~= derefs(acc@) + walk_filtered(dirs@.skip(n as int), p));
        }
    }
}

/// Copy a u32 array, element for element.
fn copy_u32s(v: &Vec<u32>) -> (r: Vec<u32>)
    ensures
        r@ == v@,
{
    let mut r: Vec<u32> = Vec::new();
    let mut i: usize = 0;
    while i < v.len()
        invariant
            0 <= i <= v@.len(),
            r@.len() == i,
            forall|j: int| 0 <= j < i ==> r@[j] == v@[j],
        decreases v@.len() - i,
    {
        r.push(v[i]);
        i = i + 1;
    }
    proof {
        assert(r@ =~= v@);
    }
    r
}

/// Copy a u16 array, element for element.
fn copy_u16s(v: &Vec<u16>) -> (r: Vec<u16>)
    ensures
        r@ == v@,
{
    let mut r: Vec<u16> = Vec::new();
    let mut i: usize = 0;
    while i < v.len()
        invariant
            0 <= i <= v@.len(),
            r@.len() == i,
            forall|j: int| 0 <= j < i ==> r@[j] == v@[j],
        decreases v@.len() - i,
    {
        r.push(v[i]);
        i = i + 1;
    }
    proof {
        assert(r@ =~= v@);
    }
    r
}

/// Copy a color-filter cell array, element for element.
fn copy_cfa_cells(v: &Vec<CFAPattern>) -> (r: Vec<CFAPattern>)
    ensures
        r@ == v@,
{
    let mut r: Vec<CFAPattern> = Vec::new();
    let mut i: usize = 0;
    while i < v.len()
        invariant
            0 <= i <= v@.len(),
            r@.len() == i,
            forall|j: int| 0 <= j < i ==> r@[j] == v@[j],
        decreases v@.len() - i,
    {
        r.push(v[i]);
        i = i + 1;
    }
    proof {
        assert(r@ =~= v@);
    }
    r
}

} // verus!
