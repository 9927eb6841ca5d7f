//! The Sony ARW decoder: locates the strip directory in the parsed tree,
//! validates every precondition of the ARW2 row coding, and hands the strip
//! to the decompressor.

use crate::error::{Error, RequiredField};
use crate::img::RawImage;
use crate::raw::decoder::RawDecoder;
use crate::raw::decompressor::arw2::{plane_err, plane_sample, Arw2Decompressor};
use crate::tiff::stream::{ByteOrder, ByteStream};
use crate::tiff::{
    first_bits_per_sample, first_cfa_dim, first_cfa_pattern, first_compression, first_height,
    first_make, first_strip_byte_counts, first_strip_offsets, first_width, has_strip_offsets,
    CFAPattern, CFAPatternDim, Compression, Entry, ImageFileDirectory, Tiff,
};
use vstd::prelude::*;
use vstd::string::StringExecFns;

verus! {

/// The first directory of the tree, in walk order (a directory before its
/// sub-directories, sub-directories before the next sibling), that declares
/// strip data.
pub open spec fn find_strip_in_dirs(dirs: Seq<ImageFileDirectory>) -> Option<ImageFileDirectory>
    decreases dirs,
{
    if dirs.len() == 0 {
        None
    } else if has_strip_offsets(dirs[0].entries@) {
        Some(dirs[0])
    } else {
        match find_strip_in_subs(dirs[0].entries@) {
            Some(d) => Some(d),
            None => find_strip_in_dirs(dirs.drop_first()),
        }
    }
}

/// The first strip directory among the sub-directory trees the entries
/// point at.
pub open spec fn find_strip_in_subs(es: Seq<Entry>) -> Option<ImageFileDirectory>
    decreases es,
{
    if es.len() == 0 {
        None
    } else {
        let head = match es[0] {
            Entry::SubIFDs(ds) => find_strip_in_dirs(ds@),
            _ => None,
        };
        match head {
            Some(d) => Some(d),
            None => find_strip_in_subs(es.drop_first()),
        }
    }
}


/// Whether a directory's maker string is exactly `SONY`.
pub open spec fn dir_is_sony(dir: ImageFileDirectory) -> bool {
    match first_make(dir.entries@) {
        Some(s) => s@ == "SONY"@,
        None => false,
    }
}

/// Whether any directory of the tree, sub-directories included, declares a
/// `SONY` maker.
pub open spec fn any_sony_in_dirs(dirs: Seq<ImageFileDirectory>) -> bool
    decreases dirs,
{
    if dirs.len() == 0 {
        false
    } else {
        dir_is_sony(dirs[0]) || any_sony_in_subs(dirs[0].entries@) || any_sony_in_dirs(
            dirs.drop_first(),
        )
    }
}

/// Whether any sub-directory tree the entries point at declares a `SONY`
/// maker.
pub open spec fn any_sony_in_subs(es: Seq<Entry>) -> bool
    decreases es,
{
    if es.len() == 0 {
        false
    } else {
        (match es[0] {
            Entry::SubIFDs(ds) => any_sony_in_dirs(ds@),
            _ => false,
        }) || any_sony_in_subs(es.drop_first())
    }
}

/// Find the first strip-bearing directory of the tree, in walk order.
fn find_strip_dir_in(dirs: &Vec<ImageFileDirectory>) -> (r: Option<&ImageFileDirectory>)
    ensures
        match r {
            Some(d) => find_strip_in_dirs(dirs@) == Some(*d),
            None => find_strip_in_dirs(dirs@) is None,
        },
    decreases dirs@,
{
    let n: usize = dirs.len();
    let mut i: usize = 0;
    proof {
        assert(dirs@.skip(0) =~= dirs@);
    }
    while i < n
        invariant
            0 <= i <= n,
            n == dirs@.len(),
            find_strip_in_dirs(dirs@.skip(i as int)) == find_strip_in_dirs(dirs@),
        decreases n - i,
    {
        proof {
            assert(dirs@.skip(i as int)[0] == dirs@[i as int]);
            assert(dirs@.skip(i as int).drop_first() =~= dirs@.skip(i as int + 1));
        }
        let dir = &dirs[i];
        if dir.has_strips() {
            return Some(dir);
        }
        let m: usize = dir.entries.len();
        let mut j: usize = 0;
        proof {
            assert(dir.entries@.skip(0) =~= dir.entries@);
        }
        while j < m
            invariant
                0 <= j <= m,
                0 <= i < n,
                n == dirs@.len(),
                m == dir.entries@.len(),
                dir == &dirs[i as int],
                find_strip_in_dirs(dirs@.skip(i as int)) == find_strip_in_dirs(dirs@),
                !has_strip_offsets(dir.entries@),
                find_strip_in_subs(dir.entries@.skip(j as int)) == find_strip_in_subs(
                    dir.entries@,
                ),
            decreases m - j,
        {
            proof {
                assert(dir.entries@.skip(j as int)[0] == dir.entries@[j as int]);
                assert(dir.entries@.skip(j as int).drop_first() =~= dir.entries@.skip(
                    j as int + 1,
                ));
            }
            match &dir.entries[j] {
                Entry::SubIFDs(ds) => {
                    proof {
                        broadcast use vstd::seq::axiom_seq_index_decreases;
                        broadcast use vstd::std_specs::vec::axiom_vec_decreases_to_view;
                        broadcast use vstd::std_specs::vec::axiom_vec_index_decreases;

                        assert(decreases_to!(dirs@ => dirs@[i as int]));
                        assert(decreases_to!(dirs@[i as int] => dirs@[i as int].entries));
                        assert(decreases_to!(dirs@[i as int].entries => dir.entries@[j as int]));
                        assert(decreases_to!(dir.entries@[j as int] => ds@));
                    }
                    match find_strip_dir_in(ds) {
                        Some(d) => {
                            return Some(d);
                        },
                        None => {},
                    }
                },
                _ => {},
            }
            j = j + 1;
        }
        proof {
            assert(dir.entries@.skip(m as int) =~= Seq::<Entry>::empty());
        }
        i = i + 1;
    }
    proof {
        assert(dirs@.skip(n as int) =~= Seq::<ImageFileDirectory>::empty());
    }
    None
}

/// Whether this directory's maker string is exactly `SONY`.
fn is_sony_dir(dir: &ImageFileDirectory) -> (r: bool)
    ensures
        r == dir_is_sony(*dir),
{
    match dir.make() {
        Some(s) => {
            let sony: String = String::from_str("SONY");
            s == sony
        },
        None => false,
    }
}

/// Whether any directory of the tree declares a `SONY` maker.
fn any_sony_in(dirs: &Vec<ImageFileDirectory>) -> (r: bool)
    ensures
        r == any_sony_in_dirs(dirs@),
    decreases dirs@,
{
    let n: usize = dirs.len();
    let mut i: usize = 0;
    proof {
        assert(dirs@.skip(0) =~= dirs@);
    }
    while i < n
        invariant
            0 <= i <= n,
            n == dirs@.len(),
            any_sony_in_dirs(dirs@) == any_sony_in_dirs(dirs@.skip(i as int)),
        decreases n - i,
    {
        proof {
            assert(dirs@.skip(i as int)[0] == dirs@[i as int]);
            assert(dirs@.skip(i as int).drop_first() =~= dirs@.skip(i as int + 1));
        }
        let dir = &dirs[i];
        if is_sony_dir(dir) {
            return true;
        }
        let m: usize = dir.entries.len();
        let mut j: usize = 0;
        proof {
            assert(dir.entries@.skip(0) =~= dir.entries@);
        }
        while j < m
            invariant
                0 <= j <= m,
                0 <= i < n,
                n == dirs@.len(),
                m == dir.entries@.len(),
                dir == &dirs[i as int],
                any_sony_in_dirs(dirs@) == any_sony_in_dirs(dirs@.skip(i as int)),
                !dir_is_sony(dirs@[i as int]),
                any_sony_in_subs(dir.entries@.skip(j as int)) == any_sony_in_subs(dir.entries@),
            decreases m - j,
        {
            proof {
                assert(dir.entries@.skip(j as int)[0] == dir.entries@[j as int]);
                assert(dir.entries@.skip(j as int).drop_first() =~= dir.entries@.skip(
                    j as int + 1,
                ));
            }
            match &dir.entries[j] {
                Entry::SubIFDs(ds) => {
                    proof {
                        broadcast use vstd::seq::axiom_seq_index_decreases;
                        broadcast use vstd::std_specs::vec::axiom_vec_decreases_to_view;
                        broadcast use vstd::std_specs::vec::axiom_vec_index_decreases;

                        assert(decreases_to!(dirs@ => dirs@[i as int]));
                        assert(decreases_to!(dirs@[i as int] => dirs@[i as int].entries));
                        assert(decreases_to!(dirs@[i as int].entries => dir.entries@[j as int]));
                        assert(decreases_to!(dir.entries@[j as int] => ds@));
                    }
                    if any_sony_in(ds) {
                        return true;
                    }
                },
                _ => {},
            }
            j = j + 1;
        }
        proof {
            assert(dir.entries@.skip(m as int) =~= Seq::<Entry>::empty());
        }
        i = i + 1;
    }
    proof {
        assert(dirs@.skip(n as int) =~= Seq::<ImageFileDirectory>::empty());
    }
    false
}

/// The color-filter tile the strip directory resolves to: the declared tile
/// when dimensions and cells are present and consistent, the trivial
/// one-cell tile when neither is declared, and nothing otherwise.
pub open spec fn resolved_cfa(es: Seq<Entry>) -> Option<(CFAPatternDim, Seq<CFAPattern>)> {
    match (first_cfa_dim(es), first_cfa_pattern(es)) {
        (Some(dim), Some(pat)) => {
            if dim.0 >= 1 && dim.1 >= 1 && pat.len() == (dim.1 as int) * (dim.0 as int) {
                Some(
                    (
                        CFAPatternDim { width: dim.1 as usize, height: dim.0 as usize },
                        pat,
                    ),
                )
            } else {
                None
            }
        },
        (None, None) => Some(
            (CFAPatternDim { width: 1, height: 1 }, seq![CFAPattern::Unknown(0)]),
        ),
        _ => None,
    }
}

/// Whether the decoder accepts the file: its first root directory names
/// `SONY` as the maker.
pub open spec fn acceptable_spec(t: Tiff) -> bool {
    t.directories@.len() > 0 && dir_is_sony(t.directories@[0])
}

/// The first failure of the ARW decode over a parsed file, in the order the
/// decoder validates: no strip directory anywhere; a compression other than
/// the Sony ARW code; a missing width, height, strip table or bits-per-
/// sample; more than one strip; mismatched strip tables; an empty
/// bits-per-sample array; a strip size that does not match the plane (the
/// legacy packing); an inconsistent color-filter declaration; a geometry
/// the row coding cannot tile; and finally the strip's own decode errors.
pub open spec fn arw_decode_err(d: Seq<u8>, en: ByteOrder, t: Tiff) -> Option<Error> {
    match find_strip_in_dirs(t.directories@) {
        None => Some(Error::NoStripData),
        Some(dir) => {
            let es = dir.entries@;
            if first_compression(es) != Some(Compression::SonyARW) {
                Some(Error::UnsupportedCompression(first_compression(es)))
            } else if first_width(es) is None {
                Some(Error::MissingField(RequiredField::ImageWidth))
            } else if first_height(es) is None {
                Some(Error::MissingField(RequiredField::ImageLength))
            } else if first_strip_offsets(es) is None {
                Some(Error::MissingField(RequiredField::StripOffsets))
            } else if first_strip_byte_counts(es) is None {
                Some(Error::MissingField(RequiredField::StripByteCounts))
            } else if first_bits_per_sample(es) is None {
                Some(Error::MissingField(RequiredField::BitsPerSample))
            } else if first_strip_offsets(es).unwrap().len() != 1 {
                Some(Error::MultipleStripsUnsupported)
            } else if first_strip_byte_counts(es).unwrap().len() != 1 {
                Some(Error::StripCountMismatch)
            } else if first_bits_per_sample(es).unwrap().len() == 0 {
                Some(Error::MissingField(RequiredField::BitsPerSample))
            } else {
                let w = first_width(es).unwrap() as int;
                let h = first_height(es).unwrap() as int;
                let count = first_strip_byte_counts(es).unwrap()[0] as int;
                let off0 = first_strip_offsets(es).unwrap()[0] as int;
                let bpp: int = if any_sony_in_dirs(t.directories@) {
                    8
                } else {
                    first_bits_per_sample(es).unwrap()[0] as int
                };
                if count * 8 != w * h * bpp {
                    Some(Error::LegacyFormatUnsupported)
                } else if resolved_cfa(es) is None {
                    Some(Error::FieldCountMismatch(33422))
                } else if w % 32 != 0 {
                    Some(Error::InvariantViolation)
                } else if w * h > usize::MAX {
                    Some(Error::InvariantViolation)
                } else {
                    plane_err(d, en, off0, w, h)
                }
            }
        },
    }
}

/// What a successful ARW decode returns: a plane with the strip directory's
/// geometry and resolved color filter, every sample equal to its group's
/// decoded value.
pub open spec fn arw_decode_matches(d: Seq<u8>, en: ByteOrder, t: Tiff, img: RawImage) -> bool {
    match find_strip_in_dirs(t.directories@) {
        None => false,
        Some(dir) => {
            let es = dir.entries@;
            let w = first_width(es).unwrap() as int;
            let h = first_height(es).unwrap() as int;
            let off0 = first_strip_offsets(es).unwrap()[0] as int;
            &&& img.wf()
            &&& img.width_spec() == w
            &&& img.height_spec() == h
            &&& resolved_cfa(es) == Some((img.cfa_dim_spec(), img.cfa_pattern_spec()))
            &&& forall|x: int, y: int|
                0 <= x < w && 0 <= y < h ==> img.data_spec()[y * w + x] == plane_sample(
                    d,
                    en,
                    off0,
                    w,
                    x,
                    y,
                )
        },
    }
}

/// Decodes Sony ARW files: checks the maker, locates and validates the
/// strip directory, and decompresses the strip.
pub struct ArwDecoder {
    stream: ByteStream,
    tiff: Tiff,
}

impl ArwDecoder {
    /// The stream the strip is read from.
    pub closed spec fn stream_spec(&self) -> ByteStream {
        self.stream
    }

    /// The parsed directory tree.
    pub closed spec fn tiff_spec(&self) -> Tiff {
        self.tiff
    }

    /// A decoder over a parsed file and its stream.
    pub fn new(stream: ByteStream, tiff: Tiff) -> (r: ArwDecoder)
        ensures
            r.stream_spec() == stream,
            r.tiff_spec() == tiff,
    {
        ArwDecoder { stream, tiff }
    }

    /// Whether the file's first root directory names `SONY` as its maker.
    pub fn is_acceptable(&self) -> (r: bool)
        ensures
            r == acceptable_spec(self.tiff_spec()),
    {
        match self.tiff.root_ifd() {
            Some(ifd) => match ifd.make() {
                Some(s) => {
                    let sony: String = String::from_str("SONY");
                    s == sony
                },
                None => false,
            },
            None => false,
        }
    }

    /// Validate the strip directory and decode the strip. Succeeds exactly
    /// when no condition of [`arw_decode_err`] fails, and then returns the
    /// plane [`arw_decode_matches`] describes.
    pub fn decode(&mut self) -> (r: Result<RawImage, Error>)
        ensures
            final(self).stream_spec().bytes() == old(self).stream_spec().bytes(),
            final(self).stream_spec().order() == old(self).stream_spec().order(),
            final(self).tiff_spec() == old(self).tiff_spec(),
            match r {
                Ok(img) => arw_decode_err(
                    old(self).stream_spec().bytes(),
                    old(self).stream_spec().order(),
                    old(self).tiff_spec(),
                ) is None && arw_decode_matches(
                    old(self).stream_spec().bytes(),
                    old(self).stream_spec().order(),
                    old(self).tiff_spec(),
                    img,
                ),
                Err(e) => arw_decode_err(
                    old(self).stream_spec().bytes(),
                    old(self).stream_spec().order(),
                    old(self).tiff_spec(),
                ) == Some(e),
            },
    {
        let dir: &ImageFileDirectory = match find_strip_dir_in(&self.tiff.directories) {
            Some(d) => d,
            None => {
                return Err(Error::NoStripData);
            },
        };
        let compression: Option<Compression> = dir.compression();
        let is_arw: bool = match compression {
            Some(Compression::SonyARW) => true,
            _ => false,
        };
        if !is_arw {
            return Err(Error::UnsupportedCompression(compression));
        }
        let width32: u32 = match dir.image_width() {
            Some(v) => v,
            None => {
                return Err(Error::MissingField(RequiredField::ImageWidth));
            },
        };
        let height32: u32 = match dir.image_height() {
            Some(v) => v,
            None => {
                return Err(Error::MissingField(RequiredField::ImageLength));
            },
        };
        let offsets: Vec<u32> = match dir.strip_byte_offsets() {
            Some(v) => v,
            None => {
                return Err(Error::MissingField(RequiredField::StripOffsets));
            },
        };
        let counts: Vec<u32> = match dir.strip_byte_counts() {
            Some(v) => v,
            None => {
                return Err(Error::MissingField(RequiredField::StripByteCounts));
            },
        };
        let bpps: Vec<u16> = match dir.bits_per_sample() {
            Some(v) => v,
            None => {
                return Err(Error::MissingField(RequiredField::BitsPerSample));
            },
        };
        if offsets.len() != 1 {
            return Err(Error::MultipleStripsUnsupported);
        }
        if counts.len() != 1 {
            return Err(Error::StripCountMismatch);
        }
        if bpps.len() == 0 {
            return Err(Error::MissingField(RequiredField::BitsPerSample));
        }
        let offset: u32 = offsets[0];
        let count: u32 = counts[0];
        let mut bpp: u16 = bpps[0];
        if any_sony_in(&self.tiff.directories) {
            bpp = 8;
        }
        proof {
            let wi = width32 as int;
            let hi = height32 as int;
            let bi = bpp as int;
            assert(0 <= wi * hi <= 0xffff_ffff * 0xffff_ffff) by (nonlinear_arith)
                requires
                    0 <= wi <= 0xffff_ffff,
                    0 <= hi <= 0xffff_ffff,
            ;
            assert(0 <= wi * hi * bi <= 0xffff_ffff * 0xffff_ffff * 0xffff) by (nonlinear_arith)
                requires
                    0 <= wi * hi <= 0xffff_ffff * 0xffff_ffff,
                    0 <= bi <= 0xffff,
            ;
        }
        if (count as u128) * 8 != (width32 as u128) * (height32 as u128) * (bpp as u128) {
            return Err(Error::LegacyFormatUnsupported);
        }
        let dim_opt: Option<(u16, u16)> = dir.cfa_repeat_pattern_dim();
        let pat_opt: Option<Vec<CFAPattern>> = dir.cfa_pattern();
        let (cfa_dim, cfa_pat): (CFAPatternDim, Vec<CFAPattern>) = match (dim_opt, pat_opt) {
            (Some((rows, cols)), Some(pat)) => {
                proof {
                    assert(0 <= (rows as int) * (cols as int) <= 0xffff * 0xffff)
                        by (nonlinear_arith)
                        requires
                            0 <= rows as int <= 0xffff,
                            0 <= cols as int <= 0xffff,
                    ;
                }
                if rows >= 1 && cols >= 1 && pat.len() == (rows as usize) * (cols as usize) {
                    (CFAPatternDim { width: cols as usize, height: rows as usize }, pat)
                } else {
                    return Err(Error::FieldCountMismatch(33422));
                }
            },
            (None, None) => {
                let mut p: Vec<CFAPattern> = Vec::new();
                p.push(CFAPattern::Unknown(0));
                proof {
                    assert(p@ =~= seq![CFAPattern::Unknown(0)]);
                }
                (CFAPatternDim { width: 1, height: 1 }, p)
            },
            _ => {
                return Err(Error::FieldCountMismatch(33422));
            },
        };
        if width32 % 32 != 0 {
            return Err(Error::InvariantViolation);
        }
        if (width32 as u64) * (height32 as u64) > (usize::MAX as u64) {
            return Err(Error::InvariantViolation);
        }
        let width: usize = width32 as usize;
        let height: usize = height32 as usize;
        let mut tmp: ByteStream = ByteStream::empty();
        core::mem::swap(&mut tmp, &mut self.stream);
        let mut dec: Arw2Decompressor = Arw2Decompressor::new(
            tmp,
            width,
            height,
            offset as usize,
            count as usize,
            cfa_pat,
            cfa_dim,
        );
        let r: Result<RawImage, Error> = dec.decode();
        let mut back: ByteStream = dec.into_stream();
        core::mem::swap(&mut back, &mut self.stream);
        r
    }
}

impl RawDecoder for ArwDecoder {
    fn is_acceptable(&self) -> bool {
        ArwDecoder::is_acceptable(self)
    }

    fn decode(&mut self) -> Result<RawImage, Error> {
        ArwDecoder::decode(self)
    }
}

} // verus!
