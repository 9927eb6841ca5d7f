//! Directory parsing on synthetic little-endian TIFF files.

use arwdec::error::Error;
use arwdec::tiff::data_type::DataType;
use arwdec::tiff::parser::{parse_entry, parse_image_file_directories, Parser};
use arwdec::tiff::stream::ByteStream;
use arwdec::tiff::{
    CFAPattern, Compression, Entry, Orientation, PhotometricInterpretation, PlanarConfiguration,
    ResolutionUnit, Tiff, YCbCrPositioning,
};

fn p16(v: &mut Vec<u8>, x: u16) {
    v.push((x & 0xFF) as u8);
    v.push((x >> 8) as u8);
}

fn p32(v: &mut Vec<u8>, x: u32) {
    v.push((x & 0xFF) as u8);
    v.push(((x >> 8) & 0xFF) as u8);
    v.push(((x >> 16) & 0xFF) as u8);
    v.push(((x >> 24) & 0xFF) as u8);
}

fn entry(v: &mut Vec<u8>, tag: u16, ty: u16, count: u32, value: u32) {
    p16(v, tag);
    p16(v, ty);
    p32(v, count);
    p32(v, value);
}

fn header(first_ifd: u32) -> Vec<u8> {
    let mut v = Vec::new();
    p16(&mut v, 0x4949);
    p16(&mut v, 42);
    p32(&mut v, first_ifd);
    v
}

fn parse(data: Vec<u8>) -> Result<Tiff, Error> {
    let stream = ByteStream::open(data).unwrap();
    let mut parser = Parser::new(stream);
    parser.parse()
}

#[test]
fn single_directory_chain() {
    // One directory with no entries and a zero next-offset: exactly one
    // directory comes back.
    let mut v = header(8);
    p16(&mut v, 0);
    p32(&mut v, 0);
    let tiff = parse(v).unwrap();
    assert_eq!(tiff.directories.len(), 1);
    assert_eq!(tiff.directories[0].entries.len(), 0);
}

#[test]
fn two_directory_chain() {
    let mut v = header(8);
    p16(&mut v, 0);
    p32(&mut v, 14); // next directory right after this one
    p16(&mut v, 0);
    p32(&mut v, 0);
    let tiff = parse(v).unwrap();
    assert_eq!(tiff.directories.len(), 2);
}

#[test]
fn zero_first_offset_is_empty() {
    let tiff = parse(header(0)).unwrap();
    assert_eq!(tiff.directories.len(), 0);
}

#[test]
fn cyclic_chain_is_rejected() {
    // The directory's next-offset points back at itself; the parser must
    // terminate with an error rather than loop.
    let mut v = header(8);
    p16(&mut v, 0);
    p32(&mut v, 8);
    assert_eq!(parse(v).err(), Some(Error::FormatError));
}

#[test]
fn bad_validity_marker() {
    let mut v = Vec::new();
    p16(&mut v, 0x4949);
    p16(&mut v, 43);
    p32(&mut v, 8);
    assert_eq!(parse(v).err(), Some(Error::FormatError));
}

#[test]
fn truncated_directory() {
    let mut v = header(8);
    p16(&mut v, 1); // one entry promised, none present
    assert_eq!(parse(v).err(), Some(Error::IoError));
}

#[test]
fn type_mismatch_never_a_value() {
    // ImageWidth declared as ASCII: outside its allowed set {U16, U32}.
    let mut v = header(8);
    p16(&mut v, 1);
    entry(&mut v, 256, 2, 1, 640);
    p32(&mut v, 0);
    assert_eq!(parse(v).err(), Some(Error::TypeMismatch(256, DataType::Ascii)));
}

#[test]
fn fixed_arity_count_mismatch() {
    // WhitePoint must carry exactly 2 rationals.
    let mut v = header(8);
    p16(&mut v, 1);
    entry(&mut v, 318, 5, 3, 64);
    p32(&mut v, 0);
    assert_eq!(parse(v).err(), Some(Error::FieldCountMismatch(318)));
}

#[test]
fn scalar_entries_decode() {
    let mut v = header(8);
    p16(&mut v, 3);
    entry(&mut v, 256, 3, 1, 640);
    entry(&mut v, 257, 4, 1, 480);
    entry(&mut v, 259, 3, 1, 32767);
    p32(&mut v, 0);
    let tiff = parse(v).unwrap();
    let es = &tiff.directories[0].entries;
    assert!(matches!(es[0], Entry::ImageWidth(640)));
    assert!(matches!(es[1], Entry::ImageLength(480)));
    assert!(matches!(es[2], Entry::Compression(Compression::SonyARW)));
}

#[test]
fn make_string_via_offset() {
    // Make "SONY" stored indirectly: 5 declared bytes, NUL included.
    let mut v = header(8);
    p16(&mut v, 1);
    let string_at = 8 + 2 + 12 + 4;
    entry(&mut v, 271, 2, 5, string_at);
    p32(&mut v, 0);
    v.extend_from_slice(b"SONY\0");
    let tiff = parse(v).unwrap();
    assert_eq!(tiff.directories[0].make(), Some(String::from("SONY")));
}

#[test]
fn short_make_string_inline() {
    // Three declared bytes fit the 4-byte value slot: read inline.
    let mut v = header(8);
    p16(&mut v, 1);
    p16(&mut v, 271);
    p16(&mut v, 2);
    p32(&mut v, 3);
    v.extend_from_slice(b"AB\0\0");
    p32(&mut v, 0);
    let tiff = parse(v).unwrap();
    assert_eq!(tiff.directories[0].make(), Some(String::from("AB")));
}

#[test]
fn unknown_tag_is_preserved() {
    let mut v = header(8);
    p16(&mut v, 1);
    entry(&mut v, 9999, 4, 1, 0xDEAD);
    p32(&mut v, 0);
    let tiff = parse(v).unwrap();
    match &tiff.directories[0].entries[0] {
        Entry::Unknown(tag, ty, count, value) => {
            assert_eq!(*tag, 9999);
            assert_eq!(*ty, DataType::U32);
            assert_eq!(*count, 1);
            assert_eq!(*value, 0xDEAD);
        }
        other => panic!("expected Unknown, got {:?}", other),
    }
}

#[test]
fn bits_per_sample_array_indirect() {
    let mut v = header(8);
    p16(&mut v, 1);
    let array_at = 8 + 2 + 12 + 4;
    entry(&mut v, 258, 3, 3, array_at);
    p32(&mut v, 0);
    p16(&mut v, 8);
    p16(&mut v, 8);
    p16(&mut v, 8);
    let tiff = parse(v).unwrap();
    match &tiff.directories[0].entries[0] {
        Entry::BitsPerSample(bits) => assert_eq!(bits, &vec![8, 8, 8]),
        other => panic!("expected BitsPerSample, got {:?}", other),
    }
}

#[test]
fn rational_entry() {
    let mut v = header(8);
    p16(&mut v, 1);
    let rat_at = 8 + 2 + 12 + 4;
    entry(&mut v, 282, 5, 1, rat_at);
    p32(&mut v, 0);
    p32(&mut v, 72);
    p32(&mut v, 1);
    let tiff = parse(v).unwrap();
    match &tiff.directories[0].entries[0] {
        Entry::XResolution(r) => {
            assert_eq!(r.numerator, 72);
            assert_eq!(r.denominator, 1);
        }
        other => panic!("expected XResolution, got {:?}", other),
    }
}

#[test]
fn sub_directory_between_siblings() {
    // A sub-directory entry sandwiched between two siblings: the descent
    // must not disturb the parent's position, so the following sibling
    // still decodes.
    let mut v = header(8);
    p16(&mut v, 3);
    let sub_at: u32 = 8 + 2 + 3 * 12 + 4;
    entry(&mut v, 256, 3, 1, 640);
    entry(&mut v, 330, 4, 1, sub_at);
    entry(&mut v, 257, 3, 1, 480);
    p32(&mut v, 0);
    // The nested directory: one entry, no further links.
    p16(&mut v, 1);
    entry(&mut v, 277, 3, 1, 1);
    p32(&mut v, 0);
    let tiff = parse(v).unwrap();
    let es = &tiff.directories[0].entries;
    assert_eq!(es.len(), 3);
    assert!(matches!(es[0], Entry::ImageWidth(640)));
    match &es[1] {
        Entry::SubIFDs(dirs) => {
            assert_eq!(dirs.len(), 1);
            assert!(matches!(dirs[0].entries[0], Entry::SamplesPerPixel(1)));
        }
        other => panic!("expected SubIFDs, got {:?}", other),
    }
    assert!(matches!(es[2], Entry::ImageLength(480)));
}

#[test]
fn cfa_entries_decode() {
    let mut v = header(8);
    p16(&mut v, 2);
    // Dimensions 2x2 inline (two u16 fit the slot), pattern RGGB inline.
    p16(&mut v, 33421);
    p16(&mut v, 3);
    p32(&mut v, 2);
    p16(&mut v, 2);
    p16(&mut v, 2);
    p16(&mut v, 33422);
    p16(&mut v, 1);
    p32(&mut v, 4);
    v.extend_from_slice(&[0, 1, 1, 2]);
    p32(&mut v, 0);
    let tiff = parse(v).unwrap();
    let es = &tiff.directories[0].entries;
    match &es[0] {
        Entry::CFARepeatPatternDim { rows, cols } => {
            assert_eq!((*rows, *cols), (2, 2));
        }
        other => panic!("expected CFARepeatPatternDim, got {:?}", other),
    }
    match &es[1] {
        Entry::CFAPattern(cells) => {
            assert!(matches!(cells[0], CFAPattern::R));
            assert!(matches!(cells[1], CFAPattern::G));
            assert!(matches!(cells[2], CFAPattern::G));
            assert!(matches!(cells[3], CFAPattern::B));
        }
        other => panic!("expected CFAPattern, got {:?}", other),
    }
}

#[test]
fn strip_offsets_u16_widen() {
    // StripOffsets declared as U16: elements are read 2 bytes wide and
    // widened to u32.
    let mut v = header(8);
    p16(&mut v, 1);
    let array_at = 8 + 2 + 12 + 4;
    entry(&mut v, 273, 3, 3, array_at);
    p32(&mut v, 0);
    p16(&mut v, 10);
    p16(&mut v, 20);
    p16(&mut v, 30);
    let tiff = parse(v).unwrap();
    match &tiff.directories[0].entries[0] {
        Entry::StripOffsets(offsets) => assert_eq!(offsets, &vec![10u32, 20, 30]),
        other => panic!("expected StripOffsets, got {:?}", other),
    }
}

#[test]
fn exif_directory_descends() {
    let mut v = header(8);
    p16(&mut v, 1);
    let sub_at: u32 = 8 + 2 + 12 + 4;
    entry(&mut v, 34665, 4, 1, sub_at);
    p32(&mut v, 0);
    p16(&mut v, 1);
    entry(&mut v, 306, 2, 5, sub_at + 2 + 12 + 4);
    p32(&mut v, 0);
    v.extend_from_slice(b"2024\0");
    let tiff = parse(v).unwrap();
    match &tiff.directories[0].entries[0] {
        Entry::ExifIFD(dirs) => match &dirs[0].entries[0] {
            Entry::DateTime(s) => assert_eq!(s, "2024"),
            other => panic!("expected DateTime, got {:?}", other),
        },
        other => panic!("expected ExifIFD, got {:?}", other),
    }
}

#[test]
fn filter_ifd_walks_sub_directories() {
    // Root directory without strips, sub-directory with them: the filter
    // walk finds the nested one.
    let mut v = header(8);
    p16(&mut v, 1);
    let sub_at: u32 = 8 + 2 + 12 + 4;
    entry(&mut v, 330, 4, 1, sub_at);
    p32(&mut v, 0);
    p16(&mut v, 1);
    entry(&mut v, 273, 4, 1, 4096);
    p32(&mut v, 0);
    let tiff = parse(v).unwrap();
    let with_strips = tiff.filter_ifd(|d| d.has_strips());
    assert_eq!(with_strips.len(), 1);
    assert!(matches!(with_strips[0].entries[0], Entry::StripOffsets(_)));
    // The walk is complete and ordered: the parent comes before the
    // sub-directory it points at.
    let all = tiff.filter_ifd(|_| true);
    assert_eq!(all.len(), 2);
    assert!(matches!(all[0].entries[0], Entry::SubIFDs(_)));
    assert!(matches!(all[1].entries[0], Entry::StripOffsets(_)));
}

#[test]
fn assorted_scalar_tags_decode() {
    let mut v = header(8);
    p16(&mut v, 9);
    entry(&mut v, 254, 4, 1, 1);
    entry(&mut v, 262, 3, 1, 32803);
    entry(&mut v, 274, 3, 1, 6);
    entry(&mut v, 277, 3, 1, 3);
    entry(&mut v, 278, 4, 1, 128);
    entry(&mut v, 284, 3, 1, 1);
    entry(&mut v, 296, 3, 1, 2);
    entry(&mut v, 513, 4, 1, 1000);
    entry(&mut v, 531, 3, 1, 2);
    p32(&mut v, 0);
    let tiff = parse(v).unwrap();
    let es = &tiff.directories[0].entries;
    assert!(matches!(es[0], Entry::NewSubFileType { is_thumbnail: true }));
    assert!(matches!(
        es[1],
        Entry::PhotometricInterpretation(PhotometricInterpretation::ColorFilterArray)
    ));
    assert!(matches!(es[2], Entry::Orientation(Orientation::Rotate270)));
    assert!(matches!(es[3], Entry::SamplesPerPixel(3)));
    assert!(matches!(es[4], Entry::RowsPerStrip(128)));
    assert!(matches!(
        es[5],
        Entry::PlanarConfiguration(PlanarConfiguration::Chunky)
    ));
    assert!(matches!(es[6], Entry::ResolutionUnit(ResolutionUnit::Inch)));
    assert!(matches!(es[7], Entry::JPEGInterChangeFormat(true)));
    assert!(matches!(
        es[8],
        Entry::YCbCrPositioning(YCbCrPositioning::CoSited)
    ));
}

#[test]
fn fixed_arity_rational_groups_decode() {
    let mut v = header(8);
    p16(&mut v, 2);
    let white_at: u32 = 8 + 2 + 2 * 12 + 4;
    let ycbcr_at: u32 = white_at + 16;
    entry(&mut v, 318, 5, 2, white_at);
    entry(&mut v, 529, 5, 3, ycbcr_at);
    p32(&mut v, 0);
    for num in [3130u32, 3290] {
        p32(&mut v, num);
        p32(&mut v, 10000);
    }
    for num in [299u32, 587, 114] {
        p32(&mut v, num);
        p32(&mut v, 1000);
    }
    let tiff = parse(v).unwrap();
    let es = &tiff.directories[0].entries;
    match &es[0] {
        Entry::WhitePoint { x, y } => {
            assert_eq!((x.numerator, x.denominator), (3130, 10000));
            assert_eq!((y.numerator, y.denominator), (3290, 10000));
        }
        other => panic!("expected WhitePoint, got {:?}", other),
    }
    match &es[1] {
        Entry::YCbCrCoefficients { luma_red, luma_green, luma_blue } => {
            assert_eq!(luma_red.numerator, 299);
            assert_eq!(luma_green.numerator, 587);
            assert_eq!(luma_blue.numerator, 114);
        }
        other => panic!("expected YCbCrCoefficients, got {:?}", other),
    }
}

#[test]
fn byte_blob_tags_decode() {
    let mut v = header(8);
    p16(&mut v, 2);
    entry(&mut v, 50706, 1, 4, 0x04030201);
    let blob_at: u32 = 8 + 2 + 2 * 12 + 4;
    entry(&mut v, 50740, 1, 6, blob_at);
    p32(&mut v, 0);
    v.extend_from_slice(&[9, 8, 7, 6, 5, 4]);
    let tiff = parse(v).unwrap();
    let es = &tiff.directories[0].entries;
    match &es[0] {
        // Four declared bytes fit the value slot and are read inline.
        Entry::DNGVersion(bytes) => assert_eq!(bytes, &vec![1, 2, 3, 4]),
        other => panic!("expected DNGVersion, got {:?}", other),
    }
    match &es[1] {
        Entry::DNGPrivateData(bytes) => assert_eq!(bytes, &vec![9, 8, 7, 6, 5, 4]),
        other => panic!("expected DNGPrivateData, got {:?}", other),
    }
}

#[test]
fn big_endian_file_parses() {
    let mut v = Vec::new();
    v.extend_from_slice(&[0x4D, 0x4D, 0x00, 0x2A, 0x00, 0x00, 0x00, 0x08]);
    v.extend_from_slice(&[0x00, 0x01]); // one entry
    v.extend_from_slice(&[0x01, 0x00]); // tag 256
    v.extend_from_slice(&[0x00, 0x03]); // type u16
    v.extend_from_slice(&[0x00, 0x00, 0x00, 0x01]); // count 1
    v.extend_from_slice(&[0x00, 0x00, 0x02, 0x80]); // value 640
    v.extend_from_slice(&[0x00, 0x00, 0x00, 0x00]); // end of chain
    let tiff = parse(v).unwrap();
    assert!(matches!(tiff.directories[0].entries[0], Entry::ImageWidth(640)));
}

#[test]
fn parse_entry_advances_exactly_one_record() {
    let mut v = header(0);
    entry(&mut v, 256, 3, 1, 640);
    let mut stream = ByteStream::open(v).unwrap();
    stream.seek(8);
    let e = parse_entry(&mut stream, 16).unwrap();
    assert!(matches!(e, Entry::ImageWidth(640)));
    assert_eq!(stream.position(), 20);
}

#[test]
fn parse_directories_single_link() {
    let mut v = header(8);
    p16(&mut v, 0);
    p32(&mut v, 0);
    let mut stream = ByteStream::open(v).unwrap();
    stream.seek(8);
    let dirs = parse_image_file_directories(&mut stream, 16).unwrap();
    assert_eq!(dirs.len(), 1);
}
