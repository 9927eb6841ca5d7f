//! The data-model helpers: tag and type-code decoding, element widths, and
//! the sample buffer.

use arwdec::img::RawImage;
use arwdec::tiff::data_type::DataType;
use arwdec::tiff::{CFAPattern, CFAPatternDim, Tag};

#[test]
fn tag_codes_decode() {
    assert_eq!(Tag::from(254), Tag::NewSubFileType);
    assert_eq!(Tag::from(255), Tag::SubFileType);
    assert_eq!(Tag::from(256), Tag::ImageWidth);
    assert_eq!(Tag::from(257), Tag::ImageWidth);
    assert_eq!(Tag::from(258), Tag::BitsPerSample);
    assert_eq!(Tag::from(259), Tag::Compression);
    assert_eq!(Tag::from(262), Tag::PhotometricInterpretation);
    assert_eq!(Tag::from(263), Tag::Thresholding);
    assert_eq!(Tag::from(4242), Tag::Unknown(4242));
}

#[test]
fn type_codes_decode_with_sizes() {
    assert_eq!(DataType::from(1), DataType::U8);
    assert_eq!(DataType::from(2), DataType::Ascii);
    assert_eq!(DataType::from(3), DataType::U16);
    assert_eq!(DataType::from(4), DataType::U32);
    assert_eq!(DataType::from(5), DataType::Rational);
    assert_eq!(DataType::from(12), DataType::F64);
    assert_eq!(DataType::from(99), DataType::Unknown(99));
    assert_eq!(DataType::U8.size(), 1);
    assert_eq!(DataType::U16.size(), 2);
    assert_eq!(DataType::U32.size(), 4);
    assert_eq!(DataType::Rational.size(), 8);
    assert_eq!(DataType::SRational.size(), 8);
    assert_eq!(DataType::Unknown(99).size(), 1);
}

#[test]
fn raw_image_set_get_roundtrip() {
    // A 2x2 RGGB tile over a 4x2 plane: each sample lands in the channel
    // its filter cell selects, scaled into the channel's high bits.
    let pattern = vec![CFAPattern::R, CFAPattern::G, CFAPattern::G, CFAPattern::B];
    let dim = CFAPatternDim { width: 2, height: 2 };
    let mut img = RawImage::new(4, 2, pattern, dim);
    assert_eq!(img.width(), 4);
    assert_eq!(img.height(), 2);
    assert_eq!(img.data().len(), 8);
    assert!(img.data().iter().all(|&s| s == 0));
    img.set(0, 0, 0x0100);
    img.set(1, 0, 0x0200);
    img.set(0, 1, 0x0300);
    img.set(1, 1, 0x0400);
    assert_eq!(img.get(0, 0), (0x1000, 0, 0));
    assert_eq!(img.get(1, 0), (0, 0x2000, 0));
    assert_eq!(img.get(0, 1), (0, 0x3000, 0));
    assert_eq!(img.get(1, 1), (0, 0, 0x4000));
    // The tile repeats: (2,0) is an R cell again, still zero.
    assert_eq!(img.get(2, 0), (0, 0, 0));
}
