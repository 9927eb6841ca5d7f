//! Byte-stream and bit-reader behaviour on synthetic in-memory files.

use arwdec::error::Error;
use arwdec::stream::bit_stream::BitStream;
use arwdec::tiff::stream::ByteStream;

/// A minimal little-endian TIFF header: magic, the 42 marker, and a first
/// directory offset of 8.
fn le_header() -> Vec<u8> {
    vec![0x49, 0x49, 0x2A, 0x00, 0x08, 0x00, 0x00, 0x00]
}

#[test]
fn bitstream_basic() {}

#[test]
fn bit_stream_basic() {}

#[test]
fn test_read() {
    let mut stream = ByteStream::open(le_header()).expect("Failed to open");
    let result = stream.read_u8().expect("Failed to read");
    assert_eq!(result, 0x49);
}

#[test]
fn test_read_u16() {
    let mut stream = ByteStream::open(le_header()).expect("Failed to open");
    let result = stream.read_u16().expect("Failed to read");
    assert_eq!(result, 0x4949);
}

#[test]
fn test_read_u32() {
    let mut stream = ByteStream::open(le_header()).expect("Failed to open");
    stream.skip(4).expect("Failed to skip");
    let result = stream.read_u32().expect("Failed to read");
    assert_eq!(result, 0x08);
}

#[test]
fn test_fork() {
    let mut stream = ByteStream::open(le_header()).expect("Failed to open");
    stream.skip(4).expect("Failed to skip");
    assert_eq!(stream.position(), 4);
    // A scoped read at another offset succeeds and restores the cursor.
    let word = stream.fetch_u32(0).expect("Failed to fetch");
    assert_eq!(word, 0x002A_4949);
    assert_eq!(stream.position(), 4);
    // A failing scoped read restores the cursor too.
    assert_eq!(stream.fetch_u32(10_000), Err(Error::IoError));
    assert_eq!(stream.position(), 4);
}

#[test]
fn open_selects_little_endian() {
    // "II" magic: multi-byte values are little endian, so the 42 marker
    // reads back as 42.
    let mut stream = ByteStream::open(vec![0x49, 0x49, 0x2A, 0x00]).unwrap();
    stream.skip(2).unwrap();
    assert_eq!(stream.read_u16(), Ok(42));
}

#[test]
fn open_selects_big_endian() {
    // "MM" magic: the same marker bytes are stored big endian.
    let mut stream = ByteStream::open(vec![0x4D, 0x4D, 0x00, 0x2A]).unwrap();
    stream.skip(2).unwrap();
    assert_eq!(stream.read_u16(), Ok(42));
}

#[test]
fn open_rejects_other_magic() {
    assert_eq!(
        ByteStream::open(vec![0x4D, 0x49, 0x2A, 0x00]).err(),
        Some(Error::FormatError)
    );
    assert_eq!(
        ByteStream::open(vec![0x00, 0x00, 0x00, 0x00]).err(),
        Some(Error::FormatError)
    );
}

#[test]
fn open_rejects_short_source() {
    assert_eq!(ByteStream::open(vec![0x49]).err(), Some(Error::IoError));
}

#[test]
fn fetch_vectors_and_rationals() {
    let mut data = vec![0x49, 0x49];
    // Two u16 values, then one rational (numerator 7, denominator 2).
    data.extend_from_slice(&[0x01, 0x00, 0x02, 0x00]);
    data.extend_from_slice(&[0x07, 0x00, 0x00, 0x00, 0x02, 0x00, 0x00, 0x00]);
    let mut stream = ByteStream::open(data).unwrap();
    let v = stream.fetch_vec_u16(2, 2).unwrap();
    assert_eq!(v, vec![1, 2]);
    let r = stream.fetch_unsigned_rational(6).unwrap();
    assert_eq!(r.numerator, 7);
    assert_eq!(r.denominator, 2);
    assert_eq!(stream.position(), 0);
}

#[test]
fn read_ascii_replaces_invalid_utf8() {
    // The byte 0xFF is not valid UTF-8; the lossy decoding turns it into
    // the replacement character instead of echoing the byte back.
    let mut stream = ByteStream::open(vec![0x49, 0x49, 0xFF, 0x00]).unwrap();
    stream.skip(2).unwrap();
    let s = stream.read_ascii(2).unwrap();
    assert_eq!(s, "\u{FFFD}");
    let mut stream2 = ByteStream::open(vec![0x49, 0x49, 0x53, 0x4F, 0x4E, 0x59, 0x00]).unwrap();
    let s2 = stream2.fetch_ascii(2, 5).unwrap();
    assert_eq!(s2, "SONY");
    assert_eq!(stream2.position(), 0);
}

#[test]
fn read_ascii_consumes_terminator() {
    // Declared length 2: one payload byte plus the NUL, both consumed, so
    // the next read starts right after the terminator.
    let mut stream = ByteStream::open(vec![0x49, 0x49, 0x41, 0x00, 0x42]).unwrap();
    stream.skip(2).unwrap();
    let s = stream.read_ascii(2).unwrap();
    assert_eq!(s, "A");
    assert_eq!(stream.position(), 4);
    assert_eq!(stream.read_u8(), Ok(0x42));
    // Without room for the terminator byte the read fails in place.
    let mut short = ByteStream::open(vec![0x49, 0x49, 0x41]).unwrap();
    short.skip(2).unwrap();
    assert_eq!(short.read_ascii(2), Err(Error::IoError));
    assert_eq!(short.position(), 2);
}

#[test]
fn read_bits_msb_first() {
    // Word 0x12345678 stored little endian after the magic.
    let data = vec![0x49, 0x49, 0x78, 0x56, 0x34, 0x12];
    let mut stream = ByteStream::open(data.clone()).unwrap();
    stream.seek(2);
    let mut bits = BitStream::new();
    assert_eq!(bits.read_bits(&mut stream, 8), Ok(0x12));
    assert_eq!(bits.read_bits(&mut stream, 4), Ok(0x3));
    assert_eq!(bits.read_bits(&mut stream, 20), Ok(0x45678));
    // The stream has no second word.
    assert_eq!(bits.read_bits(&mut stream, 1), Err(Error::IoError));

    // Every prefix width returns the word's top bits.
    for w in 1..=32u8 {
        let mut s = ByteStream::open(data.clone()).unwrap();
        s.seek(2);
        let mut b = BitStream::new();
        let got = b.read_bits(&mut s, w).unwrap();
        assert_eq!(got, 0x1234_5678u32 >> (32 - w as u32));
    }
}

#[test]
fn read_bits_concatenation_reproduces_word() {
    let data = vec![0x49, 0x49, 0xEF, 0xBE, 0xAD, 0xDE];
    let splits: [&[u8]; 4] = [&[32], &[16, 16], &[11, 11, 4, 4, 2], &[1; 32]];
    for widths in splits.iter() {
        let mut s = ByteStream::open(data.clone()).unwrap();
        s.seek(2);
        let mut b = BitStream::new();
        let mut acc: u64 = 0;
        for &w in widths.iter() {
            let v = b.read_bits(&mut s, w).unwrap();
            acc = (acc << w) | v as u64;
        }
        assert_eq!(acc, 0xDEAD_BEEF);
    }
}

#[test]
fn read_bits_spans_words() {
    // Two words; a 32-bit read after a 16-bit read crosses the boundary.
    let data = vec![0x49, 0x49, 0x78, 0x56, 0x34, 0x12, 0xEF, 0xBE, 0xAD, 0xDE];
    let mut stream = ByteStream::open(data).unwrap();
    stream.seek(2);
    let mut bits = BitStream::new();
    assert_eq!(bits.read_bits(&mut stream, 16), Ok(0x1234));
    assert_eq!(bits.read_bits(&mut stream, 32), Ok(0x5678_DEAD));
    assert_eq!(bits.read_bits(&mut stream, 16), Ok(0xBEEF));
}

#[test]
fn skip_rejects_negative_result() {
    let mut stream = ByteStream::open(le_header()).unwrap();
    stream.skip(4).unwrap();
    assert_eq!(stream.skip(-10), Err(Error::IoError));
    assert_eq!(stream.position(), 4);
    stream.skip(-4).unwrap();
    assert_eq!(stream.position(), 0);
}

#[test]
fn signed_reads() {
    // -2 as a little-endian u16, then a signed rational -5/4.
    let mut data = vec![0x49, 0x49];
    data.extend_from_slice(&[0xFE, 0xFF]);
    data.extend_from_slice(&[0xFB, 0xFF, 0xFF, 0xFF, 0x04, 0x00, 0x00, 0x00]);
    let mut stream = ByteStream::open(data).unwrap();
    stream.skip(2).unwrap();
    assert_eq!(stream.read_i16(), Ok(-2));
    let r = stream.read_signed_rational().unwrap();
    assert_eq!((r.numerator, r.denominator), (-5, 4));
    assert_eq!(stream.fetch_i8(2), Ok(-2i8));
    assert_eq!(stream.fetch_i32(4), Ok(-5));
    assert_eq!(stream.position(), 12);
}
