//! End-to-end decoding of synthetic ARW files: strip location, validation
//! errors, the group sample rules, and the interleaved column stride.

use arwdec::decode_raw;
use arwdec::error::{Error, RequiredField};
use arwdec::img::RawImage;
use arwdec::tiff::{CFAPattern, Compression};

fn p16(v: &mut Vec<u8>, x: u16) {
    v.push((x & 0xFF) as u8);
    v.push((x >> 8) as u8);
}

fn p32(v: &mut Vec<u8>, x: u32) {
    v.push((x & 0xFF) as u8);
    v.push(((x >> 8) & 0xFF) as u8);
    v.push(((x >> 16) & 0xFF) as u8);
    v.push(((x >> 24) & 0xFF) as u8);
}

fn entry(v: &mut Vec<u8>, tag: u16, ty: u16, count: u32, value: u32) {
    p16(v, tag);
    p16(v, ty);
    p32(v, count);
    p32(v, value);
}

/// Append `width` bits of `value`, most significant first.
fn push_bits(bits: &mut Vec<bool>, value: u32, width: u32) {
    for k in 0..width {
        bits.push((value >> (width - 1 - k)) & 1 == 1);
    }
}

/// Pack bits into 32-bit words (first bit most significant) and the words
/// into little-endian bytes, as the bit reader consumes them.
fn bits_to_le_bytes(bits: &[bool]) -> Vec<u8> {
    assert!(bits.len() % 32 == 0);
    let mut out = Vec::new();
    for chunk in bits.chunks(32) {
        let mut w: u32 = 0;
        for &b in chunk {
            w = (w << 1) | (b as u32);
        }
        out.push((w & 0xFF) as u8);
        out.push(((w >> 8) & 0xFF) as u8);
        out.push(((w >> 16) & 0xFF) as u8);
        out.push(((w >> 24) & 0xFF) as u8);
    }
    out
}

/// One 128-bit ARW2 group.
fn group(bits: &mut Vec<bool>, max: u32, min: u32, imax: u32, imin: u32, mids: [u32; 14]) {
    push_bits(bits, max, 11);
    push_bits(bits, min, 11);
    push_bits(bits, imax, 4);
    push_bits(bits, imin, 4);
    for m in mids {
        push_bits(bits, m, 7);
    }
}

/// A single-strip SONY ARW file: width x height plane, one strip of
/// `strip` bytes, bits-per-sample 8 (forced by the SONY maker anyway).
fn arw_file(width: u32, height: u32, strip: &[u8], declared_count: u32) -> Vec<u8> {
    let mut v = Vec::new();
    p16(&mut v, 0x4949);
    p16(&mut v, 42);
    p32(&mut v, 8);
    let n_entries: u32 = 7;
    let make_at: u32 = 8 + 2 + n_entries * 12 + 4;
    let strip_at: u32 = make_at + 6;
    p16(&mut v, n_entries as u16);
    entry(&mut v, 256, 3, 1, width);
    entry(&mut v, 257, 3, 1, height);
    entry(&mut v, 258, 3, 1, 8);
    entry(&mut v, 259, 3, 1, 32767);
    entry(&mut v, 271, 2, 5, make_at);
    entry(&mut v, 273, 4, 1, strip_at);
    entry(&mut v, 279, 4, 1, declared_count);
    p32(&mut v, 0);
    v.extend_from_slice(b"SONY\0\0");
    assert_eq!(v.len() as u32, strip_at);
    v.extend_from_slice(strip);
    v
}

/// A one-row, 32-column plane: a meaningful first group and a trivial
/// second one covering the odd columns.
fn decode_two_groups(mids: [u32; 14]) -> RawImage {
    let mut bits = Vec::new();
    group(&mut bits, 0x7FF, 0, 0, 1, mids);
    group(&mut bits, 0, 0, 0, 1, [0; 14]);
    let strip = bits_to_le_bytes(&bits);
    assert_eq!(strip.len(), 32);
    let file = arw_file(32, 1, &strip, 32);
    decode_raw(file).expect("decode failed")
}

#[test]
fn end_to_end_single_group() {
    // max = 0x7FF at sample 0, min = 0 at sample 1, every other raw value
    // 1, so with the computed shift 4 the mid samples decode to
    // (1 << 4) << 1 = 32. Even columns carry the group; odd columns stay 0
    // because the second group codes zeros.
    let img = decode_two_groups([1; 14]);
    assert_eq!(img.width(), 32);
    assert_eq!(img.height(), 1);
    let data = img.data();
    assert_eq!(data.len(), 32);
    assert_eq!(data[0], 0x7FF << 1); // the maximum, at its index
    assert_eq!(data[2], 0); // the minimum, at its index
    for i in 2..16 {
        assert_eq!(data[2 * i], 32);
    }
    for x in 0..16 {
        assert_eq!(data[2 * x + 1], 0);
    }
}

#[test]
fn mid_samples_clamp_at_ceiling() {
    // Raw value 127 shifted by 4 plus a minimum of 100 is 2132, above the
    // 11-bit ceiling: the sample clamps to 0x7FF before the final doubling.
    let mut bits = Vec::new();
    group(&mut bits, 0x7FF, 100, 0, 1, [127; 14]);
    group(&mut bits, 0, 0, 0, 1, [0; 14]);
    let strip = bits_to_le_bytes(&bits);
    let file = arw_file(32, 1, &strip, 32);
    let img = decode_raw(file).expect("decode failed");
    assert_eq!(img.data()[2], 100 << 1); // the minimum itself
    assert_eq!(img.data()[4], 0x7FF << 1); // a clamped mid sample
}

#[test]
fn equal_extreme_indices_fail() {
    let mut bits = Vec::new();
    group(&mut bits, 0x7FF, 0, 3, 3, [0; 14]);
    group(&mut bits, 0, 0, 0, 1, [0; 14]);
    let strip = bits_to_le_bytes(&bits);
    let file = arw_file(32, 1, &strip, 32);
    assert_eq!(decode_raw(file).err(), Some(Error::InvariantViolation));
}

#[test]
fn column_stride_visits_interleaved_blocks() {
    // Width 64: four groups per row, based at columns 0, 1, 32 and 33, in
    // that order. Give each group a distinct maximum at sample 0 and check
    // it lands at the group's base column.
    let mut bits = Vec::new();
    group(&mut bits, 100, 0, 0, 1, [0; 14]);
    group(&mut bits, 200, 0, 0, 1, [0; 14]);
    group(&mut bits, 300, 0, 0, 1, [0; 14]);
    group(&mut bits, 400, 0, 0, 1, [0; 14]);
    let strip = bits_to_le_bytes(&bits);
    assert_eq!(strip.len(), 64);
    let file = arw_file(64, 1, &strip, 64);
    let img = decode_raw(file).expect("decode failed");
    let data = img.data();
    assert_eq!(data[0], 200);
    assert_eq!(data[1], 400);
    assert_eq!(data[32], 600);
    assert_eq!(data[33], 800);
}

#[test]
fn legacy_format_detected() {
    // A declared byte count that breaks count*8 == width*height*bits is
    // the old packing: rejected before any decoding.
    let mut bits = Vec::new();
    group(&mut bits, 0x7FF, 0, 0, 1, [0; 14]);
    group(&mut bits, 0, 0, 0, 1, [0; 14]);
    let strip = bits_to_le_bytes(&bits);
    let file = arw_file(32, 1, &strip, 31);
    assert_eq!(decode_raw(file).err(), Some(Error::LegacyFormatUnsupported));
}

fn file_without_tag(drop_tag: u16) -> Vec<u8> {
    let mut bits = Vec::new();
    group(&mut bits, 0x7FF, 0, 0, 1, [0; 14]);
    group(&mut bits, 0, 0, 0, 1, [0; 14]);
    let strip = bits_to_le_bytes(&bits);
    let all: [(u16, u16, u32, u32); 6] = [
        (256, 3, 1, 32),
        (257, 3, 1, 1),
        (258, 3, 1, 8),
        (259, 3, 1, 32767),
        (273, 4, 1, 0),
        (279, 4, 1, 32),
    ];
    let kept: Vec<_> = all.iter().filter(|e| e.0 != drop_tag).collect();
    let n_entries = kept.len() as u32 + 1;
    let make_at: u32 = 8 + 2 + n_entries * 12 + 4;
    let strip_at: u32 = make_at + 6;
    let mut v = Vec::new();
    p16(&mut v, 0x4949);
    p16(&mut v, 42);
    p32(&mut v, 8);
    p16(&mut v, n_entries as u16);
    for &&(tag, ty, count, value) in &kept {
        let value = if tag == 273 { strip_at } else { value };
        entry(&mut v, tag, ty, count, value);
    }
    entry(&mut v, 271, 2, 5, make_at);
    p32(&mut v, 0);
    v.extend_from_slice(b"SONY\0\0");
    v.extend_from_slice(&strip);
    v
}

#[test]
fn missing_required_fields() {
    assert_eq!(
        decode_raw(file_without_tag(256)).err(),
        Some(Error::MissingField(RequiredField::ImageWidth))
    );
    assert_eq!(
        decode_raw(file_without_tag(257)).err(),
        Some(Error::MissingField(RequiredField::ImageLength))
    );
    assert_eq!(
        decode_raw(file_without_tag(258)).err(),
        Some(Error::MissingField(RequiredField::BitsPerSample))
    );
    assert_eq!(
        decode_raw(file_without_tag(279)).err(),
        Some(Error::MissingField(RequiredField::StripByteCounts))
    );
    // Without strip offsets no directory qualifies at all.
    assert_eq!(decode_raw(file_without_tag(273)).err(), Some(Error::NoStripData));
}

#[test]
fn unsupported_compression_reported() {
    let mut bits = Vec::new();
    group(&mut bits, 0x7FF, 0, 0, 1, [0; 14]);
    group(&mut bits, 0, 0, 0, 1, [0; 14]);
    let strip = bits_to_le_bytes(&bits);
    let mut file = arw_file(32, 1, &strip, 32);
    // Rewrite the compression entry's value slot (entry 3 of 7) to 1.
    let comp_value_at = 8 + 2 + 3 * 12 + 8;
    file[comp_value_at] = 1;
    file[comp_value_at + 1] = 0;
    assert_eq!(
        decode_raw(file).err(),
        Some(Error::UnsupportedCompression(Some(Compression::NoCompression)))
    );
}

#[test]
fn non_sony_maker_rejected() {
    let mut bits = Vec::new();
    group(&mut bits, 0x7FF, 0, 0, 1, [0; 14]);
    group(&mut bits, 0, 0, 0, 1, [0; 14]);
    let strip = bits_to_le_bytes(&bits);
    let mut file = arw_file(32, 1, &strip, 32);
    let make_at = 8 + 2 + 7 * 12 + 4;
    file[make_at] = b'P';
    assert_eq!(decode_raw(file).err(), Some(Error::FormatError));
}

#[test]
fn short_strip_is_io_error() {
    // The strip tables point past the end of the file.
    let file = arw_file(32, 1, &[], 32);
    assert_eq!(decode_raw(file).err(), Some(Error::IoError));
}

#[test]
fn two_row_plane_reads_row_strides() {
    // Height 2: each row is coded independently, width bytes after the
    // previous one. Distinct maxima per row land in their own rows.
    let mut bits = Vec::new();
    group(&mut bits, 100, 0, 0, 1, [0; 14]);
    group(&mut bits, 0, 0, 0, 1, [0; 14]);
    group(&mut bits, 300, 0, 0, 1, [0; 14]);
    group(&mut bits, 0, 0, 0, 1, [0; 14]);
    let strip = bits_to_le_bytes(&bits);
    assert_eq!(strip.len(), 64);
    let file = arw_file(32, 2, &strip, 64);
    let img = decode_raw(file).expect("decode failed");
    assert_eq!(img.height(), 2);
    let data = img.data();
    assert_eq!(data[0], 200);
    assert_eq!(data[32], 600);
}

/// A file whose strip tables hold `n_offsets` offsets and `n_counts`
/// counts, each array stored indirectly.
fn multi_strip_file(n_offsets: u32, n_counts: u32) -> Vec<u8> {
    let mut bits = Vec::new();
    group(&mut bits, 0x7FF, 0, 0, 1, [0; 14]);
    group(&mut bits, 0, 0, 0, 1, [0; 14]);
    let strip = bits_to_le_bytes(&bits);
    let n_entries: u32 = 7;
    let make_at: u32 = 8 + 2 + n_entries * 12 + 4;
    let offsets_at: u32 = make_at + 6;
    let counts_at: u32 = offsets_at + 4 * n_offsets;
    let strip_at: u32 = counts_at + 4 * n_counts;
    let mut v = Vec::new();
    p16(&mut v, 0x4949);
    p16(&mut v, 42);
    p32(&mut v, 8);
    p16(&mut v, n_entries as u16);
    entry(&mut v, 256, 3, 1, 32);
    entry(&mut v, 257, 3, 1, 1);
    entry(&mut v, 258, 3, 1, 8);
    entry(&mut v, 259, 3, 1, 32767);
    entry(&mut v, 271, 2, 5, make_at);
    entry(&mut v, 273, 4, n_offsets, offsets_at);
    entry(&mut v, 279, 4, n_counts, counts_at);
    p32(&mut v, 0);
    v.extend_from_slice(b"SONY\0\0");
    for _ in 0..n_offsets {
        p32(&mut v, strip_at);
    }
    for _ in 0..n_counts {
        p32(&mut v, 32);
    }
    v.extend_from_slice(&strip);
    v
}

#[test]
fn multiple_strips_unsupported() {
    assert_eq!(
        decode_raw(multi_strip_file(2, 2)).err(),
        Some(Error::MultipleStripsUnsupported)
    );
}

#[test]
fn strip_count_mismatch() {
    assert_eq!(
        decode_raw(multi_strip_file(1, 2)).err(),
        Some(Error::StripCountMismatch)
    );
}

#[test]
fn inconsistent_cfa_declaration() {
    // A CFA pattern without its dimensions cannot satisfy the tile
    // invariant.
    let mut bits = Vec::new();
    group(&mut bits, 0x7FF, 0, 0, 1, [0; 14]);
    group(&mut bits, 0, 0, 0, 1, [0; 14]);
    let strip = bits_to_le_bytes(&bits);
    let n_entries: u32 = 8;
    let make_at: u32 = 8 + 2 + n_entries * 12 + 4;
    let strip_at: u32 = make_at + 6;
    let mut v = Vec::new();
    p16(&mut v, 0x4949);
    p16(&mut v, 42);
    p32(&mut v, 8);
    p16(&mut v, n_entries as u16);
    entry(&mut v, 256, 3, 1, 32);
    entry(&mut v, 257, 3, 1, 1);
    entry(&mut v, 258, 3, 1, 8);
    entry(&mut v, 259, 3, 1, 32767);
    entry(&mut v, 271, 2, 5, make_at);
    entry(&mut v, 273, 4, 1, strip_at);
    entry(&mut v, 279, 4, 1, 32);
    p16(&mut v, 33422);
    p16(&mut v, 1);
    p32(&mut v, 4);
    v.extend_from_slice(&[0, 1, 1, 2]);
    p32(&mut v, 0);
    v.extend_from_slice(b"SONY\0\0");
    v.extend_from_slice(&strip);
    assert_eq!(
        decode_raw(v).err(),
        Some(Error::FieldCountMismatch(33422))
    );
}

#[test]
fn declared_cfa_reaches_the_buffer() {
    // A 2x2 RGGB tile declared alongside the strip ends up on the decoded
    // buffer and drives the per-sample colors.
    let mut bits = Vec::new();
    group(&mut bits, 0x7FF, 0, 0, 1, [0; 14]);
    group(&mut bits, 0, 0, 0, 1, [0; 14]);
    let strip = bits_to_le_bytes(&bits);
    let n_entries: u32 = 9;
    let make_at: u32 = 8 + 2 + n_entries * 12 + 4;
    let strip_at: u32 = make_at + 6;
    let mut v = Vec::new();
    p16(&mut v, 0x4949);
    p16(&mut v, 42);
    p32(&mut v, 8);
    p16(&mut v, n_entries as u16);
    entry(&mut v, 256, 3, 1, 32);
    entry(&mut v, 257, 3, 1, 1);
    entry(&mut v, 258, 3, 1, 8);
    entry(&mut v, 259, 3, 1, 32767);
    entry(&mut v, 271, 2, 5, make_at);
    entry(&mut v, 273, 4, 1, strip_at);
    entry(&mut v, 279, 4, 1, 32);
    p16(&mut v, 33421);
    p16(&mut v, 3);
    p32(&mut v, 2);
    p16(&mut v, 2);
    p16(&mut v, 2);
    p16(&mut v, 33422);
    p16(&mut v, 1);
    p32(&mut v, 4);
    v.extend_from_slice(&[0, 1, 1, 2]);
    p32(&mut v, 0);
    v.extend_from_slice(b"SONY\0\0");
    v.extend_from_slice(&strip);
    let img = decode_raw(v).expect("decode failed");
    let dim = img.cfa_dim();
    assert_eq!((dim.width, dim.height), (2, 2));
    assert!(matches!(img.cfa_pattern()[0], CFAPattern::R));
    // Sample (0,0) holds the group maximum and sits on an R cell.
    let (r, g, b) = img.get(0, 0);
    assert_eq!((r, g, b), ((0xFFEu16) << 4, 0, 0));
}
