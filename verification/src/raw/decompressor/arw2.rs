//! The ARW2 row decompressor.
//!
//! Each image row is coded as a run of 128-bit groups of 16 samples: an
//! 11-bit maximum, an 11-bit minimum, their two 4-bit positions, and 7 raw
//! bits for each of the other 14 samples, scaled by a shift derived from the
//! max-min spread. A group fills every second column; the column cursor
//! walks two interleaved half-width passes (even columns, then the paired
//! odd columns) so that two groups cover each 32-column block.
//!
//! The spec functions here name every field of every group directly as a
//! bit-slice of the strip's words, and `decode` is proved to fill the whole
//! plane with exactly those values.

use crate::error::Error;
use crate::img::RawImage;
use crate::stream::bit_stream::{bits_to_int, words_bits, BitStream};
use crate::tiff::stream::{ByteOrder, ByteStream};
use crate::tiff::{CFAPattern, CFAPatternDim};
use vstd::arithmetic::power2::{lemma2_to64, pow2};
use vstd::prelude::*;

verus! {

/// The value of the `w` bits at offset `lo` of group `g`, counted from the
/// row's first bit.
pub open spec fn grp_field(d: Seq<u8>, en: ByteOrder, off: int, g: int, lo: int, w: int) -> nat {
    bits_to_int(words_bits(d, en, off).subrange(128 * g + lo, 128 * g + lo + w))
}

/// Group `g`'s 11-bit maximum sample.
pub open spec fn grp_max(d: Seq<u8>, en: ByteOrder, off: int, g: int) -> nat {
    grp_field(d, en, off, g, 0, 11)
}

/// Group `g`'s 11-bit minimum sample.
pub open spec fn grp_min(d: Seq<u8>, en: ByteOrder, off: int, g: int) -> nat {
    grp_field(d, en, off, g, 11, 11)
}

/// Which of the 16 samples is the maximum.
pub open spec fn grp_imax(d: Seq<u8>, en: ByteOrder, off: int, g: int) -> nat {
    grp_field(d, en, off, g, 22, 4)
}

/// Which of the 16 samples is the minimum.
pub open spec fn grp_imin(d: Seq<u8>, en: ByteOrder, off: int, g: int) -> nat {
    grp_field(d, en, off, g, 26, 4)
}

/// The `k`-th 7-bit raw value of group `g`.
pub open spec fn grp_mid(d: Seq<u8>, en: ByteOrder, off: int, g: int, k: int) -> nat {
    grp_field(d, en, off, g, 30 + 7 * k, 7)
}

/// The scale shift for a group: the smallest count in 0 to 4 of doublings
/// of 0x80 whose result exceeds the max-min spread.
pub open spec fn shift_of(maxv: int, minv: int) -> nat {
    if maxv - minv < 0x80 {
        0
    } else if maxv - minv < 0x100 {
        1
    } else if maxv - minv < 0x200 {
        2
    } else if maxv - minv < 0x400 {
        3
    } else {
        4
    }
}

/// Which raw 7-bit value sample `i` takes: its rank among the samples that
/// are neither the maximum nor the minimum.
pub open spec fn mid_index(imax: int, imin: int, i: int) -> int {
    i - (if imax < i {
        1int
    } else {
        0int
    }) - (if imin < i {
        1int
    } else {
        0int
    })
}

/// Sample `i` of group `g`, as stored in the output buffer: the decoded
/// 11-bit value shifted up one bit into its 16-bit slot.
pub open spec fn grp_sample(d: Seq<u8>, en: ByteOrder, off: int, g: int, i: int) -> u16 {
    let maxv = grp_max(d, en, off, g) as int;
    let minv = grp_min(d, en, off, g) as int;
    let imax = grp_imax(d, en, off, g) as int;
    let imin = grp_imin(d, en, off, g) as int;
    if i == imax {
        (2 * maxv) as u16
    } else if i == imin {
        (2 * minv) as u16
    } else {
        let raw = grp_mid(d, en, off, g, mid_index(imax, imin, i)) as int;
        let p = raw * pow2(shift_of(maxv, minv)) + minv;
        if p > 0x7ff {
            (2 * 0x7ff) as u16
        } else {
            (2 * p) as u16
        }
    }
}

/// The first column a group's 16 samples start at: groups alternate between
/// the even and the odd columns of each 32-column block.
pub open spec fn col_base(g: int) -> int {
    32 * (g / 2) + g % 2
}

/// Which group covers column `x` of a row.
pub open spec fn group_of_col(x: int) -> int {
    2 * (x / 32) + x % 2
}

/// Which of its group's 16 samples column `x` holds.
pub open spec fn index_in_col(x: int) -> int {
    (x % 32) / 2
}

/// The decoded sample of column `x`, row `y`, for a strip at `off` in a
/// plane `width` samples wide. Each row is coded independently, `width`
/// bytes after the previous one.
pub open spec fn plane_sample(
    d: Seq<u8>,
    en: ByteOrder,
    off: int,
    width: int,
    x: int,
    y: int,
) -> u16 {
    grp_sample(d, en, off + width * y, group_of_col(x), index_in_col(x))
}

/// How group `g` of the row at `off` fails to decode, if it does: the strip
/// runs out of whole words before the group's header or its raw values, or
/// the header names one sample as both maximum and minimum.
pub open spec fn grp_err(d: Seq<u8>, en: ByteOrder, off: int, g: int) -> Option<Error> {
    let a = words_bits(d, en, off).len() - 128 * g;
    if a < 32 {
        Some(Error::IoError)
    } else if grp_imax(d, en, off, g) == grp_imin(d, en, off, g) {
        Some(Error::InvariantViolation)
    } else if a < 128 {
        Some(Error::IoError)
    } else {
        None
    }
}

/// The first failure among groups `g..gmax` of the row at `off`.
pub open spec fn row_err_from(d: Seq<u8>, en: ByteOrder, off: int, g: int, gmax: int) -> Option<
    Error,
>
    decreases gmax - g,
{
    if g >= gmax {
        None
    } else {
        match grp_err(d, en, off, g) {
            Some(e) => Some(e),
            None => row_err_from(d, en, off, g + 1, gmax),
        }
    }
}

/// The first failure among rows `y..height` of the plane.
pub open spec fn plane_err_from(
    d: Seq<u8>,
    en: ByteOrder,
    off: int,
    width: int,
    y: int,
    height: int,
) -> Option<Error>
    decreases height - y,
{
    if y >= height {
        None
    } else {
        match row_err_from(d, en, off + width * y, 0, width / 16) {
            Some(e) => Some(e),
            None => plane_err_from(d, en, off, width, y + 1, height),
        }
    }
}

/// The first failure of a whole-plane decode, scanning rows in order and
/// each row's groups in order, or `None` when every group decodes.
pub open spec fn plane_err(d: Seq<u8>, en: ByteOrder, off: int, width: int, height: int) -> Option<
    Error,
> {
    plane_err_from(d, en, off, width, 0, height)
}

/// A group that names the same sample as both maximum and minimum never
/// decodes: whenever its header can be read at all, the result is
/// `InvariantViolation`.
pub proof fn lemma_same_extremes(d: Seq<u8>, en: ByteOrder, off: int, g: int)
    requires
        words_bits(d, en, off).len() - 128 * g >= 32,
        grp_imax(d, en, off, g) == grp_imin(d, en, off, g),
    ensures
        grp_err(d, en, off, g) == Some(Error::InvariantViolation),
{
}

/// A word stream always holds a whole number of 32-bit words.
proof fn lemma_words_bits_len(d: Seq<u8>, en: ByteOrder, p: int)
    ensures
        words_bits(d, en, p).len() % 32 == 0,
    decreases d.len() - p,
{
    if 0 <= p && p + 4 <= d.len() {
        lemma_words_bits_len(d, en, p + 4);
    }
}

/// Row-major positions of distinct rows never collide.
proof fn lemma_row_major_below(w: int, y: int, yy: int, xx: int)
    requires
        0 <= xx < w,
        0 <= yy < y,
    ensures
        yy * w + xx < y * w,
{
    assert(yy * w + xx < y * w) by (nonlinear_arith)
        requires
            0 <= xx < w,
            0 <= yy < y,
    ;
}

/// A group's columns are exactly the sixteen the stride rule assigns it.
proof fn lemma_stride(g: int, i: int)
    requires
        g >= 0,
        0 <= i < 16,
    ensures
        col_base(g) >= 0,
        col_base(g) % 32 == 0 || col_base(g) % 32 == 1,
        col_base(g) % 32 == g % 2,
        group_of_col(col_base(g) + 2 * i) == g,
        index_in_col(col_base(g) + 2 * i) == i,
{
    let q = g / 2;
    let r = g % 2;
    assert(g == 2 * q + r && 0 <= r < 2 && q >= 0) by (nonlinear_arith)
        requires
            g >= 0,
            q == g / 2,
            r == g % 2,
    ;
    let c = 32 * q + (r + 2 * i);
    assert(c / 32 == q && c % 32 == r + 2 * i) by (nonlinear_arith)
        requires
            0 <= r + 2 * i < 32,
            q >= 0,
            c == 32 * q + (r + 2 * i),
    ;
    assert((32 * q + r) / 32 == q && (32 * q + r) % 32 == r) by (nonlinear_arith)
        requires
            0 <= r < 32,
            q >= 0,
    ;
    assert(c % 2 == r && (r + 2 * i) / 2 == i) by (nonlinear_arith)
        requires
            0 <= r < 2,
            0 <= i,
            c == 32 * q + (r + 2 * i),
            q >= 0,
    ;
}

/// Every column belongs to one group, at the place the stride rule gives it.
proof fn lemma_col_group(xx: int)
    requires
        xx >= 0,
    ensures
        group_of_col(xx) >= 0,
        0 <= index_in_col(xx) < 16,
        xx == col_base(group_of_col(xx)) + 2 * index_in_col(xx),
{
    let q = xx / 32;
    let r = xx % 32;
    assert(xx == 32 * q + r && 0 <= r < 32 && q >= 0) by (nonlinear_arith)
        requires
            xx >= 0,
            q == xx / 32,
            r == xx % 32,
    ;
    assert(xx % 2 == r % 2) by (nonlinear_arith)
        requires
            xx == 32 * q + r,
            0 <= r < 32,
    ;
    assert(r == 2 * (r / 2) + r % 2 && 0 <= r / 2 < 16) by (nonlinear_arith)
        requires
            0 <= r < 32,
    ;
    let g = 2 * q + r % 2;
    assert(g / 2 == q && g % 2 == r % 2) by (nonlinear_arith)
        requires
            g == 2 * q + r % 2,
            0 <= r % 2 < 2,
            q >= 0,
    ;
}

/// How far the cursor is from the row's end at each stride stop.
proof fn lemma_stride_gap(x: int, width: int)
    requires
        0 <= x < width,
        width % 32 == 0,
        x % 32 == 0 || x % 32 == 1,
    ensures
        x % 32 == 0 ==> width - x >= 32,
        x % 32 == 1 ==> width - x >= 31,
{
    let diff = width - x;
    assert(diff % 32 == (32 - x % 32) % 32) by (nonlinear_arith)
        requires
            diff == width - x,
            width % 32 == 0,
            0 <= x % 32 < 32,
    ;
    assert(diff >= diff % 32) by (nonlinear_arith)
        requires
            diff > 0,
    ;
}

/// Advancing the column cursor (one step from an even stop, 31 from an odd
/// one) moves to the next group's base column.
proof fn lemma_stride_advance(x: int)
    requires
        x >= 0,
        x % 32 == 0 || x % 32 == 1,
        x == col_base(group_of_col(x)),
    ensures
        x % 32 == 0 ==> group_of_col(x + 1) == group_of_col(x) + 1 && (x + 1) % 32 == 1 && x + 1
            == col_base(group_of_col(x + 1)),
        x % 32 == 1 ==> group_of_col(x + 31) == group_of_col(x) + 1 && (x + 31) % 32 == 0 && x + 31
            == col_base(group_of_col(x + 31)),
{
    let q = x / 32;
    assert(x == 32 * q + x % 32 && q >= 0) by (nonlinear_arith)
        requires
            x >= 0,
            q == x / 32,
    ;
    if x % 32 == 0 {
        assert((x + 1) / 32 == q && (x + 1) % 32 == 1) by (nonlinear_arith)
            requires
                x == 32 * q,
                q >= 0,
        ;
        assert((x + 1) % 2 == 1) by (nonlinear_arith)
            requires
                x == 32 * q,
                q >= 0,
        ;
        assert(x % 2 == 0) by (nonlinear_arith)
            requires
                x == 32 * q,
                q >= 0,
        ;
        assert((2 * q + 1) / 2 == q && (2 * q + 1) % 2 == 1) by (nonlinear_arith)
            requires
                q >= 0,
        ;
    } else {
        assert((x + 31) / 32 == q + 1 && (x + 31) % 32 == 0) by (nonlinear_arith)
            requires
                x == 32 * q + 1,
                q >= 0,
        ;
        assert(x % 2 == 1) by (nonlinear_arith)
            requires
                x == 32 * q + 1,
                q >= 0,
        ;
        assert((x + 31) % 2 == 0) by (nonlinear_arith)
            requires
                x == 32 * q + 1,
                q >= 0,
        ;
        assert((2 * (q + 1)) / 2 == q + 1 && (2 * (q + 1)) % 2 == 0) by (nonlinear_arith)
            requires
                q >= 0,
        ;
    }
}

/// Every column of a 32-aligned row is covered before the group count runs
/// out.
proof fn lemma_col_in_range(xx: int, width: int)
    requires
        0 <= xx < width,
        width % 32 == 0,
    ensures
        0 <= group_of_col(xx) < width / 16,
{
    assert(xx / 32 < width / 32 && xx / 32 >= 0) by (nonlinear_arith)
        requires
            0 <= xx < width,
            width % 32 == 0,
    ;
    assert(width / 16 == 2 * (width / 32)) by (nonlinear_arith)
        requires
            width % 32 == 0,
    ;
    assert(0 <= xx % 2 < 2) by (nonlinear_arith);
}

/// Decode one 16-sample group into columns `x, x+2, ..., x+30` of row `y`,
/// reading exactly 128 bits on success.
#[verifier::loop_isolation(false)]
#[verifier::rlimit(100)]
fn decode_group(
    stream: &mut ByteStream,
    bits: &mut BitStream,
    img: &mut RawImage,
    x: usize,
    y: usize,
    Ghost(roff): Ghost<int>,
    Ghost(g): Ghost<int>,
) -> (r: Result<(), Error>)
    requires
        old(bits).wf(),
        old(img).wf(),
        x + 30 < old(img).width_spec(),
        y < old(img).height_spec(),
        g >= 0,
        old(bits).avail(old(stream)) == words_bits(
            old(stream).bytes(),
            old(stream).order(),
            roff,
        ).skip(128 * g),
        128 * g <= words_bits(old(stream).bytes(), old(stream).order(), roff).len(),
    ensures
        final(bits).wf(),
        final(stream).bytes() == old(stream).bytes(),
        final(stream).order() == old(stream).order(),
        final(img).wf(),
        final(img).width_spec() == old(img).width_spec(),
        final(img).height_spec() == old(img).height_spec(),
        final(img).cfa_pattern_spec() == old(img).cfa_pattern_spec(),
        final(img).cfa_dim_spec() == old(img).cfa_dim_spec(),
        final(img).data_spec().len() == old(img).data_spec().len(),
        match r {
            Ok(()) => {
                let d = old(stream).bytes();
                let en = old(stream).order();
                let base = y * old(img).width_spec() + x;
                &&& grp_err(d, en, roff, g) is None
                &&& 128 * (g + 1) <= words_bits(d, en, roff).len()
                &&& final(bits).avail(final(stream)) == words_bits(d, en, roff).skip(
                    128 * (g + 1),
                )
                &&& forall|i: int|
                    0 <= i < 16 ==> final(img).data_spec()[base + 2 * i] == grp_sample(
                        d,
                        en,
                        roff,
                        g,
                        i,
                    )
                &&& forall|idx: int|
                    0 <= idx < old(img).data_spec().len() && !(base <= idx <= base + 30 && (idx
                        - base) % 2 == 0) ==> final(img).data_spec()[idx] == old(
                        img,
                    ).data_spec()[idx]
            },
            Err(e) => grp_err(old(stream).bytes(), old(stream).order(), roff, g) == Some(e),
        },
{
    let ghost d = old(stream).bytes();
    let ghost en = old(stream).order();
    let ghost rbits = words_bits(d, en, roff);
    let ghost a = rbits.len() - 128 * g;
    proof {
        lemma_words_bits_len(d, en, roff);
        lemma2_to64();
    }
    let maxv: u32 = match bits.read_bits(stream, 11) {
        Ok(v) => v,
        Err(e) => {
            return Err(e);
        },
    };
    proof {
        assert(rbits.skip(128 * g).take(11) =~= rbits.subrange(128 * g, 128 * g + 11));
        assert(rbits.skip(128 * g).skip(11) =~= rbits.skip(128 * g + 11));
        assert(maxv == grp_max(d, en, roff, g));
        assert(a >= 32);
    }
    let minv: u32 = match bits.read_bits(stream, 11) {
        Ok(v) => v,
        Err(e) => {
            return Err(e);
        },
    };
    proof {
        assert(rbits.skip(128 * g + 11).take(11) =~= rbits.subrange(
            128 * g + 11,
            128 * g + 22,
        ));
        assert(rbits.skip(128 * g + 11).skip(11) =~= rbits.skip(128 * g + 22));
        assert(minv == grp_min(d, en, roff, g));
    }
    let imaxv: u32 = match bits.read_bits(stream, 4) {
        Ok(v) => v,
        Err(e) => {
            return Err(e);
        },
    };
    proof {
        assert(rbits.skip(128 * g + 22).take(4) =~= rbits.subrange(128 * g + 22, 128 * g + 26));
        assert(rbits.skip(128 * g + 22).skip(4) =~= rbits.skip(128 * g + 26));
        assert(imaxv == grp_imax(d, en, roff, g));
    }
    let iminv: u32 = match bits.read_bits(stream, 4) {
        Ok(v) => v,
        Err(e) => {
            return Err(e);
        },
    };
    proof {
        assert(rbits.skip(128 * g + 26).take(4) =~= rbits.subrange(128 * g + 26, 128 * g + 30));
        assert(rbits.skip(128 * g + 26).skip(4) =~= rbits.skip(128 * g + 30));
        assert(iminv == grp_imin(d, en, roff, g));
    }
    if imaxv == iminv {
        return Err(Error::InvariantViolation);
    }
    let spread: u32 = if maxv >= minv {
        maxv - minv
    } else {
        0
    };
    let sh: u32 = if spread < 0x80 {
        0
    } else if spread < 0x100 {
        1
    } else if spread < 0x200 {
        2
    } else if spread < 0x400 {
        3
    } else {
        4
    };
    let factor: u32 = if sh == 0 {
        1
    } else if sh == 1 {
        2
    } else if sh == 2 {
        4
    } else if sh == 3 {
        8
    } else {
        16
    };
    proof {
        assert(maxv < pow2(11));
        assert(minv < pow2(11));
        assert(sh == shift_of(maxv as int, minv as int));
        assert(factor == pow2(sh as nat));
    }
    let ghost base = y * old(img).width_spec() + x;
    let mut i: usize = 0;
    let mut k: usize = 0;
    while i < 16
        invariant
            0 <= i <= 16,
            0 <= k <= i,
            k == mid_index(imaxv as int, iminv as int, i as int),
            bits.wf(),
            stream.bytes() == d,
            stream.order() == en,
            bits.avail(stream) == rbits.skip(128 * g + 30 + 7 * k),
            128 * g + 30 + 7 * k <= rbits.len(),
            img.wf(),
            img.width_spec() == old(img).width_spec(),
            img.height_spec() == old(img).height_spec(),
            img.cfa_pattern_spec() == old(img).cfa_pattern_spec(),
            img.cfa_dim_spec() == old(img).cfa_dim_spec(),
            img.data_spec().len() == old(img).data_spec().len(),
            forall|j: int|
                0 <= j < i ==> img.data_spec()[base + 2 * j] == grp_sample(d, en, roff, g, j),
            forall|idx: int|
                0 <= idx < old(img).data_spec().len() && !(base <= idx <= base + 30 && (idx
                    - base) % 2 == 0) ==> img.data_spec()[idx] == old(img).data_spec()[idx],
        decreases 16 - i,
    {
        let p: u32 = if i as u32 == imaxv {
            maxv
        } else if i as u32 == iminv {
            minv
        } else {
            let raw: u32 = match bits.read_bits(stream, 7) {
                Ok(v) => v,
                Err(e) => {
                    proof {
                        assert(a - 30 - 7 * k < 7);
                        assert(a < 128);
                    }
                    return Err(e);
                },
            };
            proof {
                assert(rbits.skip(128 * g + 30 + 7 * k).take(7) =~= rbits.subrange(
                    128 * g + 30 + 7 * (k as int),
                    128 * g + 30 + 7 * (k as int) + 7,
                ));
                assert(rbits.skip(128 * g + 30 + 7 * k).skip(7) =~= rbits.skip(
                    128 * g + 30 + 7 * (k + 1),
                ));
                assert(raw == grp_mid(d, en, roff, g, k as int));
                assert(raw < pow2(7));
            }
            k = k + 1;
            let m: u32 = raw * factor + minv;
            if m > 0x7ff {
                0x7ff
            } else {
                m
            }
        };
        let sample: u16 = (p * 2) as u16;
        proof {
            assert(sample == grp_sample(d, en, roff, g, i as int));
        }
        let ghost before = img.data_spec();
        proof {
            let ww = old(img).width_spec() as int;
            let hh = old(img).height_spec() as int;
            assert(0 <= base + 2 * (i as int) < before.len()) by (nonlinear_arith)
                requires
                    base == (y as int) * ww + x as int,
                    before.len() == ww * hh,
                    0 <= x as int,
                    x as int + 30 < ww,
                    0 <= (y as int) < hh,
                    0 <= i < 16,
            ;
        }
        img.set(x + i * 2, y, sample);
        proof {
            let wi = base + 2 * (i as int);
            assert(img.data_spec() == before.update(wi, sample));
            assert forall|j: int| 0 <= j < i + 1 implies img.data_spec()[base + 2 * j]
                == grp_sample(d, en, roff, g, j) by {
                if j < i {
                    assert(base + 2 * j != wi);
                    assert(img.data_spec()[base + 2 * j] == before[base + 2 * j]);
                }
            }
            assert forall|idx: int|
                0 <= idx < old(img).data_spec().len() && !(base <= idx <= base + 30 && (idx
                    - base) % 2 == 0) implies img.data_spec()[idx] == old(img).data_spec()[idx] by {
                assert(idx != wi);
                assert(img.data_spec()[idx] == before[idx]);
            }
        }
        i = i + 1;
    }
    proof {
        assert(k == 14);
        assert(bits.avail(stream) == rbits.skip(128 * (g + 1)));
        assert(grp_err(d, en, roff, g) is None);
    }
    Ok(())
}

/// Reconstructs a [`RawImage`] from a single ARW2-coded strip.
pub struct Arw2Decompressor {
    stream: ByteStream,
    width: usize,
    height: usize,
    data_offset: usize,
    data_size: usize,
    cfa_pattern: Vec<CFAPattern>,
    cfa_dim: CFAPatternDim,
}

impl Arw2Decompressor {
    /// The stream holding the strip.
    pub closed spec fn stream_spec(&self) -> ByteStream {
        self.stream
    }

    /// Samples per row.
    pub closed spec fn width_spec(&self) -> usize {
        self.width
    }

    /// Number of rows.
    pub closed spec fn height_spec(&self) -> usize {
        self.height
    }

    /// Byte offset of the strip in the stream.
    pub closed spec fn data_offset_spec(&self) -> usize {
        self.data_offset
    }

    /// Declared byte length of the strip.
    pub closed spec fn data_size_spec(&self) -> usize {
        self.data_size
    }

    /// The color-filter tile handed to the output buffer.
    pub closed spec fn cfa_pattern_spec(&self) -> Seq<CFAPattern> {
        self.cfa_pattern@
    }

    /// The color-filter tile's dimensions.
    pub closed spec fn cfa_dim_spec(&self) -> CFAPatternDim {
        self.cfa_dim
    }

    /// A decompressor for one validated strip.
    pub fn new(
        stream: ByteStream,
        width: usize,
        height: usize,
        data_offset: usize,
        data_size: usize,
        cfa_pattern: Vec<CFAPattern>,
        cfa_dim: CFAPatternDim,
    ) -> (r: Arw2Decompressor)
        ensures
            r.stream_spec() == stream,
            r.width_spec() == width,
            r.height_spec() == height,
            r.data_offset_spec() == data_offset,
            r.data_size_spec() == data_size,
            r.cfa_pattern_spec() == cfa_pattern@,
            r.cfa_dim_spec() == cfa_dim,
    {
        Arw2Decompressor { stream, width, height, data_offset, data_size, cfa_pattern, cfa_dim }
    }

    /// Hand the stream back once decoding is done.
    pub fn into_stream(self) -> (r: ByteStream)
        ensures
            r == self.stream_spec(),
    {
        self.stream
    }

    /// Decode every row of the strip into a fresh sample plane. On success
    /// each sample equals its group's decoded value; on the first failing
    /// group the whole decode aborts with that group's error and no buffer
    /// is returned.
    #[verifier::loop_isolation(false)]
    #[verifier::rlimit(100)]
    pub fn decode(&mut self) -> (r: Result<RawImage, Error>)
        requires
            old(self).width_spec() % 32 == 0,
            old(self).width_spec() * old(self).height_spec() <= usize::MAX,
            old(self).data_offset_spec() + old(self).width_spec() * old(self).height_spec()
                <= u64::MAX,
            old(self).cfa_dim_spec().width >= 1,
            old(self).cfa_dim_spec().height >= 1,
            old(self).cfa_pattern_spec().len() == old(self).cfa_dim_spec().width * old(
                self,
            ).cfa_dim_spec().height,
        ensures
            final(self).stream_spec().bytes() == old(self).stream_spec().bytes(),
            final(self).stream_spec().order() == old(self).stream_spec().order(),
            match r {
                Ok(img) => {
                    let d = old(self).stream_spec().bytes();
                    let en = old(self).stream_spec().order();
                    let off = old(self).data_offset_spec() as int;
                    let w = old(self).width_spec() as int;
                    let h = old(self).height_spec() as int;
                    &&& plane_err(d, en, off, w, h) is None
                    &&& img.wf()
                    &&& img.width_spec() == old(self).width_spec()
                    &&& img.height_spec() == old(self).height_spec()
                    &&& img.cfa_pattern_spec() == old(self).cfa_pattern_spec()
                    &&& img.cfa_dim_spec() == old(self).cfa_dim_spec()
                    &&& forall|x: int, y: int|
                        0 <= x < w && 0 <= y < h ==> img.data_spec()[y * w + x] == plane_sample(
                            d,
                            en,
                            off,
                            w,
                            x,
                            y,
                        )
                },
                Err(e) => plane_err(
                    old(self).stream_spec().bytes(),
                    old(self).stream_spec().order(),
                    old(self).data_offset_spec() as int,
                    old(self).width_spec() as int,
                    old(self).height_spec() as int,
                ) == Some(e),
            },
    {
        let ghost d = self.stream.bytes();
        let ghost en = self.stream.order();
        let ghost off = self.data_offset as int;
        let ghost w = self.width as int;
        let ghost h = self.height as int;
        let width: usize = self.width;
        let height: usize = self.height;
        let cfa: Vec<CFAPattern> = copy_cfa(&self.cfa_pattern);
        let mut img: RawImage = RawImage::new(width, height, cfa, self.cfa_dim);
        let mut y: usize = 0;
        while y < height
            invariant
                0 <= y <= height,
                self.stream.bytes() == d,
                self.stream.order() == en,
                self.data_offset as int == off,
                self.width == width,
                self.height == height,
                img.wf(),
                img.width_spec() == width,
                img.height_spec() == height,
                img.cfa_pattern_spec() == old(self).cfa_pattern_spec(),
                img.cfa_dim_spec() == old(self).cfa_dim_spec(),
                forall|xx: int, yy: int|
                    0 <= xx < w && 0 <= yy < y ==> img.data_spec()[yy * w + xx] == plane_sample(
                        d,
                        en,
                        off,
                        w,
                        xx,
                        yy,
                    ),
                plane_err_from(d, en, off, w, 0, h) == plane_err_from(d, en, off, w, y as int, h),
            decreases height - y,
        {
            proof {
                assert(w * (y as int) <= w * h) by (nonlinear_arith)
                    requires
                        0 <= y <= h,
                        w >= 0,
                ;
            }
            let row_off: u64 = self.data_offset as u64 + (width as u64) * (y as u64);
            self.stream.seek(row_off);
            let mut bits: BitStream = BitStream::new();
            let ghost roff = off + w * y;
            proof {
                assert(self.stream.pos() == roff);
                assert(bits.pending() =~= Seq::<bool>::empty());
                assert(bits.avail(&self.stream) =~= words_bits(d, en, roff));
                assert(words_bits(d, en, roff).skip(0) =~= words_bits(d, en, roff));
            }
            let mut x: usize = 0;
            let ghost gmax = w / 16;
            let mut gx: Ghost<int> = Ghost(0);
            while x < width
                invariant
                    0 <= x <= width,
                    x % 32 == 0 || x % 32 == 1,
                    gx@ == group_of_col(x as int),
                    x < width ==> x as int == col_base(gx@),
                    x >= width ==> x == width,
                    bits.wf(),
                    self.stream.bytes() == d,
                    self.stream.order() == en,
                    self.data_offset as int == off,
                    self.width == width,
                    self.height == height,
                    bits.avail(&self.stream) == words_bits(d, en, roff).skip(128 * gx@),
                    128 * gx@ <= words_bits(d, en, roff).len(),
                    img.wf(),
                    img.width_spec() == width,
                    img.height_spec() == height,
                    img.cfa_pattern_spec() == old(self).cfa_pattern_spec(),
                    img.cfa_dim_spec() == old(self).cfa_dim_spec(),
                    forall|xx: int, yy: int|
                        0 <= xx < w && 0 <= yy < y ==> img.data_spec()[yy * w + xx]
                            == plane_sample(d, en, off, w, xx, yy),
                    forall|xx: int|
                        0 <= xx < w && group_of_col(xx) < gx@ ==> img.data_spec()[(y as int) * w
                            + xx] == grp_sample(d, en, roff, group_of_col(xx), index_in_col(xx)),
                    row_err_from(d, en, roff, 0, gmax) == row_err_from(d, en, roff, gx@, gmax),
                decreases width - x,
            {
                proof {
                    lemma_col_in_range(x as int, w);
                    lemma_stride_gap(x as int, w);
                }
                match decode_group(&mut self.stream, &mut bits, &mut img, x, y, Ghost(roff), gx) {
                    Ok(()) => {},
                    Err(e) => {
                        proof {
                            assert(row_err_from(d, en, roff, gx@, gmax) == Some(e));
                            assert(plane_err_from(d, en, off, w, y as int, h) == Some(e));
                        }
                        return Err(e);
                    },
                }
                proof {
                    let base = (y as int) * w + x as int;
                    assert forall|xx: int, yy: int| 0 <= xx < w && 0 <= yy < y implies
                        img.data_spec()[yy * w + xx] == plane_sample(d, en, off, w, xx, yy) by {
                        lemma_row_major_below(w, y as int, yy, xx);
                        assert(0 <= yy * w + xx < img.data_spec().len()) by (nonlinear_arith)
                            requires
                                0 <= xx < w,
                                0 <= yy < y,
                                (y as int) <= height as int,
                                img.data_spec().len() == w * (height as int),
                        ;
                        assert(yy * w + xx < base);
                    }
                    assert forall|xx: int| 0 <= xx < w && group_of_col(xx) < gx@ + 1 implies
                        img.data_spec()[(y as int) * w + xx] == grp_sample(
                        d,
                        en,
                        roff,
                        group_of_col(xx),
                        index_in_col(xx),
                    ) by {
                        lemma_col_group(xx);
                        if group_of_col(xx) == gx@ {
                            assert(xx == x as int + 2 * index_in_col(xx));
                            assert(img.data_spec()[base + 2 * index_in_col(xx)] == grp_sample(
                                d,
                                en,
                                roff,
                                gx@,
                                index_in_col(xx),
                            ));
                        } else {
                            let idx = (y as int) * w + xx;
                            assert(!(base <= idx <= base + 30 && (idx - base) % 2 == 0)) by {
                                if base <= idx <= base + 30 && (idx - base) % 2 == 0 {
                                    let ii = (idx - base) / 2;
                                    assert(xx - x as int == 2 * ii && 0 <= ii < 16)
                                        by (nonlinear_arith)
                                        requires
                                            idx - base == xx - x as int,
                                            0 <= idx - base <= 30,
                                            (idx - base) % 2 == 0,
                                            ii == (idx - base) / 2,
                                    ;
                                    lemma_stride(gx@, ii);
                                    assert(group_of_col(xx) == gx@);
                                }
                            }
                            assert(0 <= idx < img.data_spec().len()) by (nonlinear_arith)
                                requires
                                    idx == (y as int) * w + xx,
                                    img.data_spec().len() == w * (height as int),
                                    0 <= xx < w,
                                    0 <= (y as int) < height as int,
                            ;
                        }
                    }
                }
                proof {
                    lemma_stride_advance(x as int);
                    gx@ = gx@ + 1;
                }
                if x % 2 == 1 {
                    x = x + 31;
                } else {
                    x = x + 1;
                }
            }
            proof {
                assert(x == width);
                assert(gx@ == gmax);
                assert(row_err_from(d, en, roff, gmax, gmax) is None);
                assert forall|xx: int| 0 <= xx < w implies img.data_spec()[(y as int) * w + xx]
                    == plane_sample(d, en, off, w, xx, y as int) by {
                    assert(group_of_col(xx) < gmax);
                }
            }
            y = y + 1;
        }
        proof {
            assert(plane_err_from(d, en, off, w, h, h) is None);
        }
        Ok(img)
    }
}

/// Duplicate a color-filter tile for the output buffer.
fn copy_cfa(v: &Vec<CFAPattern>) -> (r: Vec<CFAPattern>)
    ensures
        r@ == v@,
{
    let mut r: Vec<CFAPattern> = Vec::new();
    let mut i: usize = 0;
    while i < v.len()
        invariant
            0 <= i <= v@.len(),
            r@.len() == i,
            forall|j: int| 0 <= j < i ==> r@[j] == v@[j],
        decreases v@.len() - i,
    {
        r.push(v[i]);
        i = i + 1;
    }
    proof {
        assert(r@ =~= v@);
    }
    r
}

} // verus!
