//! Most-significant-bit-first bit groups served from 32-bit words of a
//! [`ByteStream`].
//!
//! The reader buffers one word at a time, pulled in the stream's byte order,
//! and hands out groups of 1 to 32 bits from the most significant end. The
//! mathematical model is the flat bit sequence [`BitStream::avail`]: every
//! read takes a prefix of it and leaves the rest.

use crate::error::Error;
use crate::tiff::stream::{u32_at, ByteOrder, ByteStream};
use vstd::arithmetic::power2::{
    lemma2_to64, lemma2_to64_rest, lemma_pow2_adds, lemma_pow2_pos, lemma_pow2_unfold, pow2,
};
use vstd::prelude::*;

verus! {

/// The 32 bits of a word, most significant first.
pub open spec fn word_bits(w: u32) -> Seq<bool> {
    Seq::new(32, |i: int| (w >> ((31 - i) as u32)) & 1 == 1)
}

/// The value of a bit sequence read most-significant-bit first.
pub open spec fn bits_to_int(s: Seq<bool>) -> nat
    decreases s.len(),
{
    if s.len() == 0 {
        0
    } else {
        2 * bits_to_int(s.drop_last()) + (if s.last() {
            1nat
        } else {
            0nat
        })
    }
}

/// All bits of the full 32-bit words from byte offset `p` to the end of `d`,
/// each word taken in byte order `en`, most significant bit first. A trailing
/// partial word contributes nothing: the reader only pulls whole words.
pub open spec fn words_bits(d: Seq<u8>, en: ByteOrder, p: int) -> Seq<bool>
    decreases d.len() - p,
{
    if 0 <= p && p + 4 <= d.len() {
        word_bits(u32_at(d, en, p)) + words_bits(d, en, p + 4)
    } else {
        Seq::empty()
    }
}

/// A bit sequence's value is below 2 to its length.
pub proof fn lemma_bits_to_int_bound(s: Seq<bool>)
    ensures
        bits_to_int(s) < pow2(s.len()),
    decreases s.len(),
{
    if s.len() == 0 {
        lemma_pow2_pos(0);
        assert(pow2(0) == 1) by {
            lemma2_to64();
        }
    } else {
        lemma_bits_to_int_bound(s.drop_last());
        lemma_pow2_unfold(s.len());
    }
}

/// Reading a concatenation most-significant-bit first is reading the left
/// part, then the right: the left value is shifted up by the right's width.
/// In particular, reads whose widths sum to 32 reassemble the word they came
/// from.
pub proof fn lemma_bits_concat(s: Seq<bool>, t: Seq<bool>)
    ensures
        bits_to_int(s + t) == bits_to_int(s) * pow2(t.len()) + bits_to_int(t),
    decreases t.len(),
{
    if t.len() == 0 {
        assert(s + t =~= s);
        assert(pow2(0) == 1) by {
            lemma2_to64();
        }
    } else {
        assert((s + t).drop_last() =~= s + t.drop_last());
        lemma_bits_concat(s, t.drop_last());
        lemma_pow2_unfold(t.len());
        assert(bits_to_int(s + t) == 2 * (bits_to_int(s) * pow2((t.len() - 1) as nat)
            + bits_to_int(t.drop_last())) + (if t.last() {
            1nat
        } else {
            0nat
        }));
        assert(2 * (bits_to_int(s) * pow2((t.len() - 1) as nat)) == bits_to_int(s) * pow2(
            t.len(),
        )) by {
            lemma_pow2_unfold(t.len());
            assert(2 * (bits_to_int(s) * pow2((t.len() - 1) as nat)) == bits_to_int(s) * (2 * pow2(
                (t.len() - 1) as nat,
            ))) by (nonlinear_arith);
        }
    }
}

/// The bits of consecutive reads, in reading order, as one flat sequence.
pub open spec fn cat_all(parts: Seq<Seq<bool>>) -> Seq<bool>
    decreases parts.len(),
{
    if parts.len() == 0 {
        Seq::empty()
    } else {
        cat_all(parts.drop_last()) + parts.last()
    }
}

/// The value consecutive most-significant-bit-first reads assemble: each
/// read shifts the value so far up by its own width and adds its bits.
pub open spec fn reads_value(parts: Seq<Seq<bool>>) -> nat
    decreases parts.len(),
{
    if parts.len() == 0 {
        0
    } else {
        reads_value(parts.drop_last()) * pow2(parts.last().len()) + bits_to_int(parts.last())
    }
}

/// Any number of consecutive reads assemble the value of their bits taken
/// as one sequence: with [`lemma_word_roundtrip`], reads whose widths sum
/// to 32 reproduce the word they came from, however the 32 bits are split.
pub proof fn lemma_reads_assemble(parts: Seq<Seq<bool>>)
    ensures
        reads_value(parts) == bits_to_int(cat_all(parts)),
    decreases parts.len(),
{
    if parts.len() > 0 {
        lemma_reads_assemble(parts.drop_last());
        lemma_bits_concat(cat_all(parts.drop_last()), parts.last());
    }
}

/// Reading back all 32 bits of a word, most-significant first, reproduces
/// the word. With [`lemma_bits_concat`], any reads whose widths sum to 32
/// reassemble the word they were taken from.
pub proof fn lemma_word_roundtrip(w: u32)
    ensures
        bits_to_int(word_bits(w)) == w,
{
    lemma_top_bits(w, 32);
    assert(word_bits(w).take(32) =~= word_bits(w));
    assert(w >> 0u32 == w) by (bit_vector);
}

/// `pow2` agrees with a left shift of 1 for exponents that fit a u64.
proof fn lemma_pow2_shift(k: nat)
    requires
        k < 64,
    ensures
        1u64 << (k as u64) == pow2(k),
    decreases k,
{
    if k == 0 {
        assert(1u64 << 0u64 == 1) by (bit_vector);
        assert(pow2(0) == 1) by {
            lemma2_to64();
        }
    } else {
        lemma_pow2_shift((k - 1) as nat);
        let ku: u64 = k as u64;
        assert(1u64 <= ku <= 63 ==> 1u64 << ku == 2 * (1u64 << (ku - 1) as u64) || 1u64 << (ku
            - 1) as u64 >= 0x8000_0000_0000_0000) by (bit_vector);
        lemma_pow2_unfold(k);
        assert(pow2((k - 1) as nat) < 0x8000_0000_0000_0000) by {
            assert(pow2(63) == 0x8000_0000_0000_0000) by {
                lemma2_to64_rest();
            }
            if k - 1 < 63 {
                vstd::arithmetic::power2::lemma_pow2_strictly_increases((k - 1) as nat, 63);
            }
        }
    }
}

/// The top `k` bits of a word, read most-significant first, are the word
/// shifted down by `32 - k`.
proof fn lemma_top_bits(b: u32, k: int)
    requires
        0 <= k <= 32,
    ensures
        bits_to_int(word_bits(b).take(k)) == (if k == 0 {
            0nat
        } else {
            (b >> ((32 - k) as u32)) as nat
        }),
    decreases k,
{
    if k == 0 {
    } else {
        lemma_top_bits(b, k - 1);
        let s = word_bits(b).take(k);
        assert(s.drop_last() =~= word_bits(b).take(k - 1));
        assert(s.last() == word_bits(b)[k - 1]);
        assert(s.last() == ((b >> ((32 - k) as u32)) & 1 == 1));
        let ku: u32 = k as u32;
        assert(bits_to_int(s) == 2 * bits_to_int(word_bits(b).take(k - 1)) + (if s.last() {
            1nat
        } else {
            0nat
        }));
        assert((b >> (32 - ku) as u32) & 1 == 0 || (b >> (32 - ku) as u32) & 1 == 1)
            by (bit_vector);
        if k == 1 {
            assert((b >> (32 - ku) as u32) == 2 * 0 + ((b >> (32 - ku) as u32) & 1) || !(ku == 1))
                by (bit_vector);
        } else {
            assert(!(2 <= ku <= 32) || (b >> (32 - ku) as u32) == 2 * (b >> (32 - (ku
                - 1)) as u32) + ((b >> (32 - ku) as u32) & 1)) by (bit_vector);
        }
    }
}

/// Shifting the buffer left by `k` drops its `k` most significant bits: the
/// remaining pending bits keep their order.
proof fn lemma_pending_shift(b: u32, k: int, left: int)
    requires
        0 <= k <= left <= 32,
        k < 32,
    ensures
        word_bits((b << (k as u32)) as u32).take(left - k) == word_bits(b).take(left).skip(k),
{
    let shifted = word_bits((b << (k as u32)) as u32).take(left - k);
    let rest = word_bits(b).take(left).skip(k);
    assert forall|i: int| 0 <= i < left - k implies shifted[i] == rest[i] by {
        let iu: u32 = i as u32;
        let ku: u32 = k as u32;
        assert(!(iu + ku < 32) || ((((b << ku) as u32) >> (31 - iu) as u32) & 1) == ((b >> (31 - (
        iu + ku)) as u32) & 1)) by (bit_vector);
    }
    assert(shifted =~= rest);
}

/// Serves most-significant-bit-first bit groups of width up to 32 from an
/// underlying byte stream. One reader is built fresh per bit-packed region;
/// it cannot seek.
pub struct BitStream {
    buff: u32,
    buff_left: u8,
}

impl BitStream {
    /// The reader's buffer is sound: at most 32 bits are pending.
    pub closed spec fn wf(&self) -> bool {
        self.buff_left <= 32
    }

    /// The bits buffered and not yet handed out, in the order they will be
    /// read.
    pub closed spec fn pending(&self) -> Seq<bool> {
        word_bits(self.buff).take(self.buff_left as int)
    }

    /// Every bit still readable: the pending bits, then the bits of the
    /// stream's remaining whole words.
    pub open spec fn avail(&self, stream: &ByteStream) -> Seq<bool> {
        self.pending() + words_bits(stream.bytes(), stream.order(), stream.pos())
    }

    /// A fresh reader with an empty buffer: reading starts at the stream's
    /// cursor.
    pub fn new() -> (r: BitStream)
        ensures
            r.wf(),
            r.pending() == Seq::<bool>::empty(),
    {
        let r = BitStream { buff: 0, buff_left: 0 };
        proof {
            assert(r.pending() =~= Seq::<bool>::empty());
        }
        r
    }

    /// Hand out the top `k` pending bits as one value.
    fn take_bits(&mut self, k: u8) -> (v: u32)
        requires
            old(self).wf(),
            k as int <= old(self).pending().len(),
        ensures
            final(self).wf(),
            v == bits_to_int(old(self).pending().take(k as int)),
            v < pow2(k as nat),
            final(self).pending() == old(self).pending().skip(k as int),
    {
        proof {
            assert(old(self).pending().len() == old(self).buff_left);
            lemma_top_bits(old(self).buff, k as int);
            assert(old(self).pending().take(k as int) =~= word_bits(old(self).buff).take(
                k as int,
            ));
        }
        let v: u32 = if k == 0 {
            0
        } else {
            self.buff >> ((32 - k) as u32)
        };
        proof {
            lemma_bits_to_int_bound(old(self).pending().take(k as int));
        }
        if k == 32 {
            self.buff = 0;
            self.buff_left = 0;
            proof {
                assert(final(self).pending() =~= old(self).pending().skip(32));
            }
        } else {
            self.buff = self.buff << (k as u32);
            self.buff_left = self.buff_left - k;
            proof {
                lemma_pending_shift(old(self).buff, k as int, old(self).buff_left as int);
                assert(old(self).pending().take(old(self).buff_left as int) =~= old(
                    self,
                ).pending());
            }
        }
        v
    }

    /// Read `bits` bits (at most 32) from the stream, most significant
    /// first, pulling whole words in the stream's byte order as the buffer
    /// runs dry. The result carries the first-read bits in its most
    /// significant positions. Fails when the stream has no whole word left
    /// and the buffer cannot cover the request.
    pub fn read_bits(&mut self, stream: &mut ByteStream, bits: u8) -> (r: Result<u32, Error>)
        requires
            old(self).wf(),
            bits <= 32,
        ensures
            final(self).wf(),
            final(stream).bytes() == old(stream).bytes(),
            final(stream).order() == old(stream).order(),
            match r {
                Ok(v) => bits as int <= old(self).avail(old(stream)).len() && v == bits_to_int(
                    old(self).avail(old(stream)).take(bits as int),
                ) && v < pow2(bits as nat) && final(self).avail(final(stream)) == old(self).avail(
                    old(stream),
                ).skip(bits as int),
                Err(e) => e == Error::IoError && old(self).avail(old(stream)).len() < bits as int
                    && final(stream).pos() == old(stream).pos(),
            },
    {
        let ghost a = old(self).avail(old(stream));
        let k1: u8 = if self.buff_left < bits {
            self.buff_left
        } else {
            bits
        };
        proof {
            assert(old(self).pending().len() == old(self).buff_left);
        }
        let v1: u32 = self.take_bits(k1);
        let k2: u8 = bits - k1;
        if k2 == 0 {
            proof {
                assert(old(self).pending().take(k1 as int) =~= a.take(bits as int));
                assert(self.pending() + words_bits(
                    stream.bytes(),
                    stream.order(),
                    stream.pos(),
                ) =~= a.skip(bits as int));
            }
            return Ok(v1);
        }
        // The pending bits are exhausted; pull one more word.
        proof {
            assert(k1 == old(self).buff_left);
            assert(self.pending() =~= Seq::<bool>::empty());
        }
        let w: u32 = match stream.read_u32() {
            Ok(w) => w,
            Err(e) => {
                proof {
                    assert(words_bits(stream.bytes(), stream.order(), stream.pos())
                        =~= Seq::<bool>::empty());
                    assert(a.len() == old(self).pending().len());
                }
                return Err(e);
            },
        };
        self.buff = w;
        self.buff_left = 32;
        proof {
            old(stream).lemma_pos_nonneg();
            assert(self.pending() =~= word_bits(w));
            assert(words_bits(old(stream).bytes(), old(stream).order(), old(stream).pos())
                =~= word_bits(w) + words_bits(stream.bytes(), stream.order(), stream.pos()));
        }
        let ghost mid = *self;
        let v2: u32 = self.take_bits(k2);
        let r64: u64 = ((v1 as u64) << (k2 as u64)) | (v2 as u64);
        proof {
            // a.take(bits) splits into the old pending bits and the top k2
            // bits of the fresh word.
            let sp = old(self).pending();
            let tp = word_bits(w).take(k2 as int);
            assert(sp.take(k1 as int) =~= sp);
            assert(a.take(bits as int) =~= sp + tp);
            lemma_bits_concat(sp, tp);
            // The executable combination computes the same value.
            lemma_pow2_shift(k2 as nat);
            let k2u: u64 = k2 as u64;
            assert(!(0 < k2u <= 32 && (v2 as u64) < (1u64 << k2u)) || (((v1 as u64) << k2u) | (
            v2 as u64)) == (v1 as u64) * (1u64 << k2u) + (v2 as u64)) by (bit_vector);
            assert(r64 == bits_to_int(a.take(bits as int)));
            // The result fits 32 bits.
            lemma_bits_to_int_bound(a.take(bits as int));
            assert(pow2(bits as nat) <= pow2(32)) by {
                if (bits as nat) < 32 {
                    vstd::arithmetic::power2::lemma_pow2_strictly_increases(bits as nat, 32);
                }
            }
            assert(pow2(32) == 0x1_0000_0000) by {
                lemma2_to64();
            }
            // What remains is the tail of the bit sequence we started from.
            assert(self.pending() + words_bits(stream.bytes(), stream.order(), stream.pos())
                =~= a.skip(bits as int));
        }
        let r32: u32 = r64 as u32;
        Ok(r32)
    }
}

} // verus!
