//! Positioned, endianness-aware access to the bytes of a TIFF file.
//!
//! A [`ByteStream`] owns the file's bytes, a cursor, and the byte order fixed
//! by the file's first two magic bytes. `read_*` methods decode at the cursor
//! and advance it; `fetch_*` methods decode at a given offset and restore the
//! cursor on every exit path, so a caller can follow an indirect offset
//! without losing its place.

use crate::error::Error;
use crate::tiff::data_type::{SignedRational, UnsignedRational};
use vstd::prelude::*;

verus! {

/// Byte order of all multi-byte reads, fixed once per file.
#[derive(Clone, Copy, PartialEq, Eq, Structural, Debug)]
pub enum ByteOrder {
    LittleEndian,
    BigEndian,
}

/// The u16 encoded at byte offset `i` of `d` in byte order `en`.
pub open spec fn u16_at(d: Seq<u8>, en: ByteOrder, i: int) -> u16 {
    match en {
        ByteOrder::LittleEndian => (d[i] + d[i + 1] * 0x100) as u16,
        ByteOrder::BigEndian => (d[i + 1] + d[i] * 0x100) as u16,
    }
}

/// The u32 encoded at byte offset `i` of `d` in byte order `en`.
pub open spec fn u32_at(d: Seq<u8>, en: ByteOrder, i: int) -> u32 {
    match en {
        ByteOrder::LittleEndian => (d[i] + d[i + 1] * 0x100 + d[i + 2] * 0x10000 + d[i + 3]
            * 0x1000000) as u32,
        ByteOrder::BigEndian => (d[i + 3] + d[i + 2] * 0x100 + d[i + 1] * 0x10000 + d[i]
            * 0x1000000) as u32,
    }
}

/// The i16 encoded at byte offset `i`: the u16 bits reinterpreted in two's
/// complement.
pub open spec fn i16_at(d: Seq<u8>, en: ByteOrder, i: int) -> i16 {
    u16_at(d, en, i) as i16
}

/// The i32 encoded at byte offset `i`: the u32 bits reinterpreted in two's
/// complement.
pub open spec fn i32_at(d: Seq<u8>, en: ByteOrder, i: int) -> i32 {
    u32_at(d, en, i) as i32
}

/// The unsigned rational encoded at byte offset `i`: numerator word first.
pub open spec fn rational_at(d: Seq<u8>, en: ByteOrder, i: int) -> UnsignedRational {
    UnsignedRational { numerator: u32_at(d, en, i), denominator: u32_at(d, en, i + 4) }
}

/// The signed rational encoded at byte offset `i`: numerator word first.
pub open spec fn signed_rational_at(d: Seq<u8>, en: ByteOrder, i: int) -> SignedRational {
    SignedRational { numerator: i32_at(d, en, i), denominator: i32_at(d, en, i + 4) }
}

/// What `String::from_utf8_lossy` decodes the given bytes to.
pub uninterp spec fn utf8_lossy_of(bytes: Seq<u8>) -> Seq<char>;

/// Relies on `String::from_utf8_lossy`: the decoding is a function of the
/// bytes alone, and ASCII bytes (all below 0x80) decode to themselves.
#[verifier::external_body]
fn lossy_string(bytes: &Vec<u8>) -> (r: String)
    ensures
        r@ == utf8_lossy_of(bytes@),
        (forall|i: int| 0 <= i < bytes@.len() ==> bytes@[i] < 0x80) ==> (r@.len() == bytes@.len()
            && forall|i: int| 0 <= i < bytes@.len() ==> r@[i] == bytes@[i] as char),
{
    String::from_utf8_lossy(bytes.as_slice()).into_owned()
}

/// A seekable binary source with a fixed byte order.
pub struct ByteStream {
    data: Vec<u8>,
    pos: u64,
    endian: ByteOrder,
}

impl ByteStream {
    /// The underlying bytes.
    pub closed spec fn bytes(&self) -> Seq<u8> {
        self.data@
    }

    /// The cursor, as a byte offset into `bytes()`. It may point past the
    /// end; every read from there fails.
    pub closed spec fn pos(&self) -> int {
        self.pos as int
    }

    /// The byte order fixed when the stream was opened.
    pub closed spec fn order(&self) -> ByteOrder {
        self.endian
    }

    /// The cursor is a machine integer: it is never negative.
    pub proof fn lemma_pos_nonneg(&self)
        ensures
            self.pos() >= 0,
    {
    }

    /// Whether the first two bytes are a valid byte-order mark.
    pub open spec fn valid_magic(d: Seq<u8>) -> bool {
        d.len() >= 2 && ((d[0] == 0x49 && d[1] == 0x49) || (d[0] == 0x4D && d[1] == 0x4D))
    }

    /// The byte order a valid byte-order mark selects.
    pub open spec fn magic_order(d: Seq<u8>) -> ByteOrder {
        if d[0] == 0x49 {
            ByteOrder::LittleEndian
        } else {
            ByteOrder::BigEndian
        }
    }

    /// Open a byte source: fix the byte order from the 2-byte mark (`II` is
    /// little endian, `MM` big endian) and leave the cursor at 0. A source
    /// shorter than 2 bytes cannot be read; any other mark is not a TIFF.
    pub fn open(data: Vec<u8>) -> (r: Result<ByteStream, Error>)
        ensures
            match r {
                Ok(s) => Self::valid_magic(data@) && s.bytes() == data@ && s.pos() == 0
                    && s.order() == Self::magic_order(data@),
                Err(e) => !Self::valid_magic(data@) && e == (if data@.len() < 2 {
                    Error::IoError
                } else {
                    Error::FormatError
                }),
            },
    {
        if data.len() < 2 {
            return Err(Error::IoError);
        }
        let b0: u8 = data[0];
        let b1: u8 = data[1];
        if b0 == 0x49 && b1 == 0x49 {
            Ok(ByteStream { data, pos: 0, endian: ByteOrder::LittleEndian })
        } else if b0 == 0x4D && b1 == 0x4D {
            Ok(ByteStream { data, pos: 0, endian: ByteOrder::BigEndian })
        } else {
            Err(Error::FormatError)
        }
    }

    /// A placeholder stream with no bytes, used when a stream is moved out
    /// of a structure and later restored.
    pub(crate) fn empty() -> (r: ByteStream)
        ensures
            r.bytes() == Seq::<u8>::empty(),
            r.pos() == 0,
            r.order() == ByteOrder::LittleEndian,
    {
        ByteStream { data: Vec::new(), pos: 0, endian: ByteOrder::LittleEndian }
    }

    /// The cursor's current byte offset.
    pub fn position(&self) -> (p: u64)
        ensures
            p == self.pos(),
    {
        self.pos
    }

    /// Move the cursor to an absolute byte offset. Seeking past the end is
    /// allowed; reads from there fail.
    pub fn seek(&mut self, offset: u64)
        ensures
            final(self).bytes() == old(self).bytes(),
            final(self).order() == old(self).order(),
            final(self).pos() == offset,
    {
        self.pos = offset;
    }

    /// Move the cursor by a relative number of bytes; fails if the result
    /// would be negative or not fit the cursor's range.
    pub fn skip(&mut self, bytes: i64) -> (r: Result<(), Error>)
        ensures
            final(self).bytes() == old(self).bytes(),
            final(self).order() == old(self).order(),
            match r {
                Ok(()) => 0 <= old(self).pos() + bytes <= u64::MAX && final(self).pos() == old(
                    self,
                ).pos() + bytes,
                Err(e) => e == Error::IoError && !(0 <= old(self).pos() + bytes <= u64::MAX)
                    && final(self).pos() == old(self).pos(),
            },
    {
        let target: i128 = self.pos as i128 + bytes as i128;
        if target < 0 || target > u64::MAX as i128 {
            Err(Error::IoError)
        } else {
            self.pos = target as u64;
            Ok(())
        }
    }

    /// Read one byte at the cursor and advance it.
    pub fn read_u8(&mut self) -> (r: Result<u8, Error>)
        ensures
            final(self).bytes() == old(self).bytes(),
            final(self).order() == old(self).order(),
            match r {
                Ok(v) => old(self).pos() + 1 <= old(self).bytes().len() && v == old(
                    self,
                ).bytes()[old(self).pos()] && final(self).pos() == old(self).pos() + 1,
                Err(e) => e == Error::IoError && old(self).pos() + 1 > old(self).bytes().len()
                    && final(self).pos() == old(self).pos(),
            },
    {
        let len: usize = self.data.len();
        if self.pos >= len as u64 {
            return Err(Error::IoError);
        }
        let i: usize = self.pos as usize;
        let v: u8 = self.data[i];
        self.pos = self.pos + 1;
        Ok(v)
    }

    /// Read a u16 at the cursor in the stream's byte order and advance it.
    pub fn read_u16(&mut self) -> (r: Result<u16, Error>)
        ensures
            final(self).bytes() == old(self).bytes(),
            final(self).order() == old(self).order(),
            match r {
                Ok(v) => old(self).pos() + 2 <= old(self).bytes().len() && v == u16_at(
                    old(self).bytes(),
                    old(self).order(),
                    old(self).pos(),
                ) && final(self).pos() == old(self).pos() + 2,
                Err(e) => e == Error::IoError && old(self).pos() + 2 > old(self).bytes().len()
                    && final(self).pos() == old(self).pos(),
            },
    {
        let len: usize = self.data.len();
        if self.pos >= len as u64 || len as u64 - self.pos < 2 {
            return Err(Error::IoError);
        }
        let i: usize = self.pos as usize;
        let b0: u8 = self.data[i];
        let b1: u8 = self.data[i + 1];
        let v: u16 = match self.endian {
            ByteOrder::LittleEndian => b0 as u16 + (b1 as u16) * 0x100,
            ByteOrder::BigEndian => b1 as u16 + (b0 as u16) * 0x100,
        };
        self.pos = self.pos + 2;
        Ok(v)
    }

    /// Read a u32 at the cursor in the stream's byte order and advance it.
    pub fn read_u32(&mut self) -> (r: Result<u32, Error>)
        ensures
            final(self).bytes() == old(self).bytes(),
            final(self).order() == old(self).order(),
            match r {
                Ok(v) => old(self).pos() + 4 <= old(self).bytes().len() && v == u32_at(
                    old(self).bytes(),
                    old(self).order(),
                    old(self).pos(),
                ) && final(self).pos() == old(self).pos() + 4,
                Err(e) => e == Error::IoError && old(self).pos() + 4 > old(self).bytes().len()
                    && final(self).pos() == old(self).pos(),
            },
    {
        let len: usize = self.data.len();
        if self.pos >= len as u64 || len as u64 - self.pos < 4 {
            return Err(Error::IoError);
        }
        let i: usize = self.pos as usize;
        let b0: u8 = self.data[i];
        let b1: u8 = self.data[i + 1];
        let b2: u8 = self.data[i + 2];
        let b3: u8 = self.data[i + 3];
        let v: u32 = match self.endian {
            ByteOrder::LittleEndian => b0 as u32 + (b1 as u32) * 0x100 + (b2 as u32) * 0x10000 + (
            b3 as u32) * 0x1000000,
            ByteOrder::BigEndian => b3 as u32 + (b2 as u32) * 0x100 + (b1 as u32) * 0x10000 + (
            b0 as u32) * 0x1000000,
        };
        self.pos = self.pos + 4;
        Ok(v)
    }


    /// Read one signed byte at the cursor and advance it.
    pub fn read_i8(&mut self) -> (r: Result<i8, Error>)
        ensures
            final(self).bytes() == old(self).bytes(),
            final(self).order() == old(self).order(),
            match r {
                Ok(v) => old(self).pos() + 1 <= old(self).bytes().len() && v == old(
                    self,
                ).bytes()[old(self).pos()] as i8 && final(self).pos() == old(self).pos() + 1,
                Err(e) => e == Error::IoError && old(self).pos() + 1 > old(self).bytes().len()
                    && final(self).pos() == old(self).pos(),
            },
    {
        match self.read_u8() {
            Ok(v) => Ok(v as i8),
            Err(e) => Err(e),
        }
    }

    /// Read an i16 at the cursor in the stream's byte order and advance it.
    pub fn read_i16(&mut self) -> (r: Result<i16, Error>)
        ensures
            final(self).bytes() == old(self).bytes(),
            final(self).order() == old(self).order(),
            match r {
                Ok(v) => old(self).pos() + 2 <= old(self).bytes().len() && v == i16_at(
                    old(self).bytes(),
                    old(self).order(),
                    old(self).pos(),
                ) && final(self).pos() == old(self).pos() + 2,
                Err(e) => e == Error::IoError && old(self).pos() + 2 > old(self).bytes().len()
                    && final(self).pos() == old(self).pos(),
            },
    {
        match self.read_u16() {
            Ok(v) => Ok(v as i16),
            Err(e) => Err(e),
        }
    }

    /// Read an i32 at the cursor in the stream's byte order and advance it.
    pub fn read_i32(&mut self) -> (r: Result<i32, Error>)
        ensures
            final(self).bytes() == old(self).bytes(),
            final(self).order() == old(self).order(),
            match r {
                Ok(v) => old(self).pos() + 4 <= old(self).bytes().len() && v == i32_at(
                    old(self).bytes(),
                    old(self).order(),
                    old(self).pos(),
                ) && final(self).pos() == old(self).pos() + 4,
                Err(e) => e == Error::IoError && old(self).pos() + 4 > old(self).bytes().len()
                    && final(self).pos() == old(self).pos(),
            },
    {
        match self.read_u32() {
            Ok(v) => Ok(v as i32),
            Err(e) => Err(e),
        }
    }

    /// Read a signed rational (numerator i32, then denominator i32) at the
    /// cursor and advance it.
    pub fn read_signed_rational(&mut self) -> (r: Result<SignedRational, Error>)
        ensures
            final(self).bytes() == old(self).bytes(),
            final(self).order() == old(self).order(),
            match r {
                Ok(v) => old(self).pos() + 8 <= old(self).bytes().len() && v == signed_rational_at(
                    old(self).bytes(),
                    old(self).order(),
                    old(self).pos(),
                ) && final(self).pos() == old(self).pos() + 8,
                Err(e) => e == Error::IoError && old(self).pos() + 8 > old(self).bytes().len()
                    && final(self).pos() == (if old(self).pos() + 4 > old(self).bytes().len() {
                    old(self).pos()
                } else {
                    old(self).pos() + 4
                }),
            },
    {
        let numerator: i32 = match self.read_i32() {
            Ok(v) => v,
            Err(e) => {
                return Err(e);
            },
        };
        let denominator: i32 = match self.read_i32() {
            Ok(v) => v,
            Err(e) => {
                return Err(e);
            },
        };
        Ok(SignedRational { numerator, denominator })
    }

    /// Read `n` consecutive bytes at the cursor and advance it.
    pub fn read_vec_u8(&mut self, n: usize) -> (r: Result<Vec<u8>, Error>)
        ensures
            final(self).bytes() == old(self).bytes(),
            final(self).order() == old(self).order(),
            match r {
                Ok(v) => old(self).pos() + n <= old(self).bytes().len() && v@ == old(
                    self,
                ).bytes().subrange(old(self).pos(), old(self).pos() + n) && final(self).pos()
                    == old(self).pos() + n,
                Err(e) => e == Error::IoError && old(self).pos() + n > old(self).bytes().len()
                    && final(self).pos() == old(self).pos(),
            },
    {
        let len: usize = self.data.len();
        if self.pos > len as u64 || n as u64 > len as u64 - self.pos {
            return Err(Error::IoError);
        }
        let start: usize = self.pos as usize;
        let mut buff: Vec<u8> = Vec::new();
        let mut i: usize = 0;
        while i < n
            invariant
                0 <= i <= n,
                start + n <= self.data.len(),
                buff@ == self.data@.subrange(start as int, start + i),
            decreases n - i,
        {
            buff.push(self.data[start + i]);
            i = i + 1;
            proof {
                assert(buff@ =~= self.data@.subrange(start as int, start + i as int));
            }
        }
        self.pos = self.pos + n as u64;
        Ok(buff)
    }

    /// Read `n` consecutive u16 values at the cursor and advance it.
    pub fn read_vec_u16(&mut self, n: usize) -> (r: Result<Vec<u16>, Error>)
        ensures
            final(self).bytes() == old(self).bytes(),
            final(self).order() == old(self).order(),
            match r {
                Ok(v) => (n == 0 || old(self).pos() + 2 * n <= old(self).bytes().len()) && v@.len() == n
                    && (forall|i: int|
                    0 <= i < n ==> v@[i] == u16_at(
                        old(self).bytes(),
                        old(self).order(),
                        old(self).pos() + 2 * i,
                    )) && final(self).pos() == old(self).pos() + 2 * n,
                Err(e) => e == Error::IoError && old(self).pos() + 2 * n > old(
                    self,
                ).bytes().len() && old(self).pos() <= final(self).pos() < old(self).pos() + 2 * n && (final(self).pos()
                    - old(self).pos()) % 2 == 0 && final(self).pos() + 2 > old(
                    self,
                ).bytes().len() && (final(self).pos() == old(self).pos() || final(self).pos()
                    <= old(self).bytes().len()),
            },
    {
        let mut buff: Vec<u16> = Vec::new();
        let mut i: usize = 0;
        while i < n
            invariant
                0 <= i <= n,
                self.bytes() == old(self).bytes(),
                self.order() == old(self).order(),
                self.pos() == old(self).pos() + 2 * i,
                i > 0 ==> old(self).pos() + 2 * i <= old(self).bytes().len(),
                buff@.len() == i,
                forall|j: int|
                    0 <= j < i ==> buff@[j] == u16_at(
                        old(self).bytes(),
                        old(self).order(),
                        old(self).pos() + 2 * j,
                    ),
            decreases n - i,
        {
            match self.read_u16() {
                Ok(v) => {
                    buff.push(v);
                },
                Err(e) => {
                    proof {
                        assert(0 <= i < n && self.pos() == old(self).pos() + 2 * (i as int)
                            && old(self).pos() + 2 * (i as int) + 2 > old(self).bytes().len() && (
                        i == 0 || old(self).pos() + 2 * (i as int) <= old(self).bytes().len()));
                    }
                    return Err(e);
                },
            }
            i = i + 1;
        }
        Ok(buff)
    }

    /// Read `n` consecutive u32 values at the cursor and advance it.
    pub fn read_vec_u32(&mut self, n: usize) -> (r: Result<Vec<u32>, Error>)
        ensures
            final(self).bytes() == old(self).bytes(),
            final(self).order() == old(self).order(),
            match r {
                Ok(v) => (n == 0 || old(self).pos() + 4 * n <= old(self).bytes().len()) && v@.len() == n
                    && (forall|i: int|
                    0 <= i < n ==> v@[i] == u32_at(
                        old(self).bytes(),
                        old(self).order(),
                        old(self).pos() + 4 * i,
                    )) && final(self).pos() == old(self).pos() + 4 * n,
                Err(e) => e == Error::IoError && old(self).pos() + 4 * n > old(
                    self,
                ).bytes().len() && old(self).pos() <= final(self).pos() < old(self).pos() + 4 * n && (final(self).pos()
                    - old(self).pos()) % 4 == 0 && final(self).pos() + 4 > old(
                    self,
                ).bytes().len() && (final(self).pos() == old(self).pos() || final(self).pos()
                    <= old(self).bytes().len()),
            },
    {
        let mut buff: Vec<u32> = Vec::new();
        let mut i: usize = 0;
        while i < n
            invariant
                0 <= i <= n,
                self.bytes() == old(self).bytes(),
                self.order() == old(self).order(),
                self.pos() == old(self).pos() + 4 * i,
                i > 0 ==> old(self).pos() + 4 * i <= old(self).bytes().len(),
                buff@.len() == i,
                forall|j: int|
                    0 <= j < i ==> buff@[j] == u32_at(
                        old(self).bytes(),
                        old(self).order(),
                        old(self).pos() + 4 * j,
                    ),
            decreases n - i,
        {
            match self.read_u32() {
                Ok(v) => {
                    buff.push(v);
                },
                Err(e) => {
                    proof {
                        assert(0 <= i < n && self.pos() == old(self).pos() + 4 * (i as int)
                            && old(self).pos() + 4 * (i as int) + 4 > old(self).bytes().len() && (
                        i == 0 || old(self).pos() + 4 * (i as int) <= old(self).bytes().len()));
                    }
                    return Err(e);
                },
            }
            i = i + 1;
        }
        Ok(buff)
    }

    /// Read a TIFF ASCII field of declared length `n` at the cursor: its
    /// `n - 1` payload bytes are decoded as UTF-8, lossily, and the trailing
    /// NUL terminator is consumed but not part of the text, so the cursor
    /// advances by the full declared length.
    pub fn read_ascii(&mut self, n: usize) -> (r: Result<String, Error>)
        requires
            n >= 1,
        ensures
            final(self).bytes() == old(self).bytes(),
            final(self).order() == old(self).order(),
            match r {
                Ok(s) => old(self).pos() + n <= old(self).bytes().len() && s@ == utf8_lossy_of(
                    old(self).bytes().subrange(old(self).pos(), old(self).pos() + (n - 1)),
                ) && final(self).pos() == old(self).pos() + n,
                Err(e) => e == Error::IoError && old(self).pos() + n > old(self).bytes().len()
                    && final(self).pos() == old(self).pos(),
            },
    {
        let len: usize = self.data.len();
        if self.pos > len as u64 || n as u64 > len as u64 - self.pos {
            return Err(Error::IoError);
        }
        match self.read_vec_u8(n - 1) {
            Ok(buff) => {
                let cur: u64 = self.position();
                self.seek(cur + 1);
                Ok(lossy_string(&buff))
            },
            Err(e) => Err(e),
        }
    }

    /// Read an unsigned rational (numerator u32, then denominator u32) at the
    /// cursor and advance it.
    pub fn read_unsigned_rational(&mut self) -> (r: Result<UnsignedRational, Error>)
        ensures
            final(self).bytes() == old(self).bytes(),
            final(self).order() == old(self).order(),
            match r {
                Ok(v) => old(self).pos() + 8 <= old(self).bytes().len() && v == rational_at(
                    old(self).bytes(),
                    old(self).order(),
                    old(self).pos(),
                ) && final(self).pos() == old(self).pos() + 8,
                Err(e) => e == Error::IoError && old(self).pos() + 8 > old(self).bytes().len()
                    && final(self).pos() == (if old(self).pos() + 4 > old(self).bytes().len() {
                    old(self).pos()
                } else {
                    old(self).pos() + 4
                }),
            },
    {
        let numerator: u32 = match self.read_u32() {
            Ok(v) => v,
            Err(e) => {
                return Err(e);
            },
        };
        let denominator: u32 = match self.read_u32() {
            Ok(v) => v,
            Err(e) => {
                return Err(e);
            },
        };
        Ok(UnsignedRational { numerator, denominator })
    }

    /// Read `n` consecutive unsigned rationals at the cursor and advance it.
    pub fn read_vec_unsigned_rational(&mut self, n: usize) -> (r: Result<
        Vec<UnsignedRational>,
        Error,
    >)
        ensures
            final(self).bytes() == old(self).bytes(),
            final(self).order() == old(self).order(),
            match r {
                Ok(v) => (n == 0 || old(self).pos() + 8 * n <= old(self).bytes().len()) && v@.len() == n
                    && (forall|i: int|
                    0 <= i < n ==> v@[i] == rational_at(
                        old(self).bytes(),
                        old(self).order(),
                        old(self).pos() + 8 * i,
                    )) && final(self).pos() == old(self).pos() + 8 * n,
                Err(e) => e == Error::IoError && old(self).pos() + 8 * n > old(
                    self,
                ).bytes().len() && old(self).pos() <= final(self).pos() < old(self).pos() + 8 * n && (final(self).pos()
                    - old(self).pos()) % 4 == 0 && final(self).pos() + 4 > old(
                    self,
                ).bytes().len() && (final(self).pos() == old(self).pos() || final(self).pos()
                    <= old(self).bytes().len()),
            },
    {
        let mut buff: Vec<UnsignedRational> = Vec::new();
        let mut i: usize = 0;
        while i < n
            invariant
                0 <= i <= n,
                self.bytes() == old(self).bytes(),
                self.order() == old(self).order(),
                self.pos() == old(self).pos() + 8 * i,
                i > 0 ==> old(self).pos() + 8 * i <= old(self).bytes().len(),
                buff@.len() == i,
                forall|j: int|
                    0 <= j < i ==> buff@[j] == rational_at(
                        old(self).bytes(),
                        old(self).order(),
                        old(self).pos() + 8 * j,
                    ),
            decreases n - i,
        {
            match self.read_unsigned_rational() {
                Ok(v) => {
                    buff.push(v);
                },
                Err(e) => {
                    proof {
                        assert(0 <= i < n && old(self).pos() + 8 * (i as int) + 8 > old(
                            self,
                        ).bytes().len() && (i == 0 || old(self).pos() + 8 * (i as int) <= old(
                            self,
                        ).bytes().len()));
                    }
                    return Err(e);
                },
            }
            i = i + 1;
        }
        Ok(buff)
    }

    /// Read a u16 at the given offset; the cursor is restored on every exit
    /// path, whether the read succeeds or fails.
    pub fn fetch_u16(&mut self, offset: u64) -> (r: Result<u16, Error>)
        ensures
            final(self).bytes() == old(self).bytes(),
            final(self).order() == old(self).order(),
            final(self).pos() == old(self).pos(),
            match r {
                Ok(v) => offset + 2 <= old(self).bytes().len() && v == u16_at(
                    old(self).bytes(),
                    old(self).order(),
                    offset as int,
                ),
                Err(e) => e == Error::IoError && offset + 2 > old(self).bytes().len(),
            },
    {
        let saved: u64 = self.pos;
        self.seek(offset);
        let r = self.read_u16();
        self.seek(saved);
        r
    }

    /// Read a u32 at the given offset; the cursor is restored on every exit
    /// path, whether the read succeeds or fails.
    pub fn fetch_u32(&mut self, offset: u64) -> (r: Result<u32, Error>)
        ensures
            final(self).bytes() == old(self).bytes(),
            final(self).order() == old(self).order(),
            final(self).pos() == old(self).pos(),
            match r {
                Ok(v) => offset + 4 <= old(self).bytes().len() && v == u32_at(
                    old(self).bytes(),
                    old(self).order(),
                    offset as int,
                ),
                Err(e) => e == Error::IoError && offset + 4 > old(self).bytes().len(),
            },
    {
        let saved: u64 = self.pos;
        self.seek(offset);
        let r = self.read_u32();
        self.seek(saved);
        r
    }

    /// Read `n` bytes at the given offset; the cursor is restored on every
    /// exit path.
    pub fn fetch_vec_u8(&mut self, offset: u64, n: usize) -> (r: Result<Vec<u8>, Error>)
        ensures
            final(self).bytes() == old(self).bytes(),
            final(self).order() == old(self).order(),
            final(self).pos() == old(self).pos(),
            match r {
                Ok(v) => offset + n <= old(self).bytes().len() && v@ == old(
                    self,
                ).bytes().subrange(offset as int, offset + n),
                Err(e) => e == Error::IoError && offset + n > old(self).bytes().len(),
            },
    {
        let saved: u64 = self.pos;
        self.seek(offset);
        let r = self.read_vec_u8(n);
        self.seek(saved);
        r
    }

    /// Read `n` u16 values at the given offset; the cursor is restored on
    /// every exit path.
    pub fn fetch_vec_u16(&mut self, offset: u64, n: usize) -> (r: Result<Vec<u16>, Error>)
        ensures
            final(self).bytes() == old(self).bytes(),
            final(self).order() == old(self).order(),
            final(self).pos() == old(self).pos(),
            match r {
                Ok(v) => (n == 0 || offset + 2 * n <= old(self).bytes().len()) && v@.len() == n
                    && (forall|i: int|
                    0 <= i < n ==> v@[i] == u16_at(
                        old(self).bytes(),
                        old(self).order(),
                        offset + 2 * i,
                    )),
                Err(e) => e == Error::IoError && offset + 2 * n > old(self).bytes().len(),
            },
    {
        let saved: u64 = self.pos;
        self.seek(offset);
        let r = self.read_vec_u16(n);
        self.seek(saved);
        r
    }

    /// Read `n` u32 values at the given offset; the cursor is restored on
    /// every exit path.
    pub fn fetch_vec_u32(&mut self, offset: u64, n: usize) -> (r: Result<Vec<u32>, Error>)
        ensures
            final(self).bytes() == old(self).bytes(),
            final(self).order() == old(self).order(),
            final(self).pos() == old(self).pos(),
            match r {
                Ok(v) => (n == 0 || offset + 4 * n <= old(self).bytes().len()) && v@.len() == n
                    && (forall|i: int|
                    0 <= i < n ==> v@[i] == u32_at(
                        old(self).bytes(),
                        old(self).order(),
                        offset + 4 * i,
                    )),
                Err(e) => e == Error::IoError && offset + 4 * n > old(self).bytes().len(),
            },
    {
        let saved: u64 = self.pos;
        self.seek(offset);
        let r = self.read_vec_u32(n);
        self.seek(saved);
        r
    }

    /// Read an ASCII field of declared length `n` at the given offset; the
    /// cursor is restored on every exit path.
    pub fn fetch_ascii(&mut self, offset: u64, n: usize) -> (r: Result<String, Error>)
        requires
            n >= 1,
        ensures
            final(self).bytes() == old(self).bytes(),
            final(self).order() == old(self).order(),
            final(self).pos() == old(self).pos(),
            match r {
                Ok(s) => offset + n <= old(self).bytes().len() && s@ == utf8_lossy_of(
                    old(self).bytes().subrange(offset as int, offset + (n - 1)),
                ),
                Err(e) => e == Error::IoError && offset + n > old(self).bytes().len(),
            },
    {
        let saved: u64 = self.pos;
        self.seek(offset);
        let r = self.read_ascii(n);
        self.seek(saved);
        r
    }


    /// Read a signed byte at the given offset; the cursor is restored on
    /// every exit path.
    pub fn fetch_i8(&mut self, offset: u64) -> (r: Result<i8, Error>)
        ensures
            final(self).bytes() == old(self).bytes(),
            final(self).order() == old(self).order(),
            final(self).pos() == old(self).pos(),
            match r {
                Ok(v) => offset + 1 <= old(self).bytes().len() && v == old(
                    self,
                ).bytes()[offset as int] as i8,
                Err(e) => e == Error::IoError && offset + 1 > old(self).bytes().len(),
            },
    {
        let saved: u64 = self.pos;
        self.seek(offset);
        let r = self.read_i8();
        self.seek(saved);
        r
    }

    /// Read an i16 at the given offset; the cursor is restored on every
    /// exit path.
    pub fn fetch_i16(&mut self, offset: u64) -> (r: Result<i16, Error>)
        ensures
            final(self).bytes() == old(self).bytes(),
            final(self).order() == old(self).order(),
            final(self).pos() == old(self).pos(),
            match r {
                Ok(v) => offset + 2 <= old(self).bytes().len() && v == i16_at(
                    old(self).bytes(),
                    old(self).order(),
                    offset as int,
                ),
                Err(e) => e == Error::IoError && offset + 2 > old(self).bytes().len(),
            },
    {
        let saved: u64 = self.pos;
        self.seek(offset);
        let r = self.read_i16();
        self.seek(saved);
        r
    }

    /// Read an i32 at the given offset; the cursor is restored on every
    /// exit path.
    pub fn fetch_i32(&mut self, offset: u64) -> (r: Result<i32, Error>)
        ensures
            final(self).bytes() == old(self).bytes(),
            final(self).order() == old(self).order(),
            final(self).pos() == old(self).pos(),
            match r {
                Ok(v) => offset + 4 <= old(self).bytes().len() && v == i32_at(
                    old(self).bytes(),
                    old(self).order(),
                    offset as int,
                ),
                Err(e) => e == Error::IoError && offset + 4 > old(self).bytes().len(),
            },
    {
        let saved: u64 = self.pos;
        self.seek(offset);
        let r = self.read_i32();
        self.seek(saved);
        r
    }

    /// Read one signed rational at the given offset; the cursor is restored
    /// on every exit path.
    pub fn fetch_signed_rational(&mut self, offset: u64) -> (r: Result<SignedRational, Error>)
        ensures
            final(self).bytes() == old(self).bytes(),
            final(self).order() == old(self).order(),
            final(self).pos() == old(self).pos(),
            match r {
                Ok(v) => offset + 8 <= old(self).bytes().len() && v == signed_rational_at(
                    old(self).bytes(),
                    old(self).order(),
                    offset as int,
                ),
                Err(e) => e == Error::IoError && offset + 8 > old(self).bytes().len(),
            },
    {
        let saved: u64 = self.pos;
        self.seek(offset);
        let r = self.read_signed_rational();
        self.seek(saved);
        r
    }

    /// Read one unsigned rational at the given offset; the cursor is
    /// restored on every exit path.
    pub fn fetch_unsigned_rational(&mut self, offset: u64) -> (r: Result<UnsignedRational, Error>)
        ensures
            final(self).bytes() == old(self).bytes(),
            final(self).order() == old(self).order(),
            final(self).pos() == old(self).pos(),
            match r {
                Ok(v) => offset + 8 <= old(self).bytes().len() && v == rational_at(
                    old(self).bytes(),
                    old(self).order(),
                    offset as int,
                ),
                Err(e) => e == Error::IoError && offset + 8 > old(self).bytes().len(),
            },
    {
        let saved: u64 = self.pos;
        self.seek(offset);
        let r = self.read_unsigned_rational();
        self.seek(saved);
        r
    }

    /// Read `n` unsigned rationals at the given offset; the cursor is
    /// restored on every exit path.
    pub fn fetch_unsigned_rationals(&mut self, offset: u64, n: usize) -> (r: Result<
        Vec<UnsignedRational>,
        Error,
    >)
        ensures
            final(self).bytes() == old(self).bytes(),
            final(self).order() == old(self).order(),
            final(self).pos() == old(self).pos(),
            match r {
                Ok(v) => (n == 0 || offset + 8 * n <= old(self).bytes().len()) && v@.len() == n
                    && (forall|i: int|
                    0 <= i < n ==> v@[i] == rational_at(
                        old(self).bytes(),
                        old(self).order(),
                        offset + 8 * i,
                    )),
                Err(e) => e == Error::IoError && offset + 8 * n > old(self).bytes().len(),
            },
    {
        let saved: u64 = self.pos;
        self.seek(offset);
        let r = self.read_vec_unsigned_rational(n);
        self.seek(saved);
        r
    }
}

} // verus!
