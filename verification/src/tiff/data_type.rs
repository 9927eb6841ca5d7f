//! TIFF field types (the `type` half of a directory entry) and the rational
//! number pairs some fields carry.

use vstd::prelude::*;

verus! {

/// On-disk type of a directory entry's elements, from the 2-byte type code.
#[derive(Clone, Copy, PartialEq, Eq, Structural, Debug)]
pub enum DataType {
    U8,
    Ascii,
    U16,
    U32,
    Rational,
    S8,
    Blob,
    S16,
    S32,
    SRational,
    F32,
    F64,
    Unknown(u16),
}

/// The `DataType` denoted by an on-disk type code.
pub open spec fn data_type_of(code: u16) -> DataType {
    match code {
        1u16 => DataType::U8,
        2u16 => DataType::Ascii,
        3u16 => DataType::U16,
        4u16 => DataType::U32,
        5u16 => DataType::Rational,
        6u16 => DataType::S8,
        7u16 => DataType::Blob,
        8u16 => DataType::S16,
        9u16 => DataType::S32,
        10u16 => DataType::SRational,
        11u16 => DataType::F32,
        12u16 => DataType::F64,
        _ => DataType::Unknown(code),
    }
}

impl DataType {
    /// Width in bytes of one element of this type, used to decide whether a
    /// field's value fits inline in the entry's 4-byte value slot.
    pub open spec fn spec_size(&self) -> usize {
        match self {
            DataType::U8 => 1usize,
            DataType::Ascii => 1usize,
            DataType::U16 => 2usize,
            DataType::U32 => 4usize,
            DataType::Rational => 8usize,
            DataType::S8 => 1usize,
            DataType::Blob => 1usize,
            DataType::S16 => 2usize,
            DataType::S32 => 4usize,
            DataType::SRational => 8usize,
            DataType::F32 => 4usize,
            DataType::F64 => 8usize,
            DataType::Unknown(_) => 1usize,
        }
    }

    /// Width in bytes of one element of this type.
    #[verifier::when_used_as_spec(spec_size)]
    pub fn size(&self) -> (n: usize)
        ensures
            n == self.spec_size(),
    {
        match *self {
            DataType::U8 => 1,
            DataType::Ascii => 1,
            DataType::U16 => 2,
            DataType::U32 => 4,
            DataType::Rational => 8,
            DataType::S8 => 1,
            DataType::Blob => 1,
            DataType::S16 => 2,
            DataType::S32 => 4,
            DataType::SRational => 8,
            DataType::F32 => 4,
            DataType::F64 => 8,
            DataType::Unknown(_) => 1,
        }
    }
}

impl From<u16> for DataType {
    /// Decode the on-disk type code.
    fn from(code: u16) -> (t: DataType)
        ensures
            t == data_type_of(code),
    {
        match code {
            1 => DataType::U8,
            2 => DataType::Ascii,
            3 => DataType::U16,
            4 => DataType::U32,
            5 => DataType::Rational,
            6 => DataType::S8,
            7 => DataType::Blob,
            8 => DataType::S16,
            9 => DataType::S32,
            10 => DataType::SRational,
            11 => DataType::F32,
            12 => DataType::F64,
            _ => DataType::Unknown(code),
        }
    }
}

impl vstd::std_specs::convert::FromSpecImpl<u16> for DataType {
    open spec fn obeys_from_spec() -> bool {
        true
    }

    open spec fn from_spec(code: u16) -> DataType {
        data_type_of(code)
    }
}

/// An unsigned rational: two consecutive u32 words, numerator then
/// denominator. The reader performs no reduction and does not reject a zero
/// denominator; that is the consumer's concern.
#[derive(Clone, Copy, PartialEq, Eq, Structural, Debug)]
pub struct UnsignedRational {
    pub numerator: u32,
    pub denominator: u32,
}

/// A signed rational: two consecutive i32 words, numerator then denominator.
#[derive(Clone, Copy, PartialEq, Eq, Structural, Debug)]
pub struct SignedRational {
    pub numerator: i32,
    pub denominator: i32,
}

} // verus!
