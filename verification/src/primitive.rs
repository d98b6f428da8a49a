//! The fixed catalog of scalar machine types and their byte serialization.

use vstd::prelude::*;
use crate::mem_ribbon::{spec_parse_at, MemRibbon};
use vstd::bytes::{
    spec_u16_from_le_bytes, spec_u16_to_le_bytes, spec_u32_from_le_bytes, spec_u32_to_le_bytes,
    spec_u64_from_le_bytes, spec_u64_to_le_bytes, u16_from_le_bytes, u16_to_le_bytes,
    u32_from_le_bytes, u32_to_le_bytes, u64_from_le_bytes, u64_to_le_bytes,
    lemma_auto_spec_u16_to_from_le_bytes, lemma_auto_spec_u32_to_from_le_bytes,
    lemma_auto_spec_u64_to_from_le_bytes,
};

verus! {

/// A scalar machine type with a fixed size and an alignment equal to that size.
#[derive(Clone, Copy, Debug, PartialEq, Eq, Structural)]
pub enum Primitive {
    Bool,
    Char,
    U8,
    U16,
    U32,
    U64,
    I8,
    I16,
    I32,
    I64,
    F32,
    F64,
    Size,
}

/// A value of one scalar machine type.
///
/// The two floating-point variants carry the raw IEEE-754 bit pattern of the
/// value: the library only ever lays such values out and moves their bytes,
/// it never computes with them.
#[derive(Clone, Copy, Debug, PartialEq, Eq, Structural)]
pub enum PrimValue {
    Bool(u8),
    Char(u8),
    U8(u8),
    U16(u16),
    U32(u32),
    U64(u64),
    I8(i8),
    I16(i16),
    I32(i32),
    I64(i64),
    F32(u32),
    F64(u64),
    Size(u32),
}

impl Primitive {
    /// The number of bytes a value of this type occupies.
    pub open spec fn spec_size_of(self) -> nat {
        match self {
            Primitive::Bool => 1,
            Primitive::Char => 1,
            Primitive::U8 => 1,
            Primitive::U16 => 2,
            Primitive::U32 => 4,
            Primitive::U64 => 8,
            Primitive::I8 => 1,
            Primitive::I16 => 2,
            Primitive::I32 => 4,
            Primitive::I64 => 8,
            Primitive::F32 => 4,
            Primitive::F64 => 8,
            Primitive::Size => 4,
        }
    }

    /// The C-style spelling of this type.
    pub open spec fn spec_name(self) -> Seq<char> {
        match self {
            Primitive::Bool => "bool"@,
            Primitive::Char => "char"@,
            Primitive::U8 => "uint8_t"@,
            Primitive::U16 => "uint16_t"@,
            Primitive::U32 => "uint32_t"@,
            Primitive::U64 => "uint64_t"@,
            Primitive::I8 => "int8_t"@,
            Primitive::I16 => "int16_t"@,
            Primitive::I32 => "int32_t"@,
            Primitive::I64 => "int64_t"@,
            Primitive::F32 => "float"@,
            Primitive::F64 => "double"@,
            Primitive::Size => "size_t"@,
        }
    }

    pub fn size_of(&self) -> (n: u16)
        ensures
            n as nat == self.spec_size_of(),
    {
        match self {
            Primitive::Bool => 1,
            Primitive::Char => 1,
            Primitive::U8 => 1,
            Primitive::U16 => 2,
            Primitive::U32 => 4,
            Primitive::U64 => 8,
            Primitive::I8 => 1,
            Primitive::I16 => 2,
            Primitive::I32 => 4,
            Primitive::I64 => 8,
            Primitive::F32 => 4,
            Primitive::F64 => 8,
            Primitive::Size => 4,
        }
    }

    /// A primitive's required alignment equals its size.
    pub fn align_of(&self) -> (n: u16)
        ensures
            n as nat == self.spec_size_of(),
    {
        self.size_of()
    }

    pub fn name_str(&self) -> (r: &'static str)
        ensures
            r@ == self.spec_name(),
    {
        match self {
            Primitive::Bool => "bool",
            Primitive::Char => "char",
            Primitive::U8 => "uint8_t",
            Primitive::U16 => "uint16_t",
            Primitive::U32 => "uint32_t",
            Primitive::U64 => "uint64_t",
            Primitive::I8 => "int8_t",
            Primitive::I16 => "int16_t",
            Primitive::I32 => "int32_t",
            Primitive::I64 => "int64_t",
            Primitive::F32 => "float",
            Primitive::F64 => "double",
            Primitive::Size => "size_t",
        }
    }

    pub fn name_string(&self) -> (r: String)
        ensures
            r@ == self.spec_name(),
    {
        self.name_str().to_owned()
    }

    /// Read a value of this type from the ribbon at an absolute address:
    /// `None` when the bytes lie outside the ribbon or were never written.
    pub fn parse_at(&self, ribbon: &MemRibbon, address: usize) -> (r: Option<PrimValue>)
        ensures
            r == spec_parse_at(ribbon.base_adr as int, ribbon.data@, *self, address as int),
    {
        let size = self.size_of();
        match ribbon.bytes_at(address, size as usize) {
            Some(bytes) => Some(decode(*self, &bytes)),
            None => None,
        }
    }

    /// The category shown in error context; for a scalar it is its own name.
    pub fn variant_str(&self) -> (r: &'static str)
        ensures
            r@ == self.spec_name(),
    {
        self.name_str()
    }
}

impl PrimValue {
    /// The scalar type this value belongs to.
    pub open spec fn spec_primitive(self) -> Primitive {
        match self {
            PrimValue::Bool(_) => Primitive::Bool,
            PrimValue::Char(_) => Primitive::Char,
            PrimValue::U8(_) => Primitive::U8,
            PrimValue::U16(_) => Primitive::U16,
            PrimValue::U32(_) => Primitive::U32,
            PrimValue::U64(_) => Primitive::U64,
            PrimValue::I8(_) => Primitive::I8,
            PrimValue::I16(_) => Primitive::I16,
            PrimValue::I32(_) => Primitive::I32,
            PrimValue::I64(_) => Primitive::I64,
            PrimValue::F32(_) => Primitive::F32,
            PrimValue::F64(_) => Primitive::F64,
            PrimValue::Size(_) => Primitive::Size,
        }
    }

    pub fn primitive(&self) -> (p: Primitive)
        ensures
            p == self.spec_primitive(),
    {
        match self {
            PrimValue::Bool(_) => Primitive::Bool,
            PrimValue::Char(_) => Primitive::Char,
            PrimValue::U8(_) => Primitive::U8,
            PrimValue::U16(_) => Primitive::U16,
            PrimValue::U32(_) => Primitive::U32,
            PrimValue::U64(_) => Primitive::U64,
            PrimValue::I8(_) => Primitive::I8,
            PrimValue::I16(_) => Primitive::I16,
            PrimValue::I32(_) => Primitive::I32,
            PrimValue::I64(_) => Primitive::I64,
            PrimValue::F32(_) => Primitive::F32,
            PrimValue::F64(_) => Primitive::F64,
            PrimValue::Size(_) => Primitive::Size,
        }
    }

    /// The little-endian byte image of this value.
    pub open spec fn spec_bytes(self) -> Seq<u8> {
        match self {
            PrimValue::Bool(x) => seq![x],
            PrimValue::Char(x) => seq![x],
            PrimValue::U8(x) => seq![x],
            PrimValue::U16(x) => spec_u16_to_le_bytes(x),
            PrimValue::U32(x) => spec_u32_to_le_bytes(x),
            PrimValue::U64(x) => spec_u64_to_le_bytes(x),
            PrimValue::I8(x) => seq![x as u8],
            PrimValue::I16(x) => spec_u16_to_le_bytes(x as u16),
            PrimValue::I32(x) => spec_u32_to_le_bytes(x as u32),
            PrimValue::I64(x) => spec_u64_to_le_bytes(x as u64),
            PrimValue::F32(x) => spec_u32_to_le_bytes(x),
            PrimValue::F64(x) => spec_u64_to_le_bytes(x),
            PrimValue::Size(x) => spec_u32_to_le_bytes(x),
        }
    }

    /// Serialize to little-endian bytes; the image has exactly
    /// `spec_primitive().spec_size_of()` bytes.
    pub fn bytes(&self) -> (v: Vec<u8>)
        ensures
            v@ == self.spec_bytes(),
            v@.len() == self.spec_primitive().spec_size_of(),
    {
        proof {
            lemma_auto_spec_u16_to_from_le_bytes();
            lemma_auto_spec_u32_to_from_le_bytes();
            lemma_auto_spec_u64_to_from_le_bytes();
        }
        match self {
            PrimValue::Bool(x) => {
                let mut v: Vec<u8> = Vec::new();
                v.push(*x);
                assert(v@ =~= seq![*x]);
                v
            },
            PrimValue::Char(x) => {
                let mut v: Vec<u8> = Vec::new();
                v.push(*x);
                assert(v@ =~= seq![*x]);
                v
            },
            PrimValue::U8(x) => {
                let mut v: Vec<u8> = Vec::new();
                v.push(*x);
                assert(v@ =~= seq![*x]);
                v
            },
            PrimValue::U16(x) => u16_to_le_bytes(*x),
            PrimValue::U32(x) => u32_to_le_bytes(*x),
            PrimValue::U64(x) => u64_to_le_bytes(*x),
            PrimValue::I8(x) => {
                let b: u8 = *x as u8;
                let mut v: Vec<u8> = Vec::new();
                v.push(b);
                assert(v@ =~= seq![b]);
                v
            },
            PrimValue::I16(x) => u16_to_le_bytes(*x as u16),
            PrimValue::I32(x) => u32_to_le_bytes(*x as u32),
            PrimValue::I64(x) => u64_to_le_bytes(*x as u64),
            PrimValue::F32(x) => u32_to_le_bytes(*x),
            PrimValue::F64(x) => u64_to_le_bytes(*x),
            PrimValue::Size(x) => u32_to_le_bytes(*x),
        }
    }
}

/// The value a primitive type reads back from a little-endian byte image.
pub open spec fn spec_decode(p: Primitive, bytes: Seq<u8>) -> PrimValue
    recommends
        bytes.len() == p.spec_size_of(),
{
    match p {
        Primitive::Bool => PrimValue::Bool(bytes[0]),
        Primitive::Char => PrimValue::Char(bytes[0]),
        Primitive::U8 => PrimValue::U8(bytes[0]),
        Primitive::U16 => PrimValue::U16(spec_u16_from_le_bytes(bytes)),
        Primitive::U32 => PrimValue::U32(spec_u32_from_le_bytes(bytes)),
        Primitive::U64 => PrimValue::U64(spec_u64_from_le_bytes(bytes)),
        Primitive::I8 => PrimValue::I8(bytes[0] as i8),
        Primitive::I16 => PrimValue::I16(spec_u16_from_le_bytes(bytes) as i16),
        Primitive::I32 => PrimValue::I32(spec_u32_from_le_bytes(bytes) as i32),
        Primitive::I64 => PrimValue::I64(spec_u64_from_le_bytes(bytes) as i64),
        Primitive::F32 => PrimValue::F32(spec_u32_from_le_bytes(bytes)),
        Primitive::F64 => PrimValue::F64(spec_u64_from_le_bytes(bytes)),
        Primitive::Size => PrimValue::Size(spec_u32_from_le_bytes(bytes)),
    }
}

/// Decode a value of type `p` from its little-endian byte image.
pub fn decode(p: Primitive, bytes: &Vec<u8>) -> (v: PrimValue)
    requires
        bytes@.len() == p.spec_size_of(),
    ensures
        v == spec_decode(p, bytes@),
        v.spec_primitive() == p,
{
    match p {
        Primitive::Bool => PrimValue::Bool(bytes[0]),
        Primitive::Char => PrimValue::Char(bytes[0]),
        Primitive::U8 => PrimValue::U8(bytes[0]),
        Primitive::U16 => PrimValue::U16(u16_from_le_bytes(bytes.as_slice())),
        Primitive::U32 => PrimValue::U32(u32_from_le_bytes(bytes.as_slice())),
        Primitive::U64 => PrimValue::U64(u64_from_le_bytes(bytes.as_slice())),
        Primitive::I8 => PrimValue::I8(bytes[0] as i8),
        Primitive::I16 => PrimValue::I16(u16_from_le_bytes(bytes.as_slice()) as i16),
        Primitive::I32 => PrimValue::I32(u32_from_le_bytes(bytes.as_slice()) as i32),
        Primitive::I64 => PrimValue::I64(u64_from_le_bytes(bytes.as_slice()) as i64),
        Primitive::F32 => PrimValue::F32(u32_from_le_bytes(bytes.as_slice())),
        Primitive::F64 => PrimValue::F64(u64_from_le_bytes(bytes.as_slice())),
        Primitive::Size => PrimValue::Size(u32_from_le_bytes(bytes.as_slice())),
    }
}

/// A value's byte image has exactly its type's size.
pub proof fn lemma_prim_bytes_len(v: PrimValue)
    ensures
        v.spec_bytes().len() == v.spec_primitive().spec_size_of(),
{
    lemma_auto_spec_u16_to_from_le_bytes();
    lemma_auto_spec_u32_to_from_le_bytes();
    lemma_auto_spec_u64_to_from_le_bytes();
}

/// Decoding the byte image of a value at its own type gives the value back.
pub proof fn lemma_decode_bytes_roundtrip(v: PrimValue)
    ensures
        spec_decode(v.spec_primitive(), v.spec_bytes()) == v,
{
    lemma_auto_spec_u16_to_from_le_bytes();
    lemma_auto_spec_u32_to_from_le_bytes();
    lemma_auto_spec_u64_to_from_le_bytes();
    // Mentioning each image's length instantiates the roundtrip facts above;
    // the signed cases additionally need the two's-complement cast roundtrip.
    match v {
        PrimValue::I8(x) => {
            assert((x as u8) as i8 == x) by (bit_vector);
        },
        PrimValue::I16(x) => {
            assert((x as u16) as i16 == x) by (bit_vector);
            assert(spec_u16_to_le_bytes(x as u16).len() == 2);
        },
        PrimValue::I32(x) => {
            assert((x as u32) as i32 == x) by (bit_vector);
            assert(spec_u32_to_le_bytes(x as u32).len() == 4);
        },
        PrimValue::I64(x) => {
            assert((x as u64) as i64 == x) by (bit_vector);
        },
        PrimValue::U16(x) => {
            assert(spec_u16_to_le_bytes(x).len() == 2);
        },
        PrimValue::U32(x) => {
            assert(spec_u32_to_le_bytes(x).len() == 4);
        },
        PrimValue::F32(x) => {
            assert(spec_u32_to_le_bytes(x).len() == 4);
        },
        PrimValue::Size(x) => {
            assert(spec_u32_to_le_bytes(x).len() == 4);
        },
        _ => {},
    }
}

} // verus!
