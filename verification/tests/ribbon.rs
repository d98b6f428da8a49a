//! Ribbon construction, raw byte writes, and typed reads.

use illustruct::access::Path;
use illustruct::composite::Field;
use illustruct::kind::{Kind, KindArena};
use illustruct::mem_ribbon::{MemByte, MemRibbon};
use illustruct::primitive::{Primitive, PrimValue};

#[test]
fn write_then_read_roundtrip() {
    let mut arena = KindArena::new();
    let u32_id = arena.push(Kind::prim(Primitive::U32));
    let mut ribbon = MemRibbon::new(0).span(
        &mut arena,
        "reg",
        vec![Field::new("v", u32_id), Field::new("w", u32_id)],
    );
    ribbon.write_at(0, PrimValue::U32(0xDEADBEEF));
    ribbon.write_at(4, PrimValue::I32(-7));
    assert_eq!(Primitive::U32.parse_at(&ribbon, 0), Some(PrimValue::U32(0xDEADBEEF)));
    assert_eq!(Primitive::I32.parse_at(&ribbon, 4), Some(PrimValue::I32(-7)));
    // Re-reading the same bytes at a narrower type sees the low bytes.
    assert_eq!(Primitive::U16.parse_at(&ribbon, 0), Some(PrimValue::U16(0xBEEF)));
}

#[test]
fn roundtrip_every_scalar() {
    let mut arena = KindArena::new();
    let u64_id = arena.push(Kind::prim(Primitive::U64));
    let mut ribbon = MemRibbon::new(0).span(
        &mut arena,
        "cell",
        vec![Field::new("raw", u64_id)],
    );
    let values = [
        PrimValue::Bool(1),
        PrimValue::Char(b'Q'),
        PrimValue::U8(0xFE),
        PrimValue::U16(40000),
        PrimValue::U32(3_000_000_000),
        PrimValue::U64(0x0123_4567_89AB_CDEF),
        PrimValue::I8(-3),
        PrimValue::I16(-30000),
        PrimValue::I32(-2_000_000_000),
        PrimValue::I64(-5_000_000_000),
        PrimValue::F32(0x4048F5C3),
        PrimValue::F64(0x400921FB54442D18),
        PrimValue::Size(0xCAFE),
    ];
    for v in values {
        ribbon.write_at(0, v);
        assert_eq!(v.primitive().parse_at(&ribbon, 0), Some(v));
    }
}

#[test]
fn bytes_at_rejects_undefined_and_out_of_range() {
    let mut arena = KindArena::new();
    let u32_id = arena.push(Kind::prim(Primitive::U32));
    let mut ribbon = MemRibbon::new(16).span(&mut arena, "reg", vec![Field::new("v", u32_id)]);
    // Nothing written yet: every read fails on undefined bytes.
    assert_eq!(ribbon.bytes_at(16, 1), None);
    ribbon.write_at(16, PrimValue::U16(0x0102));
    // The two written bytes read back; the range touching undefined bytes
    // or leaving the ribbon still fails.
    assert_eq!(ribbon.bytes_at(16, 2), Some(vec![0x02, 0x01]));
    assert_eq!(ribbon.bytes_at(16, 3), None);
    assert_eq!(ribbon.bytes_at(15, 2), None);
    assert_eq!(ribbon.bytes_at(18, 4), None);
    assert_eq!(ribbon.bytes_at(16, 0), Some(vec![]));
}

#[test]
fn write_clips_before_the_base() {
    // Writing a U32 partially before the base keeps only the in-range bytes
    // and corrupts nothing else.
    let mut arena = KindArena::new();
    let u32_id = arena.push(Kind::prim(Primitive::U32));
    let mut ribbon = MemRibbon::new(128).span(&mut arena, "reg", vec![Field::new("v", u32_id)]);
    ribbon.write_at(126, PrimValue::U32(0x0A0B0C0D));
    // Little-endian image is [0D, 0C, 0B, 0A]; bytes 0D and 0C fall before
    // the base and are dropped.
    assert_eq!(ribbon.bytes_at(128, 2), Some(vec![0x0B, 0x0A]));
    assert_eq!(ribbon.bytes_at(128, 3), None);
    assert_eq!(ribbon.data[2], MemByte::Undefined);
    assert_eq!(ribbon.data[3], MemByte::Undefined);
}

#[test]
fn write_clips_past_the_end() {
    let mut arena = KindArena::new();
    let u16_id = arena.push(Kind::prim(Primitive::U16));
    let mut ribbon = MemRibbon::new(0).span(&mut arena, "reg", vec![Field::new("v", u16_id)]);
    // Only the first byte of the U32 lands inside the two-byte ribbon.
    ribbon.write_at(1, PrimValue::U32(0x11223344));
    assert_eq!(ribbon.data.len(), 2);
    assert_eq!(ribbon.data[0], MemByte::Undefined);
    assert_eq!(ribbon.data[1], MemByte::Byte(0x44));
    // A write entirely outside changes nothing.
    ribbon.write_at(100, PrimValue::U64(5));
    assert_eq!(ribbon.data[0], MemByte::Undefined);
}

#[test]
fn span_pads_to_alignment() {
    let mut arena = KindArena::new();
    let u8_id = arena.push(Kind::prim(Primitive::U8));
    let u32_id = arena.push(Kind::prim(Primitive::U32));
    let mut ribbon = MemRibbon::new(0).span(&mut arena, "head", vec![Field::new("b", u8_id)]);
    ribbon.skip(2);
    // Cursor is at 3; the next span needs 4-byte alignment, so one byte of
    // automatic padding is inserted before it.
    let ribbon = ribbon.span(&mut arena, "word", vec![Field::new("v", u32_id)]);
    assert_eq!(ribbon.data.len(), 8);
    assert_eq!(ribbon.segments.len(), 4);
    let place = ribbon.get(&arena, Path::new("word").field("v")).unwrap();
    assert_eq!(place.address, 4);
}

#[test]
fn chop_and_ellipse_reserve_as_documented() {
    let mut arena = KindArena::new();
    let u8_id = arena.push(Kind::prim(Primitive::U8));
    let ribbon = MemRibbon::new(0)
        .chop(3, -10)
        .ellipse(5)
        .span(&mut arena, "tail", vec![Field::new("b", u8_id)]);
    // The chop reserves nothing; the ellipsis reserves five bytes.
    assert_eq!(ribbon.data.len(), 6);
    let place = ribbon.get(&arena, Path::new("tail").field("b")).unwrap();
    assert_eq!(place.address, 5);
}

#[test]
fn mem_byte_states() {
    assert_eq!(MemByte::Undefined.byte(), None);
    assert_eq!(MemByte::OutOfBounds.byte(), None);
    assert_eq!(MemByte::Byte(9).byte(), Some(9));
    let mut b = MemByte::Undefined;
    b.writable(42);
    assert_eq!(b, MemByte::Byte(42));
}

#[test]
fn prim_value_bytes_are_little_endian() {
    assert_eq!(PrimValue::U16(0x1122).bytes(), vec![0x22, 0x11]);
    assert_eq!(PrimValue::U32(1).bytes(), vec![1, 0, 0, 0]);
    assert_eq!(PrimValue::I8(-1).bytes(), vec![0xFF]);
    assert_eq!(PrimValue::I16(-2).bytes(), vec![0xFE, 0xFF]);
    assert_eq!(PrimValue::Size(0x01020304).bytes(), vec![4, 3, 2, 1]);
    assert_eq!(
        PrimValue::U64(0x0807060504030201).bytes(),
        vec![1, 2, 3, 4, 5, 6, 7, 8],
    );
    assert_eq!(PrimValue::Bool(1).bytes(), vec![1]);
    assert_eq!(PrimValue::F32(0x40490FDB).bytes(), vec![0xDB, 0x0F, 0x49, 0x40]);
}
