//! Sizes, alignments, offsets and leaf expansion under the C layout rules.

use illustruct::composite::{Composite, Field, Mode};
use illustruct::kind::{usize_to_string, Alias, Kind, KindArena};
use illustruct::primitive::Primitive;
use illustruct::reference;
use illustruct::reference::Reference;
use illustruct::array::Array;

fn scalar(arena: &mut KindArena, p: Primitive) -> usize {
    arena.push(Kind::prim(p))
}

#[test]
fn primitive_sizes_and_alignments() {
    assert_eq!(Primitive::Bool.size_of(), 1);
    assert_eq!(Primitive::Char.size_of(), 1);
    assert_eq!(Primitive::U8.size_of(), 1);
    assert_eq!(Primitive::U16.size_of(), 2);
    assert_eq!(Primitive::U32.size_of(), 4);
    assert_eq!(Primitive::U64.size_of(), 8);
    assert_eq!(Primitive::I8.size_of(), 1);
    assert_eq!(Primitive::I16.size_of(), 2);
    assert_eq!(Primitive::I32.size_of(), 4);
    assert_eq!(Primitive::I64.size_of(), 8);
    assert_eq!(Primitive::F32.size_of(), 4);
    assert_eq!(Primitive::F64.size_of(), 8);
    assert_eq!(Primitive::Size.size_of(), 4);
    assert_eq!(Primitive::U64.align_of(), 8);
    assert_eq!(Primitive::Size.name_str(), "size_t");
}

#[test]
fn product_with_padding() {
    // struct { uint8_t a; uint16_t b; }: one byte of padding after `a`.
    let mut arena = KindArena::new();
    let u8_id = scalar(&mut arena, Primitive::U8);
    let u16_id = scalar(&mut arena, Primitive::U16);
    let c = Composite::product(
        "pair",
        vec![Field::new("a", u8_id), Field::new("b", u16_id)],
    );
    assert_eq!(c.size_of(&arena), 4);
    assert_eq!(c.align_of(&arena), 2);
    assert_eq!(c.size_of_no_end_pad(&arena), 4);
    assert_eq!(c.offset_of(&arena, "a"), Some(0));
    assert_eq!(c.offset_of(&arena, "b"), Some(2));
    assert_eq!(c.offset_of(&arena, "zzz"), None);
    assert_eq!(c.type_of("b"), Some(u16_id));
    assert_eq!(c.type_of("zzz"), None);
    // The size is a multiple of the alignment.
    assert_eq!(c.size_of(&arena) % c.align_of(&arena), 0);
}

#[test]
fn product_already_aligned() {
    // struct { uint8_t a; uint8_t b; uint16_t c; }: offset 2 needs no padding.
    let mut arena = KindArena::new();
    let u8_id = scalar(&mut arena, Primitive::U8);
    let u16_id = scalar(&mut arena, Primitive::U16);
    let c = Composite::product(
        "triple",
        vec![
            Field::new("a", u8_id),
            Field::new("b", u8_id),
            Field::new("c", u16_id),
        ],
    );
    assert_eq!(c.size_of(&arena), 4);
    assert_eq!(c.offset_of(&arena, "c"), Some(2));
}

#[test]
fn sum_overlays_fields()  {
    // union { uint8_t a; uint32_t b; }: both fields at offset zero.
    let mut arena = KindArena::new();
    let u8_id = scalar(&mut arena, Primitive::U8);
    let u32_id = scalar(&mut arena, Primitive::U32);
    let c = Composite::new(
        "either",
        Mode::Sum,
        vec![Field::new("a", u8_id), Field::new("b", u32_id)],
    );
    assert_eq!(c.size_of(&arena), 4);
    assert_eq!(c.align_of(&arena), 4);
    assert_eq!(c.offset_of(&arena, "a"), Some(0));
    assert_eq!(c.offset_of(&arena, "b"), Some(0));
    // The union is at least as large as each of its fields.
    assert!(c.size_of(&arena) >= Primitive::U8.size_of());
    assert!(c.size_of(&arena) >= Primitive::U32.size_of());
}

#[test]
fn empty_composite_is_zero_sized() {
    let arena = KindArena::new();
    let c = Composite::product("nothing", vec![]);
    assert_eq!(c.size_of(&arena), 0);
    assert_eq!(c.align_of(&arena), 0);
}

#[test]
fn anonymous_fields_advance_offsets() {
    let mut arena = KindArena::new();
    let u8_id = scalar(&mut arena, Primitive::U8);
    let u16_id = scalar(&mut arena, Primitive::U16);
    let c = Composite::product(
        "padded",
        vec![Field::anon(u8_id), Field::new("x", u16_id)],
    );
    assert_eq!(c.offset_of(&arena, "x"), Some(2));
    // The anonymous field cannot be named.
    assert_eq!(c.type_of(""), None);
}

#[test]
fn duplicate_names_resolve_to_first() {
    let mut arena = KindArena::new();
    let u8_id = scalar(&mut arena, Primitive::U8);
    let u16_id = scalar(&mut arena, Primitive::U16);
    let c = Composite::product(
        "dup",
        vec![Field::new("x", u8_id), Field::new("x", u16_id)],
    );
    assert_eq!(c.offset_of(&arena, "x"), Some(0));
    assert_eq!(c.type_of("x"), Some(u8_id));
}

#[test]
fn nested_composite_sizes() {
    // struct Point { uint16_t x; uint16_t gorp; uint16_t z; } used three times.
    let mut arena = KindArena::new();
    let u16_id = scalar(&mut arena, Primitive::U16);
    let point = arena.push(Kind::comp(Composite::product(
        "Point",
        vec![
            Field::new("x", u16_id),
            Field::new("gorp", u16_id),
            Field::new("z", u16_id),
        ],
    )));
    assert_eq!(arena.size_of(point), 6);
    assert_eq!(arena.align_of(point), 2);
    let tri = arena.push(Kind::comp(Composite::product(
        "Line",
        vec![
            Field::new("a", point),
            Field::new("b", point),
            Field::new("c", point),
        ],
    )));
    assert_eq!(arena.size_of(tri), 18);
    let overlay = arena.push(Kind::comp(Composite::new(
        "LineUnion",
        Mode::Sum,
        vec![Field::new("p", tri), Field::new("r", tri)],
    )));
    assert_eq!(arena.size_of(overlay), 18);
    assert_eq!(arena.align_of(overlay), 2);
}

#[test]
fn references_occupy_one_address() {
    let mut arena = KindArena::new();
    let u64_id = scalar(&mut arena, Primitive::U64);
    let ptr = arena.push(Kind::refr(Reference::new(reference::Mode::Ptr, u64_id)));
    assert_eq!(arena.size_of(ptr), 4);
    assert_eq!(arena.align_of(ptr), 4);
}

#[test]
fn arrays_repeat_their_element() {
    let mut arena = KindArena::new();
    let u16_id = scalar(&mut arena, Primitive::U16);
    let arr = arena.push(Kind::array(Array { kind: u16_id, size: 5 }));
    assert_eq!(arena.size_of(arr), 10);
    assert_eq!(arena.align_of(arr), 2);
}

#[test]
fn aliases_are_transparent_for_layout() {
    let mut arena = KindArena::new();
    let u32_id = scalar(&mut arena, Primitive::U32);
    let meters = arena.push(Kind::alias(Alias::new("meters", u32_id)));
    assert_eq!(arena.size_of(meters), 4);
    assert_eq!(arena.align_of(meters), 4);
    assert_eq!(arena.name_of(meters), "meters");
}

#[test]
fn self_referential_composite_via_add_field() {
    // link { float data; link* next; }, closed with add_field.
    let mut arena = KindArena::new();
    let float_id = scalar(&mut arena, Primitive::F32);
    let link = arena.push(Kind::comp(Composite::product(
        "link",
        vec![Field::new("data", float_id)],
    )));
    let link_ptr = arena.push(Kind::refr(Reference::new(reference::Mode::Ptr, link)));
    arena.add_field(link, "next", link_ptr);
    assert_eq!(arena.size_of(link), 8);
    assert_eq!(arena.align_of(link), 4);
    let node = arena.get(link);
    match node {
        Kind::Composite(c) => {
            assert_eq!(c.offset_of(&arena, "data"), Some(0));
            assert_eq!(c.offset_of(&arena, "next"), Some(4));
        },
        _ => panic!("expected a composite"),
    }
}

#[test]
fn names_of_compound_kinds() {
    let mut arena = KindArena::new();
    let u8_id = scalar(&mut arena, Primitive::U8);
    let comp = arena.push(Kind::comp(Composite::product(
        "Point",
        vec![Field::new("x", u8_id)],
    )));
    let refr = arena.push(Kind::refr(Reference::new(reference::Mode::Ref, comp)));
    let ptr = arena.push(Kind::refr(Reference::new(reference::Mode::Ptr, comp)));
    let arr = arena.push(Kind::array(Array { kind: u8_id, size: 120 }));
    assert_eq!(arena.name_of(comp), "Point");
    assert_eq!(arena.name_of(refr), "Point&");
    assert_eq!(arena.name_of(ptr), "Point*");
    assert_eq!(arena.name_of(arr), "uint8_t[120]");
    assert_eq!(usize_to_string(0), "0");
    assert_eq!(usize_to_string(90210), "90210");
    assert_eq!(arena.get(comp).variant_str(), "struct");
    assert_eq!(arena.get(ptr).variant_str(), "pointer");
}

#[test]
fn offset_plus_field_size_stays_inside() {
    // struct { uint8_t a; uint32_t b; uint16_t c; }: every named field ends
    // within the composite's total size.
    let mut arena = KindArena::new();
    let u8_id = scalar(&mut arena, Primitive::U8);
    let u16_id = scalar(&mut arena, Primitive::U16);
    let u32_id = scalar(&mut arena, Primitive::U32);
    let c = Composite::product(
        "mixed",
        vec![
            Field::new("a", u8_id),
            Field::new("b", u32_id),
            Field::new("c", u16_id),
        ],
    );
    let total = c.size_of(&arena);
    assert_eq!(total, 12);
    assert_eq!(c.offset_of(&arena, "b"), Some(4));
    assert_eq!(c.offset_of(&arena, "c"), Some(8));
    assert!(c.offset_of(&arena, "a").unwrap() + Primitive::U8.size_of() <= total);
    assert!(c.offset_of(&arena, "b").unwrap() + Primitive::U32.size_of() <= total);
    assert!(c.offset_of(&arena, "c").unwrap() + Primitive::U16.size_of() <= total);
}

#[test]
fn base_fields_flatten_to_scalars() {
    let mut arena = KindArena::new();
    let u8_id = scalar(&mut arena, Primitive::U8);
    let u16_id = scalar(&mut arena, Primitive::U16);
    let pair = arena.push(Kind::comp(Composite::product(
        "pair",
        vec![Field::new("a", u8_id), Field::new("b", u16_id)],
    )));
    let mut cursor: usize = 0;
    let leaves = arena.base_fields(pair, &mut cursor);
    assert_eq!(leaves, vec![(0, Primitive::U8), (2, Primitive::U16)]);
    assert_eq!(cursor, 4);

    // An array interleaves its element's leaves at stride intervals.
    let arr = arena.push(Kind::array(Array { kind: u16_id, size: 3 }));
    let mut cursor: usize = 1;
    let leaves = arena.base_fields(arr, &mut cursor);
    assert_eq!(leaves, vec![(2, Primitive::U16), (4, Primitive::U16), (6, Primitive::U16)]);
    assert_eq!(cursor, 8);

    // A union exposes only its first field's leaves.
    let overlay = arena.push(Kind::comp(Composite::new(
        "either",
        Mode::Sum,
        vec![Field::new("lo", u8_id), Field::new("wide", u16_id)],
    )));
    let mut cursor: usize = 0;
    let leaves = arena.base_fields(overlay, &mut cursor);
    assert_eq!(leaves, vec![(0, Primitive::U8)]);

    // A reference flattens to its own pointer storage, never its target.
    let ptr = arena.push(Kind::refr(Reference::new(reference::Mode::Ptr, pair)));
    let mut cursor: usize = 0;
    let leaves = arena.base_fields(ptr, &mut cursor);
    assert_eq!(leaves, vec![(0, Primitive::Size)]);
    assert_eq!(cursor, 4);

    // The value-level entry points agree with the node-level expansion.
    let pair_value = Composite::product(
        "pair",
        vec![Field::new("a", u8_id), Field::new("b", u16_id)],
    );
    let mut cursor: usize = 0;
    let leaves = pair_value.base_fields(&arena, &mut cursor);
    assert_eq!(leaves, vec![(0, Primitive::U8), (2, Primitive::U16)]);
    let arr_value = Array { kind: u16_id, size: 2 };
    let mut cursor: usize = 1;
    let leaves = arr_value.base_fields(&arena, &mut cursor);
    assert_eq!(leaves, vec![(2, Primitive::U16), (4, Primitive::U16)]);
    let mut cursor: usize = 1;
    let leaves = Kind::prim(Primitive::U32).base_fields(&arena, &mut cursor);
    assert_eq!(leaves, vec![(4, Primitive::U32)]);
    assert_eq!(cursor, 8);
}
