//! Resolving access paths against a ribbon: places, pointer chasing, and
//! the error taxonomy.

use illustruct::access::{ErrorKind, Path, PlaceValue};
use illustruct::composite::{Composite, Field};
use illustruct::kind::{Alias, Kind, KindArena};
use illustruct::mem_ribbon::MemRibbon;
use illustruct::parse::access_expr;
use illustruct::primitive::{Primitive, PrimValue};
use illustruct::reference;
use illustruct::reference::Reference;
use illustruct::array::Array;

/// A ribbon of four chained `link { float data; link* next; }` nodes, with
/// node k holding float bits 1000 + k, and the arena indices of the alias
/// and pointer kinds.
fn chained_links() -> (KindArena, MemRibbon, usize, usize) {
    let mut arena = KindArena::new();
    let float_id = arena.push(Kind::prim(Primitive::F32));
    let data_id = arena.push(Kind::alias(Alias::new("data", float_id)));
    let link = arena.push(Kind::comp(Composite::product(
        "link",
        vec![Field::new("data", data_id)],
    )));
    let link_ptr = arena.push(Kind::refr(Reference::new(reference::Mode::Ptr, link)));
    arena.add_field(link, "next", link_ptr);
    let mut ribbon = MemRibbon::new(0).span(
        &mut arena,
        "nodes",
        vec![
            Field::new("n0", link),
            Field::new("n1", link),
            Field::new("n2", link),
            Field::new("n3", link),
        ],
    );
    for k in 0..4usize {
        ribbon.write_at(8 * k, PrimValue::F32(1000 + k as u32));
    }
    // n0 -> n2 -> n3 -> n1.
    ribbon.write_at(4, PrimValue::Size(16));
    ribbon.write_at(20, PrimValue::Size(24));
    ribbon.write_at(28, PrimValue::Size(8));
    ribbon.write_at(12, PrimValue::Size(0));
    (arena, ribbon, data_id, link_ptr)
}

#[test]
fn pointer_chase_through_chained_nodes() {
    let (arena, ribbon, data_id, _) = chained_links();
    // nodes.n0.next->data lands on the data float of the node n0 points to.
    let place = ribbon
        .get(&arena, Path::new("nodes").field("n0").field("next").arrow("data"))
        .unwrap();
    assert_eq!(place, PlaceValue { kind: data_id, address: 16 });
    assert_eq!(Primitive::F32.parse_at(&ribbon, place.address), Some(PrimValue::F32(1002)));

    // Two hops: nodes.n0.next->next->data.
    let p = access_expr("nodes.n0.next->next->data").unwrap();
    let place = ribbon.get(&arena, p).unwrap();
    assert_eq!(place, PlaceValue { kind: data_id, address: 24 });
    assert_eq!(Primitive::F32.parse_at(&ribbon, place.address), Some(PrimValue::F32(1003)));
}

#[test]
fn terminal_pointer_field_auto_dereferences() {
    // A path ending at a reference resolves to the referenced place.
    let (arena, ribbon, _, link_ptr) = chained_links();
    let place = ribbon
        .get(&arena, Path::new("nodes").field("n0").field("next"))
        .unwrap();
    // The link pointer at n0 stores 16; empty access follows it.
    assert_eq!(place.address, 16);
    let _ = link_ptr;
}

#[test]
fn explicit_deref_and_index_through_pointer() {
    let (arena, ribbon, data_id, _) = chained_links();
    // *nodes.n0.next dereferences to the pointed-to link itself.
    let p = access_expr("*nodes.n0.next").unwrap();
    let place = ribbon.get(&arena, p).unwrap();
    assert_eq!(place.address, 16);
    // Indexing a pointer steps by the target's size: nodes.n0.next[1].data
    // is the data field one whole link past the pointee.
    let p = access_expr("nodes.n0.next[1].data").unwrap();
    let place = ribbon.get(&arena, p).unwrap();
    assert_eq!(place, PlaceValue { kind: data_id, address: 24 });
}

#[test]
fn resolution_is_repeatable() {
    // The same path against an unmodified ribbon yields the identical place.
    let (arena, ribbon, _, _) = chained_links();
    let first = ribbon
        .get(&arena, Path::new("nodes").field("n2").field("next").arrow("data"))
        .unwrap();
    let second = ribbon
        .get(&arena, Path::new("nodes").field("n2").field("next").arrow("data"))
        .unwrap();
    assert_eq!(first, second);
    let third = ribbon.at(&arena, Path::new("nodes").field("n2").field("next").arrow("data"));
    assert_eq!(first, third);
}

#[test]
fn missing_span_and_missing_field_are_errors() {
    let (arena, ribbon, _, _) = chained_links();
    // No span of this name.
    let err = ribbon
        .get(&arena, Path::new("foo").field("nonexistent"))
        .unwrap_err();
    assert_eq!(err.field_name, "MemRibbon");
    assert!(matches!(err.kind, ErrorKind::SubField { ref name } if name == "foo"));
    // Span exists, field does not.
    let err = ribbon
        .get(&arena, Path::new("nodes").field("nonexistent"))
        .unwrap_err();
    assert!(matches!(err.kind, ErrorKind::SubField { ref name } if name == "nonexistent"));
    // A field of a link that does not exist, after one hop.
    let err = ribbon
        .get(&arena, Path::new("nodes").field("n0").field("wrong"))
        .unwrap_err();
    assert!(matches!(err.kind, ErrorKind::SubField { ref name } if name == "wrong"));
}

#[test]
fn ribbon_level_errors() {
    let (arena, ribbon, _, _) = chained_links();
    // An empty path cannot dispatch at all.
    let err = ribbon.get(&arena, Path(vec![])).unwrap_err();
    assert!(matches!(err.kind, ErrorKind::DirectAccess));
    // The ribbon itself cannot be dereferenced.
    let err = ribbon
        .get(&arena, Path(vec![illustruct::access::Indirection::Deref]))
        .unwrap_err();
    assert!(matches!(err.kind, ErrorKind::RibbonOp { op: "*" }));
    // A path that stops at the span cannot resolve the span itself.
    let err = ribbon.get(&arena, Path::new("nodes")).unwrap_err();
    assert_eq!(err.field_name, "MemRibbonSpan");
    assert!(matches!(err.kind, ErrorKind::DirectAccess));
}

#[test]
fn operation_errors_carry_context() {
    let (arena, ribbon, _, _) = chained_links();
    // Indexing a float: operation undefined for a primitive, decorated with
    // the enclosing kinds on the way out.
    let err = ribbon
        .get(&arena, Path::new("nodes").field("n0").field("data").index(0))
        .unwrap_err();
    assert!(matches!(err.kind, ErrorKind::Operation { op: "[]", .. }));
    assert!(err.context.len() > 0);
    // A bare field select on a pointer: must arrow or dereference first.
    let err = ribbon
        .get(&arena, Path::new("nodes").field("n0").field("next").field("data"))
        .unwrap_err();
    assert!(matches!(err.kind, ErrorKind::Operation { op: ".", .. }));
}

#[test]
fn bad_dereference_reports_the_address() {
    let mut arena = KindArena::new();
    let u8_id = arena.push(Kind::prim(Primitive::U8));
    let cell = arena.push(Kind::comp(Composite::product(
        "cell",
        vec![Field::new("v", u8_id)],
    )));
    let ptr = arena.push(Kind::refr(Reference::new(reference::Mode::Ptr, cell)));
    let holder = arena.push(Kind::comp(Composite::product(
        "holder",
        vec![Field::new("p", ptr)],
    )));
    let ribbon = MemRibbon::new(0).span(&mut arena, "h", vec![Field::new("x", holder)]);
    // The pointer bytes were never written: following them fails.
    let err = ribbon
        .get(&arena, Path::new("h").field("x").field("p").arrow("v"))
        .unwrap_err();
    assert!(matches!(err.kind, ErrorKind::Deref { old_addr: 0 }));
}

#[test]
fn arrow_through_pointer_to_non_composite() {
    let mut arena = KindArena::new();
    let u8_id = arena.push(Kind::prim(Primitive::U8));
    let ptr = arena.push(Kind::refr(Reference::new(reference::Mode::Ptr, u8_id)));
    let holder = arena.push(Kind::comp(Composite::product(
        "holder",
        vec![Field::new("p", ptr)],
    )));
    let mut ribbon = MemRibbon::new(0).span(&mut arena, "h", vec![Field::new("x", holder)]);
    ribbon.write_at(0, PrimValue::Size(0));
    let err = ribbon
        .get(&arena, Path::new("h").field("x").field("p").arrow("v"))
        .unwrap_err();
    assert!(matches!(err.kind, ErrorKind::Arrow { .. }));
}

#[test]
fn by_reference_fields_are_transparent() {
    // A Ref follows to its composite target on plain field access.
    let mut arena = KindArena::new();
    let u16_id = arena.push(Kind::prim(Primitive::U16));
    let point = arena.push(Kind::comp(Composite::product(
        "Point",
        vec![Field::new("x", u16_id), Field::new("y", u16_id)],
    )));
    let point_ref = arena.push(Kind::refr(Reference::new(reference::Mode::Ref, point)));
    let holder = arena.push(Kind::comp(Composite::product(
        "holder",
        vec![Field::new("r", point_ref)],
    )));
    let mut ribbon = MemRibbon::new(0).span(
        &mut arena,
        "main",
        vec![Field::new("h", holder), Field::new("pt", point)],
    );
    // The reference at address 0 points at the Point span region (address 4).
    ribbon.write_at(0, PrimValue::Size(4));
    ribbon.write_at(4, PrimValue::U16(21));
    ribbon.write_at(6, PrimValue::U16(43));
    let place = ribbon
        .get(&arena, Path::new("main").field("h").field("r").field("y"))
        .unwrap();
    assert_eq!(place, PlaceValue { kind: u16_id, address: 6 });
    assert_eq!(Primitive::U16.parse_at(&ribbon, place.address), Some(PrimValue::U16(43)));
}

#[test]
fn arrays_resolve_by_index_and_deref() {
    let mut arena = KindArena::new();
    let u16_id = arena.push(Kind::prim(Primitive::U16));
    let arr = arena.push(Kind::array(Array { kind: u16_id, size: 4 }));
    let table = arena.push(Kind::comp(Composite::product(
        "table",
        vec![Field::new("cells", arr)],
    )));
    let mut ribbon = MemRibbon::new(0).span(&mut arena, "t", vec![Field::new("row", table)]);
    for k in 0..4usize {
        ribbon.write_at(2 * k, PrimValue::U16(100 + k as u16));
    }
    let place = ribbon
        .get(&arena, Path::new("t").field("row").field("cells").index(2))
        .unwrap();
    assert_eq!(place, PlaceValue { kind: u16_id, address: 4 });
    assert_eq!(Primitive::U16.parse_at(&ribbon, place.address), Some(PrimValue::U16(102)));
    // Dereferencing an array resolves its first element.
    let place = ribbon
        .get(&arena, Path::new("t").field("row").field("cells").deref())
        .unwrap();
    assert_eq!(place, PlaceValue { kind: u16_id, address: 0 });
    // Field selection on an array is undefined.
    let err = ribbon
        .get(&arena, Path::new("t").field("row").field("cells").field("z"))
        .unwrap_err();
    assert!(matches!(err.kind, ErrorKind::Operation { op: ".", .. }));
}

#[test]
fn first_matching_span_wins() {
    let mut arena = KindArena::new();
    let u8_id = arena.push(Kind::prim(Primitive::U8));
    let u16_id = arena.push(Kind::prim(Primitive::U16));
    let mut ribbon = MemRibbon::new(0)
        .span(&mut arena, "twin", vec![Field::new("a", u8_id)])
        .span(&mut arena, "twin", vec![Field::new("a", u16_id)]);
    ribbon.write_at(0, PrimValue::U8(7));
    let place = ribbon.get(&arena, Path::new("twin").field("a")).unwrap();
    assert_eq!(place, PlaceValue { kind: u8_id, address: 0 });
}
