//! The kind graph: type descriptors held in an arena and referenced by index,
//! and the C layout rules (size, alignment, padding) over that graph.
//!
//! Layout recursion never follows a `Reference` target, so self-referential
//! types (a list node holding a pointer to itself) are expressed by adding a
//! reference-typed field after the target composite exists. The arena's
//! well-formedness says exactly that: every layout-relevant edge leads to an
//! earlier node, except that a composite field may name a later node when
//! that node is a layout leaf (a primitive or a reference).

use vstd::prelude::*;
use vstd::arithmetic::div_mod::{lemma_mod_self_0, lemma_small_mod};

use crate::access::{
    spec_access_at, spec_access_with_at, spec_get_place_value, spec_result_view, Error, ErrorKind,
    Indirection, PlaceValue, Trace,
};
use crate::array::Array;
use crate::composite::{Composite, CompositeView, Field, FieldView, Mode};
use crate::mem_ribbon::MemRibbon;
use crate::primitive::{Primitive, PrimValue};
use crate::reference::Reference;

verus! {

/// A named transparent wrapper around the kind at index `kind`; it has no
/// layout effect of its own.
#[derive(Debug, Clone)]
pub struct Alias {
    pub name: String,
    pub kind: usize,
}

/// The mathematical image of an `Alias`.
#[verifier::ext_equal]
pub struct AliasView {
    pub name: Seq<char>,
    pub kind: int,
}

impl View for Alias {
    type V = AliasView;

    open spec fn view(&self) -> AliasView {
        AliasView { name: self.name@, kind: self.kind as int }
    }
}

impl Alias {
    pub fn new(name: &str, kind: usize) -> (a: Alias)
        ensures
            a@.name == name@,
            a@.kind == kind as int,
    {
        Alias { name: name.to_owned(), kind }
    }
}

/// A type descriptor: one node of the kind graph.
#[derive(Debug, Clone)]
pub enum Kind {
    Primitive(Primitive),
    Reference(Reference),
    Composite(Composite),
    Array(Array),
    Alias(Alias),
}

/// The mathematical image of a `Kind`.
#[verifier::ext_equal]
pub enum KindView {
    Primitive(Primitive),
    Reference(Reference),
    Composite(CompositeView),
    Array(Array),
    Alias(AliasView),
}

impl View for Kind {
    type V = KindView;

    open spec fn view(&self) -> KindView {
        match self {
            Kind::Primitive(p) => KindView::Primitive(*p),
            Kind::Reference(r) => KindView::Reference(*r),
            Kind::Composite(c) => KindView::Composite(c@),
            Kind::Array(a) => KindView::Array(*a),
            Kind::Alias(a) => KindView::Alias(a@),
        }
    }
}

/// The arena that owns every node of a kind graph. Nodes are referenced by
/// their index; a node can only be appended, never removed, so indices stay
/// valid for the arena's lifetime.
#[derive(Debug)]
pub struct KindArena {
    pub nodes: Vec<Kind>,
}

impl View for KindArena {
    type V = Seq<KindView>;

    open spec fn view(&self) -> Seq<KindView> {
        self.nodes@.map_values(|k: Kind| k@)
    }
}

// ---------------------------------------------------------------------------
// Well-formedness of a kind graph.
// ---------------------------------------------------------------------------

/// A layout leaf contributes a fixed size and alignment without following
/// any edge: layout recursion stops at primitives and references.
pub open spec fn is_layout_leaf(k: KindView) -> bool {
    match k {
        KindView::Primitive(_) => true,
        KindView::Reference(_) => true,
        _ => false,
    }
}

/// Size of a layout leaf (meaningful only when `is_layout_leaf` holds).
pub open spec fn spec_leaf_size(k: KindView) -> nat {
    match k {
        KindView::Primitive(p) => p.spec_size_of(),
        KindView::Reference(_) => Primitive::Size.spec_size_of(),
        _ => 0,
    }
}

/// A composite field is well formed below guard `g` when its kind index is a
/// node of the graph that is either older than `g` or a layout leaf.
pub open spec fn spec_field_wf(nodes: Seq<KindView>, g: int, f: FieldView) -> bool {
    &&& 0 <= f.kind < nodes.len()
    &&& (f.kind < g || is_layout_leaf(nodes[f.kind]))
}

pub open spec fn spec_fields_wf(nodes: Seq<KindView>, g: int, fields: Seq<FieldView>) -> bool {
    forall|j: int| 0 <= j < fields.len() ==> spec_field_wf(nodes, g, #[trigger] fields[j])
}

/// The node at index `i` only references nodes the layout recursion may
/// descend into.
pub open spec fn spec_node_wf(nodes: Seq<KindView>, i: int) -> bool {
    match nodes[i] {
        KindView::Primitive(_) => true,
        KindView::Reference(r) => r.kind < i,
        KindView::Composite(c) => spec_fields_wf(nodes, i, c.fields),
        KindView::Array(a) => a.kind < i,
        KindView::Alias(a) => 0 <= a.kind < i,
    }
}

pub open spec fn graph_wf(nodes: Seq<KindView>) -> bool {
    forall|i: int| 0 <= i < nodes.len() ==> #[trigger] spec_node_wf(nodes, i)
}

/// Every node's mathematical size fits the `u16` the layout API returns.
/// Constructors keep the graph structurally well formed; this bound is the
/// finalization condition that layout queries assume (mutating a composite
/// that other nodes already embed can invalidate it until sizes are checked
/// again).
pub open spec fn spec_sizes_fit(nodes: Seq<KindView>) -> bool {
    forall|i: int| 0 <= i < nodes.len() ==> #[trigger] spec_size_at(nodes, i) <= u16::MAX
}

/// Validity of a single kind value about to be appended to a graph of
/// length `n`: every index it references exists.
pub open spec fn spec_kind_valid(k: KindView, n: int) -> bool {
    match k {
        KindView::Primitive(_) => true,
        KindView::Reference(r) => r.kind < n,
        KindView::Composite(c) => forall|j: int|
            0 <= j < c.fields.len() ==> 0 <= #[trigger] c.fields[j].kind < n,
        KindView::Array(a) => a.kind < n,
        KindView::Alias(a) => 0 <= a.kind < n,
    }
}

// ---------------------------------------------------------------------------
// Layout: mathematical definitions.
//
// The guard `g` bounds which indices the recursion may descend into; a node
// at index `i` uses `g == i`, a standalone composite value uses
// `g == nodes.len()`. Under well-formedness the guard does not matter
// (`lemma_product_end_guard_irrel` and friends).
// ---------------------------------------------------------------------------

/// Padding that takes `offset` up to a multiple of `align`; an alignment of
/// zero asks for no padding.
pub open spec fn spec_align_pad(offset: int, align: int) -> nat {
    if align <= 0 {
        0
    } else {
        ((align - (offset % align)) % align) as nat
    }
}

/// Size of the field's kind, stopping at layout leaves and otherwise
/// descending only below the guard.
pub open spec fn spec_field_size(nodes: Seq<KindView>, g: int, f: FieldView) -> nat
    decreases g, 0int, 0int,
{
    if 0 <= f.kind < nodes.len() {
        if is_layout_leaf(nodes[f.kind]) {
            spec_leaf_size(nodes[f.kind])
        } else if f.kind < g {
            spec_size_at(nodes, f.kind)
        } else {
            0
        }
    } else {
        0
    }
}

/// Alignment of the field's kind; leaves align to their own size.
pub open spec fn spec_field_align(nodes: Seq<KindView>, g: int, f: FieldView) -> nat
    decreases g, 0int, 0int,
{
    if 0 <= f.kind < nodes.len() {
        if is_layout_leaf(nodes[f.kind]) {
            spec_leaf_size(nodes[f.kind])
        } else if f.kind < g {
            spec_align_at(nodes, f.kind)
        } else {
            0
        }
    } else {
        0
    }
}

/// The running offset after laying out the first `n` fields of a Product
/// composite: each field is padded to its own alignment, then occupies its
/// size.
pub open spec fn spec_product_end(nodes: Seq<KindView>, g: int, fields: Seq<FieldView>, n: int) -> nat
    decreases g, 1int, n,
{
    if n <= 0 {
        0
    } else {
        let prev = spec_product_end(nodes, g, fields, n - 1);
        let f = fields[n - 1];
        (prev + spec_align_pad(prev as int, spec_field_align(nodes, g, f) as int)
            + spec_field_size(nodes, g, f)) as nat
    }
}

/// The largest size among the first `n` fields (a Sum composite's extent).
pub open spec fn spec_max_size(nodes: Seq<KindView>, g: int, fields: Seq<FieldView>, n: int) -> nat
    decreases g, 1int, n,
{
    if n <= 0 {
        0
    } else {
        let rest = spec_max_size(nodes, g, fields, n - 1);
        let here = spec_field_size(nodes, g, fields[n - 1]);
        if here > rest {
            here
        } else {
            rest
        }
    }
}

/// The largest alignment among the first `n` fields.
pub open spec fn spec_max_align(nodes: Seq<KindView>, g: int, fields: Seq<FieldView>, n: int) -> nat
    decreases g, 1int, n,
{
    if n <= 0 {
        0
    } else {
        let rest = spec_max_align(nodes, g, fields, n - 1);
        let here = spec_field_align(nodes, g, fields[n - 1]);
        if here > rest {
            here
        } else {
            rest
        }
    }
}

/// A composite's alignment: the maximum of its fields' alignments (zero when
/// it has no fields).
pub open spec fn spec_comp_align(nodes: Seq<KindView>, g: int, c: CompositeView) -> nat
    decreases g, 2int, 0int,
{
    spec_max_align(nodes, g, c.fields, c.fields.len() as int)
}

/// A composite's extent before trailing padding: the sequential fold in
/// Product mode, the maximal field size in Sum mode.
pub open spec fn spec_comp_base_size(nodes: Seq<KindView>, g: int, c: CompositeView) -> nat
    decreases g, 2int, 0int,
{
    match c.mode {
        Mode::Product => spec_product_end(nodes, g, c.fields, c.fields.len() as int),
        Mode::Sum => spec_max_size(nodes, g, c.fields, c.fields.len() as int),
    }
}

/// A composite's total size: its extent padded up to its own alignment.
pub open spec fn spec_comp_size(nodes: Seq<KindView>, g: int, c: CompositeView) -> nat
    decreases g, 2int, 0int,
{
    let base = match c.mode {
        Mode::Product => spec_product_end(nodes, g, c.fields, c.fields.len() as int),
        Mode::Sum => spec_max_size(nodes, g, c.fields, c.fields.len() as int),
    };
    let align = spec_max_align(nodes, g, c.fields, c.fields.len() as int);
    (base + spec_align_pad(base as int, align as int)) as nat
}

/// The size of the node at index `i`.
pub open spec fn spec_size_at(nodes: Seq<KindView>, i: int) -> nat
    decreases i, 4int, 0int,
{
    if 0 <= i < nodes.len() {
        match nodes[i] {
            KindView::Primitive(p) => p.spec_size_of(),
            KindView::Reference(_) => Primitive::Size.spec_size_of(),
            KindView::Composite(c) => spec_comp_size(nodes, i, c),
            KindView::Array(a) => if 0 <= a.kind < i {
                spec_size_at(nodes, a.kind as int) * (a.size as nat)
            } else {
                0
            },
            KindView::Alias(a) => if 0 <= a.kind < i {
                spec_size_at(nodes, a.kind as int)
            } else {
                0
            },
        }
    } else {
        0
    }
}

/// The alignment of the node at index `i`.
pub open spec fn spec_align_at(nodes: Seq<KindView>, i: int) -> nat
    decreases i, 3int, 0int,
{
    if 0 <= i < nodes.len() {
        match nodes[i] {
            KindView::Primitive(p) => p.spec_size_of(),
            KindView::Reference(_) => Primitive::Size.spec_size_of(),
            KindView::Composite(c) => spec_comp_align(nodes, i, c),
            KindView::Array(a) => if 0 <= a.kind < i {
                spec_align_at(nodes, a.kind as int)
            } else {
                0
            },
            KindView::Alias(a) => if 0 <= a.kind < i {
                spec_align_at(nodes, a.kind as int)
            } else {
                0
            },
        }
    } else {
        0
    }
}

/// The size of a kind value whose indices are valid anywhere in the graph.
pub open spec fn spec_kind_size(nodes: Seq<KindView>, k: KindView) -> nat {
    match k {
        KindView::Primitive(p) => p.spec_size_of(),
        KindView::Reference(_) => Primitive::Size.spec_size_of(),
        KindView::Composite(c) => spec_comp_size(nodes, nodes.len() as int, c),
        KindView::Array(a) => if 0 <= a.kind < nodes.len() {
            spec_size_at(nodes, a.kind as int) * (a.size as nat)
        } else {
            0
        },
        KindView::Alias(a) => if 0 <= a.kind < nodes.len() {
            spec_size_at(nodes, a.kind as int)
        } else {
            0
        },
    }
}

/// The alignment of a kind value whose indices are valid anywhere.
pub open spec fn spec_kind_align(nodes: Seq<KindView>, k: KindView) -> nat {
    match k {
        KindView::Primitive(p) => p.spec_size_of(),
        KindView::Reference(_) => Primitive::Size.spec_size_of(),
        KindView::Composite(c) => spec_comp_align(nodes, nodes.len() as int, c),
        KindView::Array(a) => if 0 <= a.kind < nodes.len() {
            spec_align_at(nodes, a.kind as int)
        } else {
            0
        },
        KindView::Alias(a) => if 0 <= a.kind < nodes.len() {
            spec_align_at(nodes, a.kind as int)
        } else {
            0
        },
    }
}

/// The index of the first field named `name` at or after position `n`.
/// Anonymous fields never match.
pub open spec fn spec_first_match(fields: Seq<FieldView>, name: Seq<char>, n: int) -> Option<int>
    decreases fields.len() - n,
{
    if n < 0 || n >= fields.len() {
        None
    } else if fields[n].name == Some(name) {
        Some(n)
    } else {
        spec_first_match(fields, name, n + 1)
    }
}

/// The kind of the first field matching `name`, front to back.
pub open spec fn spec_type_of(fields: Seq<FieldView>, name: Seq<char>) -> Option<int> {
    match spec_first_match(fields, name, 0) {
        Some(k) => Some(fields[k].kind),
        None => None,
    }
}

/// The aligned offset at which field `n` of a Product composite starts.
pub open spec fn spec_field_offset(nodes: Seq<KindView>, g: int, fields: Seq<FieldView>, n: int) -> nat {
    let prev = spec_product_end(nodes, g, fields, n);
    (prev + spec_align_pad(prev as int, spec_field_align(nodes, g, fields[n]) as int)) as nat
}

/// Scan fields from index `n` for the first named match, returning its
/// aligned offset.
pub open spec fn spec_offset_scan(
    nodes: Seq<KindView>,
    g: int,
    fields: Seq<FieldView>,
    name: Seq<char>,
    n: int,
) -> Option<nat> {
    match spec_first_match(fields, name, n) {
        Some(k) => Some(spec_field_offset(nodes, g, fields, k)),
        None => None,
    }
}

/// A composite's `offset_of`: zero for every name in Sum mode (all fields
/// overlap), the aligned running offset of the first matching named field in
/// Product mode.
pub open spec fn spec_comp_offset_of(
    nodes: Seq<KindView>,
    g: int,
    c: CompositeView,
    name: Seq<char>,
) -> Option<nat> {
    match c.mode {
        Mode::Sum => Some(0),
        Mode::Product => spec_offset_scan(nodes, g, c.fields, name, 0),
    }
}

/// The decimal digits of `d` (a single digit).
pub open spec fn spec_digit(d: int) -> Seq<char> {
    if d == 0 { "0"@ }
    else if d == 1 { "1"@ }
    else if d == 2 { "2"@ }
    else if d == 3 { "3"@ }
    else if d == 4 { "4"@ }
    else if d == 5 { "5"@ }
    else if d == 6 { "6"@ }
    else if d == 7 { "7"@ }
    else if d == 8 { "8"@ }
    else { "9"@ }
}

/// The decimal spelling of a nonnegative number.
pub open spec fn spec_dec_digits(n: int) -> Seq<char>
    decreases n,
{
    if n < 10 {
        spec_digit(n)
    } else {
        spec_dec_digits(n / 10) + spec_digit(n % 10)
    }
}

/// The single decimal digit `n`, as a string.
pub fn digit_str(n: usize) -> (r: &'static str)
    requires
        n < 10,
    ensures
        r@ == spec_digit(n as int),
{
    match n {
        0 => "0",
        1 => "1",
        2 => "2",
        3 => "3",
        4 => "4",
        5 => "5",
        6 => "6",
        7 => "7",
        8 => "8",
        _ => "9",
    }
}

/// The decimal spelling of `n`.
pub fn usize_to_string(n: usize) -> (r: String)
    ensures
        r@ == spec_dec_digits(n as int),
    decreases n,
{
    if n < 10 {
        digit_str(n).to_owned()
    } else {
        let mut s = usize_to_string(n / 10);
        s.append(digit_str(n % 10));
        s
    }
}

/// The C-style display name of the node at `i`: its own name for scalars,
/// composites and aliases; the target's name suffixed with `&` or `*` for a
/// reference; the element's name with a bracketed count for an array.
pub open spec fn spec_name_at(nodes: Seq<KindView>, i: int) -> Seq<char>
    decreases i,
{
    if 0 <= i < nodes.len() {
        match nodes[i] {
            KindView::Primitive(p) => p.spec_name(),
            KindView::Composite(c) => c.name,
            KindView::Alias(a) => a.name,
            KindView::Reference(r) => (if 0 <= r.kind < i {
                spec_name_at(nodes, r.kind as int)
            } else {
                Seq::empty()
            }) + (match r.mode {
                crate::reference::Mode::Ref => "&"@,
                crate::reference::Mode::Ptr => "*"@,
            }),
            KindView::Array(a) => (if 0 <= a.kind < i {
                spec_name_at(nodes, a.kind as int)
            } else {
                Seq::empty()
            }) + "["@ + spec_dec_digits(a.size as int) + "]"@,
        }
    } else {
        Seq::empty()
    }
}

/// The display name of a kind value whose indices are valid anywhere.
pub open spec fn spec_kind_name(nodes: Seq<KindView>, k: KindView) -> Seq<char> {
    match k {
        KindView::Primitive(p) => p.spec_name(),
        KindView::Composite(c) => c.name,
        KindView::Alias(a) => a.name,
        KindView::Reference(r) => (if 0 <= r.kind < nodes.len() {
            spec_name_at(nodes, r.kind as int)
        } else {
            Seq::empty()
        }) + (match r.mode {
            crate::reference::Mode::Ref => "&"@,
            crate::reference::Mode::Ptr => "*"@,
        }),
        KindView::Array(a) => (if 0 <= a.kind < nodes.len() {
            spec_name_at(nodes, a.kind as int)
        } else {
            Seq::empty()
        }) + "["@ + spec_dec_digits(a.size as int) + "]"@,
    }
}

/// The category word used in error context frames.
pub open spec fn spec_mode_str(m: Mode) -> Seq<char> {
    match m {
        Mode::Product => "struct"@,
        Mode::Sum => "union"@,
    }
}

pub open spec fn spec_variant_str(k: KindView) -> Seq<char> {
    match k {
        KindView::Primitive(p) => p.spec_name(),
        KindView::Reference(r) => crate::reference::spec_ref_mode_str(r.mode),
        KindView::Composite(c) => spec_mode_str(c.mode),
        KindView::Array(_) => "array"@,
        KindView::Alias(_) => "alias"@,
    }
}

// ---------------------------------------------------------------------------
// Lemmas about the layout definitions.
// ---------------------------------------------------------------------------

/// Padding is less than the alignment and lands on a multiple of it.
pub proof fn lemma_pad_aligns(offset: int, align: int)
    requires
        0 <= offset,
        0 < align,
    ensures
        spec_align_pad(offset, align) < align,
        (offset + spec_align_pad(offset, align)) % align == 0,
{
    let r = offset % align;
    if r == 0 {
        lemma_mod_self_0(align);
        assert(spec_align_pad(offset, align) == 0);
    } else {
        lemma_small_mod((align - r) as nat, align as nat);
        assert(spec_align_pad(offset, align) == align - r);
    }
    vstd::arithmetic::div_mod::lemma_add_mod_noop(offset, spec_align_pad(offset, align) as int, align);
    if r != 0 {
        lemma_mod_self_0(align);
        assert((r + (align - r)) % align == 0) by {
            assert(r + (align - r) == align);
        }
    }
}

/// A composite's extent never exceeds its padded total size.
pub proof fn lemma_base_le_size(nodes: Seq<KindView>, g: int, c: CompositeView)
    ensures
        spec_comp_base_size(nodes, g, c) <= spec_comp_size(nodes, g, c),
{
}

/// The guard does not matter for a well-formed field.
pub proof fn lemma_field_guard_irrel(nodes: Seq<KindView>, g1: int, g2: int, f: FieldView)
    requires
        g1 <= nodes.len(),
        g2 <= nodes.len(),
        spec_field_wf(nodes, g1, f),
        spec_field_wf(nodes, g2, f),
    ensures
        spec_field_size(nodes, g1, f) == spec_field_size(nodes, g2, f),
        spec_field_align(nodes, g1, f) == spec_field_align(nodes, g2, f),
{
}

/// The guard does not matter for the fold over well-formed fields.
pub proof fn lemma_folds_guard_irrel(
    nodes: Seq<KindView>,
    g1: int,
    g2: int,
    fields: Seq<FieldView>,
    n: int,
)
    requires
        g1 <= nodes.len(),
        g2 <= nodes.len(),
        spec_fields_wf(nodes, g1, fields),
        spec_fields_wf(nodes, g2, fields),
        n <= fields.len(),
    ensures
        spec_product_end(nodes, g1, fields, n) == spec_product_end(nodes, g2, fields, n),
        spec_max_size(nodes, g1, fields, n) == spec_max_size(nodes, g2, fields, n),
        spec_max_align(nodes, g1, fields, n) == spec_max_align(nodes, g2, fields, n),
    decreases n,
{
    if n > 0 {
        lemma_folds_guard_irrel(nodes, g1, g2, fields, n - 1);
        lemma_field_guard_irrel(nodes, g1, g2, fields[n - 1]);
    }
}

/// At a composite node, the node-level size and alignment agree with the
/// standalone (guard-free) composite layout.
pub proof fn lemma_node_comp_layout(nodes: Seq<KindView>, i: int)
    requires
        graph_wf(nodes),
        0 <= i < nodes.len(),
        nodes[i] is Composite,
    ensures
        spec_size_at(nodes, i) == spec_comp_size(nodes, nodes.len() as int, nodes[i]->Composite_0),
        spec_align_at(nodes, i) == spec_comp_align(nodes, nodes.len() as int, nodes[i]->Composite_0),
        spec_comp_base_size(nodes, i, nodes[i]->Composite_0) == spec_comp_base_size(
            nodes,
            nodes.len() as int,
            nodes[i]->Composite_0,
        ),
{
    let c = nodes[i]->Composite_0;
    assert(spec_node_wf(nodes, i));
    assert forall|j: int| 0 <= j < c.fields.len() implies spec_field_wf(
        nodes,
        nodes.len() as int,
        #[trigger] c.fields[j],
    ) by {
        assert(spec_field_wf(nodes, i, c.fields[j]));
    }
    lemma_folds_guard_irrel(nodes, i, nodes.len() as int, c.fields, c.fields.len() as int);
    let n = c.fields.len() as int;
    let g2 = nodes.len() as int;
    assert(spec_size_at(nodes, i) == spec_comp_size(nodes, i, c));
    assert(spec_align_at(nodes, i) == spec_comp_align(nodes, i, c));
    assert(spec_comp_align(nodes, i, c) == spec_max_align(nodes, i, c.fields, n));
    assert(spec_comp_align(nodes, g2, c) == spec_max_align(nodes, g2, c.fields, n));
    match c.mode {
        Mode::Product => {
            assert(spec_comp_size(nodes, i, c) == spec_product_end(nodes, i, c.fields, n)
                + spec_align_pad(
                spec_product_end(nodes, i, c.fields, n) as int,
                spec_max_align(nodes, i, c.fields, n) as int,
            ));
            assert(spec_comp_size(nodes, g2, c) == spec_product_end(nodes, g2, c.fields, n)
                + spec_align_pad(
                spec_product_end(nodes, g2, c.fields, n) as int,
                spec_max_align(nodes, g2, c.fields, n) as int,
            ));
        },
        Mode::Sum => {
            assert(spec_comp_size(nodes, i, c) == spec_max_size(nodes, i, c.fields, n)
                + spec_align_pad(
                spec_max_size(nodes, i, c.fields, n) as int,
                spec_max_align(nodes, i, c.fields, n) as int,
            ));
            assert(spec_comp_size(nodes, g2, c) == spec_max_size(nodes, g2, c.fields, n)
                + spec_align_pad(
                spec_max_size(nodes, g2, c.fields, n) as int,
                spec_max_align(nodes, g2, c.fields, n) as int,
            ));
        },
    }
}

/// The running Product offset never shrinks as more fields are laid out.
pub proof fn lemma_product_end_monotone(
    nodes: Seq<KindView>,
    g: int,
    fields: Seq<FieldView>,
    n1: int,
    n2: int,
)
    requires
        g <= nodes.len(),
        n1 <= n2,
    ensures
        spec_product_end(nodes, g, fields, n1) <= spec_product_end(nodes, g, fields, n2),
    decreases n2,
{
    if n2 > 0 && n1 < n2 {
        lemma_product_end_monotone(nodes, g, fields, n1, n2 - 1);
    }
}

/// The running Sum maximum never shrinks.
pub proof fn lemma_max_size_monotone(
    nodes: Seq<KindView>,
    g: int,
    fields: Seq<FieldView>,
    n1: int,
    n2: int,
)
    requires
        g <= nodes.len(),
        n1 <= n2,
    ensures
        spec_max_size(nodes, g, fields, n1) <= spec_max_size(nodes, g, fields, n2),
    decreases n2,
{
    if n2 > 0 && n1 < n2 {
        lemma_max_size_monotone(nodes, g, fields, n1, n2 - 1);
    }
}

/// A first match lies in range, is named `name`, and nothing before it
/// (from the scan start) matches.
pub proof fn lemma_first_match_props(fields: Seq<FieldView>, name: Seq<char>, n: int)
    ensures
        match spec_first_match(fields, name, n) {
            Some(k) => n <= k < fields.len() && fields[k].name == Some(name),
            None => true,
        },
    decreases fields.len() - n,
{
    if 0 <= n < fields.len() && !(fields[n].name == Some(name)) {
        lemma_first_match_props(fields, name, n + 1);
    }
}

/// Every field laid out so far fits below the running Sum maximum.
pub proof fn lemma_max_size_dominates(
    nodes: Seq<KindView>,
    g: int,
    fields: Seq<FieldView>,
    n: int,
    j: int,
)
    requires
        0 <= j < n <= fields.len(),
    ensures
        spec_field_size(nodes, g, fields[j]) <= spec_max_size(nodes, g, fields, n),
    decreases n,
{
    if j < n - 1 {
        lemma_max_size_dominates(nodes, g, fields, n - 1, j);
    }
}

/// Every field's alignment fits below the running maximum alignment.
pub proof fn lemma_max_align_dominates(
    nodes: Seq<KindView>,
    g: int,
    fields: Seq<FieldView>,
    n: int,
    j: int,
)
    requires
        0 <= j < n <= fields.len(),
    ensures
        spec_field_align(nodes, g, fields[j]) <= spec_max_align(nodes, g, fields, n),
    decreases n,
{
    if j < n - 1 {
        lemma_max_align_dominates(nodes, g, fields, n - 1, j);
    }
}

/// Unfolding helper: a composite's size, base size and alignment in terms of
/// the field folds.
pub proof fn lemma_comp_size_parts(nodes: Seq<KindView>, g: int, c: CompositeView)
    ensures
        spec_comp_align(nodes, g, c) == spec_max_align(nodes, g, c.fields, c.fields.len() as int),
        c.mode == Mode::Product ==> spec_comp_base_size(nodes, g, c) == spec_product_end(
            nodes,
            g,
            c.fields,
            c.fields.len() as int,
        ),
        c.mode == Mode::Sum ==> spec_comp_base_size(nodes, g, c) == spec_max_size(
            nodes,
            g,
            c.fields,
            c.fields.len() as int,
        ),
        spec_comp_size(nodes, g, c) == spec_comp_base_size(nodes, g, c) + spec_align_pad(
            spec_comp_base_size(nodes, g, c) as int,
            spec_comp_align(nodes, g, c) as int,
        ),
{
}

/// Unfolding helper: at a composite node, node-level layout is the
/// composite-level layout guarded at the node's own index.
pub proof fn lemma_size_at_composite(nodes: Seq<KindView>, i: int)
    requires
        0 <= i < nodes.len(),
        nodes[i] is Composite,
    ensures
        spec_size_at(nodes, i) == spec_comp_size(nodes, i, nodes[i]->Composite_0),
        spec_align_at(nodes, i) == spec_comp_align(nodes, i, nodes[i]->Composite_0),
{
}

/// Appending a node leaves the layout of a well-formed field untouched.
pub proof fn lemma_frame_field(nodes: Seq<KindView>, k: KindView, g: int, f: FieldView)
    requires
        g <= nodes.len(),
        graph_wf(nodes),
        spec_field_wf(nodes, g, f),
    ensures
        spec_field_size(nodes.push(k), g, f) == spec_field_size(nodes, g, f),
        spec_field_align(nodes.push(k), g, f) == spec_field_align(nodes, g, f),
    decreases g, 2int, 0int,
{
    assert(nodes.push(k)[f.kind] == nodes[f.kind]);
    if !is_layout_leaf(nodes[f.kind]) && 0 <= f.kind < g {
        assert(spec_node_wf(nodes, f.kind));
        lemma_frame_size(nodes, k, f.kind);
    }
}

/// Appending a node leaves the field folds untouched.
pub proof fn lemma_frame_folds(
    nodes: Seq<KindView>,
    k: KindView,
    g: int,
    fields: Seq<FieldView>,
    n: int,
)
    requires
        g <= nodes.len(),
        graph_wf(nodes),
        spec_fields_wf(nodes, g, fields),
        n <= fields.len(),
    ensures
        spec_product_end(nodes.push(k), g, fields, n) == spec_product_end(nodes, g, fields, n),
        spec_max_size(nodes.push(k), g, fields, n) == spec_max_size(nodes, g, fields, n),
        spec_max_align(nodes.push(k), g, fields, n) == spec_max_align(nodes, g, fields, n),
    decreases g, 3int, n,
{
    if n > 0 {
        lemma_frame_folds(nodes, k, g, fields, n - 1);
        lemma_frame_field(nodes, k, g, fields[n - 1]);
    }
}

/// Appending a node leaves every existing node's size and alignment
/// untouched.
pub proof fn lemma_frame_size(nodes: Seq<KindView>, k: KindView, i: int)
    requires
        0 <= i < nodes.len(),
        graph_wf(nodes),
    ensures
        spec_size_at(nodes.push(k), i) == spec_size_at(nodes, i),
        spec_align_at(nodes.push(k), i) == spec_align_at(nodes, i),
    decreases i, 4int, 0int,
{
    let bigger = nodes.push(k);
    assert(bigger[i] == nodes[i]);
    assert(spec_node_wf(nodes, i));
    match nodes[i] {
        KindView::Primitive(_) => {},
        KindView::Reference(_) => {},
        KindView::Composite(c) => {
            lemma_frame_folds(nodes, k, i, c.fields, c.fields.len() as int);
            lemma_size_at_composite(nodes, i);
            lemma_size_at_composite(bigger, i);
            lemma_comp_size_parts(nodes, i, c);
            lemma_comp_size_parts(bigger, i, c);
        },
        KindView::Array(a) => {
            if 0 <= a.kind < i {
                lemma_frame_size(nodes, k, a.kind as int);
            }
        },
        KindView::Alias(a) => {
            if 0 <= a.kind < i {
                lemma_frame_size(nodes, k, a.kind as int);
            }
        },
    }
}

/// Appending a node whose own size fits keeps every size in bounds, and the
/// new node's layout equals the value-level layout computed beforehand.
pub proof fn lemma_push_sizes_fit(nodes: Seq<KindView>, k: KindView)
    requires
        graph_wf(nodes),
        spec_sizes_fit(nodes),
        spec_kind_valid(k, nodes.len() as int),
        spec_kind_size(nodes, k) <= u16::MAX,
    ensures
        spec_sizes_fit(nodes.push(k)),
        spec_size_at(nodes.push(k), nodes.len() as int) == spec_kind_size(nodes, k),
        spec_align_at(nodes.push(k), nodes.len() as int) == spec_kind_align(nodes, k),
        forall|j: int| 0 <= j < nodes.len() ==> #[trigger] spec_size_at(nodes.push(k), j)
            == spec_size_at(nodes, j),
        forall|j: int| 0 <= j < nodes.len() ==> #[trigger] spec_align_at(nodes.push(k), j)
            == spec_align_at(nodes, j),
{
    let bigger = nodes.push(k);
    let m = nodes.len() as int;
    assert forall|j: int| 0 <= j < m implies #[trigger] spec_size_at(bigger, j) == spec_size_at(
        nodes,
        j,
    ) by {
        lemma_frame_size(nodes, k, j);
    }
    assert forall|j: int| 0 <= j < m implies #[trigger] spec_align_at(bigger, j) == spec_align_at(
        nodes,
        j,
    ) by {
        lemma_frame_size(nodes, k, j);
    }
    assert(bigger[m] == k);
    match k {
        KindView::Primitive(_) => {},
        KindView::Reference(_) => {},
        KindView::Composite(c) => {
            assert forall|j: int| 0 <= j < c.fields.len() implies spec_field_wf(
                nodes,
                m,
                #[trigger] c.fields[j],
            ) by {}
            lemma_frame_folds(nodes, k, m, c.fields, c.fields.len() as int);
            lemma_size_at_composite(bigger, m);
            lemma_comp_size_parts(nodes, m, c);
            lemma_comp_size_parts(bigger, m, c);
        },
        KindView::Array(a) => {
            if 0 <= a.kind < m {
                lemma_frame_size(nodes, k, a.kind as int);
            }
        },
        KindView::Alias(a) => {
            if 0 <= a.kind < m {
                lemma_frame_size(nodes, k, a.kind as int);
            }
        },
    }
    assert forall|i: int| 0 <= i < bigger.len() implies #[trigger] spec_size_at(bigger, i)
        <= u16::MAX by {
        if i < m {
            assert(spec_size_at(nodes, i) <= u16::MAX);
        }
    }
}

// ---------------------------------------------------------------------------
// Flattening a kind to its primitive leaves.
//
// `base_fields` expands a kind into the ordered (address, scalar) pairs a
// renderer reads raw bytes through: every kind first pads the cursor to its
// own alignment; a reference contributes its own pointer storage, never its
// target; composites expand every field in Product mode and only the first
// in Sum mode; arrays repeat their element. The fold returns the pairs and
// the advanced cursor.
// ---------------------------------------------------------------------------

/// Leaf expansion at `addr` of the node `i` (kind level: pad, then emit).
pub open spec fn spec_base_fields_at(nodes: Seq<KindView>, i: int, addr: int) -> (Seq<(int, Primitive)>, int)
    decreases i, 2int, 0int,
{
    if 0 <= i < nodes.len() {
        let padded = addr + spec_align_pad(addr, spec_align_at(nodes, i) as int);
        match nodes[i] {
            KindView::Primitive(p) => (seq![(padded, p)], padded + p.spec_size_of()),
            KindView::Reference(_) => (
                seq![(padded, Primitive::Size)],
                padded + Primitive::Size.spec_size_of(),
            ),
            KindView::Composite(c) => match c.mode {
                Mode::Product => spec_fields_bf(nodes, i, c.fields, c.fields.len() as int, padded),
                Mode::Sum => if c.fields.len() > 0 {
                    spec_field_bf(nodes, i, c.fields[0], padded)
                } else {
                    (Seq::empty(), padded)
                },
            },
            KindView::Array(a) => if 0 <= a.kind < i {
                spec_array_bf(nodes, i, a.kind as int, a.size as int, padded)
            } else {
                (Seq::empty(), padded)
            },
            KindView::Alias(al) => if 0 <= al.kind < i {
                spec_base_fields_at(nodes, al.kind, addr)
            } else {
                (Seq::empty(), addr)
            },
        }
    } else {
        (Seq::empty(), addr)
    }
}

/// Leaf expansion of one field's kind, descending only below the guard.
pub open spec fn spec_field_bf(nodes: Seq<KindView>, g: int, f: FieldView, addr: int) -> (Seq<(int, Primitive)>, int)
    decreases g, 0int, 0int,
{
    if 0 <= f.kind < nodes.len() {
        if is_layout_leaf(nodes[f.kind]) {
            let padded = addr + spec_align_pad(addr, spec_leaf_size(nodes[f.kind]) as int);
            match nodes[f.kind] {
                KindView::Primitive(p) => (seq![(padded, p)], padded + p.spec_size_of()),
                _ => (seq![(padded, Primitive::Size)], padded + Primitive::Size.spec_size_of()),
            }
        } else if f.kind < g {
            spec_base_fields_at(nodes, f.kind, addr)
        } else {
            (Seq::empty(), addr)
        }
    } else {
        (Seq::empty(), addr)
    }
}

/// Leaf expansion of the first `n` fields in sequence.
pub open spec fn spec_fields_bf(
    nodes: Seq<KindView>,
    g: int,
    fields: Seq<FieldView>,
    n: int,
    addr: int,
) -> (Seq<(int, Primitive)>, int)
    decreases g, 1int, n,
{
    if n <= 0 {
        (Seq::empty(), addr)
    } else {
        let prev = spec_fields_bf(nodes, g, fields, n - 1, addr);
        let here = spec_field_bf(nodes, g, fields[n - 1], prev.1);
        (prev.0 + here.0, here.1)
    }
}

/// Leaf expansion of `n` consecutive array elements.
pub open spec fn spec_array_bf(nodes: Seq<KindView>, g: int, elem: int, n: int, addr: int) -> (Seq<(int, Primitive)>, int)
    decreases g, 1int, n,
{
    if n <= 0 || !(0 <= elem < g) {
        (Seq::empty(), addr)
    } else {
        let prev = spec_array_bf(nodes, g, elem, n - 1, addr);
        let here = spec_base_fields_at(nodes, elem, prev.1);
        (prev.0 + here.0, here.1)
    }
}

/// Leaf expansion of a standalone composite value: its fields in sequence
/// for a Product, only the first for a Sum. The composite itself adds no
/// padding here; each field pads to its own alignment.
pub open spec fn spec_comp_bf(nodes: Seq<KindView>, c: CompositeView, addr: int) -> (Seq<(int, Primitive)>, int) {
    match c.mode {
        Mode::Product => spec_fields_bf(
            nodes,
            nodes.len() as int,
            c.fields,
            c.fields.len() as int,
            addr,
        ),
        Mode::Sum => if c.fields.len() > 0 {
            spec_field_bf(nodes, nodes.len() as int, c.fields[0], addr)
        } else {
            (Seq::empty(), addr)
        },
    }
}

/// Leaf expansion of a standalone kind value: pad the cursor to the kind's
/// alignment, then expand as the node-level flattening does.
pub open spec fn spec_kind_bf(nodes: Seq<KindView>, k: KindView, addr: int) -> (Seq<(int, Primitive)>, int) {
    let padded = addr + spec_align_pad(addr, spec_kind_align(nodes, k) as int);
    match k {
        KindView::Primitive(p) => (seq![(padded, p)], padded + p.spec_size_of()),
        KindView::Reference(_) => (
            seq![(padded, Primitive::Size)],
            padded + Primitive::Size.spec_size_of(),
        ),
        KindView::Composite(c) => spec_comp_bf(nodes, c, padded),
        KindView::Array(a) => if 0 <= a.kind < nodes.len() {
            spec_array_bf(nodes, nodes.len() as int, a.kind as int, a.size as int, padded)
        } else {
            (Seq::empty(), padded)
        },
        KindView::Alias(al) => if 0 <= al.kind < nodes.len() {
            spec_base_fields_at(nodes, al.kind, addr)
        } else {
            (Seq::empty(), addr)
        },
    }
}

/// The cursor never moves backwards while flattening.
pub proof fn lemma_bf_end_ge(nodes: Seq<KindView>, i: int, addr: int)
    ensures
        spec_base_fields_at(nodes, i, addr).1 >= addr,
    decreases i, 2int, 0int,
{
    if 0 <= i < nodes.len() {
        let padded = addr + spec_align_pad(addr, spec_align_at(nodes, i) as int);
        match nodes[i] {
            KindView::Primitive(_) => {},
            KindView::Reference(_) => {},
            KindView::Composite(c) => match c.mode {
                Mode::Product => {
                    lemma_fields_bf_end_ge(nodes, i, c.fields, c.fields.len() as int, padded);
                },
                Mode::Sum => if c.fields.len() > 0 {
                    lemma_field_bf_end_ge(nodes, i, c.fields[0], padded);
                },
            },
            KindView::Array(a) => if 0 <= a.kind < i {
                lemma_array_bf_end_ge(nodes, i, a.kind as int, a.size as int, padded);
            },
            KindView::Alias(al) => if 0 <= al.kind < i {
                lemma_bf_end_ge(nodes, al.kind, addr);
            },
        }
    }
}

pub proof fn lemma_field_bf_end_ge(nodes: Seq<KindView>, g: int, f: FieldView, addr: int)
    ensures
        spec_field_bf(nodes, g, f, addr).1 >= addr,
    decreases g, 0int, 0int,
{
    if 0 <= f.kind < nodes.len() && !is_layout_leaf(nodes[f.kind]) && f.kind < g {
        lemma_bf_end_ge(nodes, f.kind, addr);
    }
}

pub proof fn lemma_fields_bf_end_ge(
    nodes: Seq<KindView>,
    g: int,
    fields: Seq<FieldView>,
    n: int,
    addr: int,
)
    ensures
        spec_fields_bf(nodes, g, fields, n, addr).1 >= addr,
    decreases g, 1int, n,
{
    if n > 0 {
        lemma_fields_bf_end_ge(nodes, g, fields, n - 1, addr);
        lemma_field_bf_end_ge(nodes, g, fields[n - 1], spec_fields_bf(nodes, g, fields, n - 1, addr).1);
    }
}

pub proof fn lemma_array_bf_end_ge(nodes: Seq<KindView>, g: int, elem: int, n: int, addr: int)
    ensures
        spec_array_bf(nodes, g, elem, n, addr).1 >= addr,
    decreases g, 1int, n,
{
    if n > 0 && 0 <= elem < g {
        lemma_array_bf_end_ge(nodes, g, elem, n - 1, addr);
        lemma_bf_end_ge(nodes, elem, spec_array_bf(nodes, g, elem, n - 1, addr).1);
    }
}

/// Flattening more fields moves the cursor at least as far.
pub proof fn lemma_fields_bf_mono(
    nodes: Seq<KindView>,
    g: int,
    fields: Seq<FieldView>,
    n1: int,
    n2: int,
    addr: int,
)
    requires
        n1 <= n2,
    ensures
        spec_fields_bf(nodes, g, fields, n1, addr).1 <= spec_fields_bf(nodes, g, fields, n2, addr).1,
    decreases n2,
{
    if n2 > 0 && n1 < n2 {
        lemma_fields_bf_mono(nodes, g, fields, n1, n2 - 1, addr);
        lemma_field_bf_end_ge(nodes, g, fields[n2 - 1], spec_fields_bf(nodes, g, fields, n2 - 1, addr).1);
    }
}

/// Flattening more array elements moves the cursor at least as far.
pub proof fn lemma_array_bf_mono(
    nodes: Seq<KindView>,
    g: int,
    elem: int,
    n1: int,
    n2: int,
    addr: int,
)
    requires
        n1 <= n2,
    ensures
        spec_array_bf(nodes, g, elem, n1, addr).1 <= spec_array_bf(nodes, g, elem, n2, addr).1,
    decreases n2,
{
    if n2 > 0 && n1 < n2 {
        lemma_array_bf_mono(nodes, g, elem, n1, n2 - 1, addr);
        if 0 <= elem < g {
            lemma_bf_end_ge(nodes, elem, spec_array_bf(nodes, g, elem, n2 - 1, addr).1);
        }
    }
}

/// The view of the (address, scalar) pairs an executable flattening built.
pub open spec fn spec_pairs_view(v: Seq<(usize, Primitive)>) -> Seq<(int, Primitive)> {
    v.map_values(|t: (usize, Primitive)| (t.0 as int, t.1))
}

// ---------------------------------------------------------------------------
// Laws of the layout.
// ---------------------------------------------------------------------------

/// Law: a composite's alignment is the maximum of its fields' alignments,
/// and zero when it has no fields.
pub proof fn lemma_comp_align_is_max_field_align(nodes: Seq<KindView>, c: CompositeView)
    ensures
        spec_comp_align(nodes, nodes.len() as int, c) == spec_max_align(
            nodes,
            nodes.len() as int,
            c.fields,
            c.fields.len() as int,
        ),
        c.fields.len() == 0 ==> spec_comp_align(nodes, nodes.len() as int, c) == 0,
        forall|j: int| 0 <= j < c.fields.len() ==> spec_field_align(
            nodes,
            nodes.len() as int,
            #[trigger] c.fields[j],
        ) <= spec_comp_align(nodes, nodes.len() as int, c),
{
    let g = nodes.len() as int;
    assert forall|j: int| 0 <= j < c.fields.len() implies spec_field_align(
        nodes,
        g,
        #[trigger] c.fields[j],
    ) <= spec_comp_align(nodes, g, c) by {
        lemma_max_align_dominates(nodes, g, c.fields, c.fields.len() as int, j);
    }
}

/// Law: a composite's size is a multiple of its alignment; with alignment
/// zero there is no trailing padding at all.
pub proof fn lemma_comp_size_multiple_of_align(nodes: Seq<KindView>, c: CompositeView)
    ensures
        spec_comp_align(nodes, nodes.len() as int, c) == 0 ==> spec_comp_size(
            nodes,
            nodes.len() as int,
            c,
        ) == spec_comp_base_size(nodes, nodes.len() as int, c),
        spec_comp_align(nodes, nodes.len() as int, c) != 0 ==> spec_comp_size(
            nodes,
            nodes.len() as int,
            c,
        ) % spec_comp_align(nodes, nodes.len() as int, c) == 0,
{
    let g = nodes.len() as int;
    let base = spec_comp_base_size(nodes, g, c);
    let align = spec_comp_align(nodes, g, c);
    assert(spec_comp_size(nodes, g, c) == base + spec_align_pad(base as int, align as int));
    if align != 0 {
        lemma_pad_aligns(base as int, align as int);
    }
}

/// Law: a Sum composite is at least as large as each of its fields.
pub proof fn lemma_sum_size_covers_fields(nodes: Seq<KindView>, c: CompositeView, j: int)
    requires
        c.mode == Mode::Sum,
        0 <= j < c.fields.len(),
    ensures
        spec_field_size(nodes, nodes.len() as int, c.fields[j]) <= spec_comp_size(
            nodes,
            nodes.len() as int,
            c,
        ),
{
    let g = nodes.len() as int;
    lemma_max_size_dominates(nodes, g, c.fields, c.fields.len() as int, j);
    lemma_base_le_size(nodes, g, c);
}

/// Law: in a Product composite, a named field's offset plus its size stays
/// within the composite's total size.
pub proof fn lemma_product_offset_within_size(nodes: Seq<KindView>, c: CompositeView, name: Seq<char>)
    requires
        c.mode == Mode::Product,
    ensures
        match spec_comp_offset_of(nodes, nodes.len() as int, c, name) {
            Some(off) => match spec_first_match(c.fields, name, 0) {
                Some(k) => off + spec_field_size(nodes, nodes.len() as int, c.fields[k])
                    <= spec_comp_size(nodes, nodes.len() as int, c),
                None => false,
            },
            None => true,
        },
{
    let g = nodes.len() as int;
    lemma_first_match_props(c.fields, name, 0);
    match spec_first_match(c.fields, name, 0) {
        Some(k) => {
            let off = spec_field_offset(nodes, g, c.fields, k);
            assert(spec_product_end(nodes, g, c.fields, k + 1) == off + spec_field_size(
                nodes,
                g,
                c.fields[k],
            ));
            lemma_product_end_monotone(nodes, g, c.fields, k + 1, c.fields.len() as int);
            lemma_base_le_size(nodes, g, c);
        },
        None => {},
    }
}

// ---------------------------------------------------------------------------
// Executable padding arithmetic.
// ---------------------------------------------------------------------------

/// Bytes of padding so that `offset + pad` is a multiple of `align`; zero
/// when already aligned or when the alignment is zero.
pub fn align_pad_val(offset: u16, align: u16) -> (p: u16)
    ensures
        p as nat == spec_align_pad(offset as int, align as int),
{
    if align == 0 {
        0
    } else {
        let r = offset % align;
        proof {
            if r == 0 {
                lemma_mod_self_0(align as int);
            } else {
                lemma_small_mod((align - r) as nat, align as nat);
            }
        }
        if r == 0 {
            0
        } else {
            align - r
        }
    }
}

/// The same padding computed against a full-width address.
pub fn align_pad_addr(offset: usize, align: u16) -> (p: u16)
    ensures
        p as nat == spec_align_pad(offset as int, align as int),
{
    if align == 0 {
        0
    } else {
        let r = offset % (align as usize);
        proof {
            if r == 0 {
                lemma_mod_self_0(align as int);
            } else {
                lemma_small_mod((align as usize - r) as nat, align as nat);
            }
        }
        if r == 0 {
            0
        } else {
            (align as usize - r) as u16
        }
    }
}

// ---------------------------------------------------------------------------
// Executable layout over the arena.
// ---------------------------------------------------------------------------

/// Size of a field's kind, descending only below the guard.
pub fn exec_field_size(arena: &KindArena, guard: usize, f: &Field) -> (n: u16)
    requires
        arena.wf(),
        arena.sizes_fit(),
        guard <= arena@.len(),
        spec_field_wf(arena@, guard as int, f@),
    ensures
        n as nat == spec_field_size(arena@, guard as int, f@),
    decreases guard, 0int,
{
    let k = arena.get(f.kind);
    match k {
        Kind::Primitive(p) => p.size_of(),
        Kind::Reference(_) => Primitive::Size.size_of(),
        _ => arena.size_of(f.kind),
    }
}

/// Alignment of a field's kind, descending only below the guard.
pub fn exec_field_align(arena: &KindArena, guard: usize, f: &Field) -> (n: u16)
    requires
        arena.wf(),
        guard <= arena@.len(),
        spec_field_wf(arena@, guard as int, f@),
    ensures
        n as nat == spec_field_align(arena@, guard as int, f@),
    decreases guard, 0int,
{
    let k = arena.get(f.kind);
    match k {
        Kind::Primitive(p) => p.align_of(),
        Kind::Reference(_) => Primitive::Size.size_of(),
        _ => arena.align_of(f.kind),
    }
}

/// The guarded composite alignment loop shared by the node-level and
/// standalone entry points.
pub fn comp_align_guarded(arena: &KindArena, guard: usize, c: &Composite) -> (n: u16)
    requires
        arena.wf(),
        guard <= arena@.len(),
        spec_fields_wf(arena@, guard as int, c@.fields),
    ensures
        n as nat == spec_comp_align(arena@, guard as int, c@),
    decreases guard, 1int,
{
    let mut best: u16 = 0;
    let mut idx: usize = 0;
    while idx < c.fields.len()
        invariant
            arena.wf(),
            guard <= arena@.len(),
            spec_fields_wf(arena@, guard as int, c@.fields),
            idx <= c.fields@.len(),
            c@.fields.len() == c.fields@.len(),
            best as nat == spec_max_align(arena@, guard as int, c@.fields, idx as int),
        decreases c.fields@.len() - idx, 0int,
    {
        assert(c@.fields[idx as int] == c.fields@[idx as int]@);
        let fa = exec_field_align(arena, guard, &c.fields[idx]);
        if fa > best {
            best = fa;
        }
        idx = idx + 1;
    }
    best
}

/// The guarded composite extent (no trailing padding).
pub fn comp_base_size_guarded(arena: &KindArena, guard: usize, c: &Composite) -> (n: u16)
    requires
        arena.wf(),
        arena.sizes_fit(),
        guard <= arena@.len(),
        spec_fields_wf(arena@, guard as int, c@.fields),
        spec_comp_base_size(arena@, guard as int, c@) <= u16::MAX,
    ensures
        n as nat == spec_comp_base_size(arena@, guard as int, c@),
    decreases guard, 1int,
{
    let is_product = matches!(c.mode, Mode::Product);
    let mut acc: u16 = 0;
    let mut idx: usize = 0;
    while idx < c.fields.len()
        invariant
            arena.wf(),
            arena.sizes_fit(),
            guard <= arena@.len(),
            spec_fields_wf(arena@, guard as int, c@.fields),
            idx <= c.fields@.len(),
            c@.fields.len() == c.fields@.len(),
            is_product == (c@.mode == Mode::Product),
            spec_comp_base_size(arena@, guard as int, c@) <= u16::MAX,
            is_product ==> acc as nat == spec_product_end(arena@, guard as int, c@.fields, idx as int),
            !is_product ==> acc as nat == spec_max_size(arena@, guard as int, c@.fields, idx as int),
        decreases c.fields@.len() - idx, 0int,
    {
        assert(c@.fields[idx as int] == c.fields@[idx as int]@);
        if is_product {
            let fa = exec_field_align(arena, guard, &c.fields[idx]);
            let fs = exec_field_size(arena, guard, &c.fields[idx]);
            proof {
                lemma_product_end_monotone(
                    arena@,
                    guard as int,
                    c@.fields,
                    idx + 1,
                    c@.fields.len() as int,
                );
            }
            let pad = align_pad_val(acc, fa);
            acc = acc + pad + fs;
        } else {
            let fs = exec_field_size(arena, guard, &c.fields[idx]);
            proof {
                lemma_max_size_monotone(
                    arena@,
                    guard as int,
                    c@.fields,
                    idx + 1,
                    c@.fields.len() as int,
                );
            }
            if fs > acc {
                acc = fs;
            }
        }
        idx = idx + 1;
    }
    acc
}

/// The guarded composite total size.
pub fn comp_size_guarded(arena: &KindArena, guard: usize, c: &Composite) -> (n: u16)
    requires
        arena.wf(),
        arena.sizes_fit(),
        guard <= arena@.len(),
        spec_fields_wf(arena@, guard as int, c@.fields),
        spec_comp_size(arena@, guard as int, c@) <= u16::MAX,
    ensures
        n as nat == spec_comp_size(arena@, guard as int, c@),
    decreases guard, 2int,
{
    proof {
        lemma_base_le_size(arena@, guard as int, c@);
        let base = spec_comp_base_size(arena@, guard as int, c@);
        let align = spec_comp_align(arena@, guard as int, c@);
        assert(spec_comp_size(arena@, guard as int, c@) == base + spec_align_pad(
            base as int,
            align as int,
        ));
    }
    let base = comp_base_size_guarded(arena, guard, c);
    let align = comp_align_guarded(arena, guard, c);
    let pad = align_pad_val(base, align);
    base + pad
}

/// Executable leaf expansion of one field's kind, descending only below the
/// guard; appends the pairs to `out` and advances the cursor.
pub fn exec_field_bf(
    arena: &KindArena,
    guard: usize,
    f: &Field,
    address: &mut usize,
    out: &mut Vec<(usize, Primitive)>,
)
    requires
        arena.wf(),
        arena.sizes_fit(),
        guard <= arena@.len(),
        spec_field_wf(arena@, guard as int, f@),
        spec_field_bf(arena@, guard as int, f@, *old(address) as int).1 <= usize::MAX,
    ensures
        spec_pairs_view(final(out)@) =~= spec_pairs_view(old(out)@) + spec_field_bf(
            arena@,
            guard as int,
            f@,
            *old(address) as int,
        ).0,
        *final(address) as int == spec_field_bf(arena@, guard as int, f@, *old(address) as int).1,
    decreases guard, 0int,
{
    match arena.get(f.kind) {
        Kind::Primitive(p) => {
            let pc = *p;
            let pad = align_pad_addr(*address, pc.size_of());
            let padded = *address + (pad as usize);
            out.push((padded, pc));
            *address = padded + (pc.size_of() as usize);
        },
        Kind::Reference(_) => {
            let pad = align_pad_addr(*address, Primitive::Size.size_of());
            let padded = *address + (pad as usize);
            out.push((padded, Primitive::Size));
            *address = padded + (Primitive::Size.size_of() as usize);
        },
        _ => {
            let sub = arena.base_fields(f.kind, address);
            let mut sub = sub;
            let ghost sub0 = sub@;
            let ghost out0 = out@;
            out.append(&mut sub);
            proof {
                assert(spec_pairs_view(out@) =~= spec_pairs_view(out0) + spec_pairs_view(sub0));
            }
        },
    }
}

impl KindArena {
    /// Structural well-formedness of the whole graph.
    pub open spec fn wf(&self) -> bool {
        graph_wf(self@)
    }

    /// Every node's size fits in a `u16`.
    pub open spec fn sizes_fit(&self) -> bool {
        spec_sizes_fit(self@)
    }

    pub fn new() -> (arena: KindArena)
        ensures
            arena@ =~= Seq::<KindView>::empty(),
            arena.wf(),
            arena.sizes_fit(),
    {
        KindArena { nodes: Vec::new() }
    }

    pub fn len(&self) -> (n: usize)
        ensures
            n == self@.len(),
    {
        self.nodes.len()
    }

    pub fn get(&self, id: usize) -> (k: &Kind)
        requires
            id < self@.len(),
        ensures
            k@ == self@[id as int],
    {
        &self.nodes[id]
    }

    /// Append a node whose references all point at existing nodes; returns
    /// its index.
    pub fn push(&mut self, kind: Kind) -> (id: usize)
        requires
            old(self).wf(),
            spec_kind_valid(kind@, old(self)@.len() as int),
        ensures
            final(self).wf(),
            id == old(self)@.len(),
            final(self)@ =~= old(self)@.push(kind@),
    {
        let id = self.nodes.len();
        self.nodes.push(kind);
        proof {
            assert(self@ =~= old(self)@.push(kind@));
            assert forall|i: int| 0 <= i < self@.len() implies #[trigger] spec_node_wf(
                self@,
                i,
            ) by {
                if i < old(self)@.len() {
                    assert(spec_node_wf(old(self)@, i));
                    assert(self@[i] == old(self)@[i]);
                    match old(self)@[i] {
                        KindView::Composite(c) => {
                            assert forall|j: int| 0 <= j < c.fields.len() implies spec_field_wf(
                                self@,
                                i,
                                #[trigger] c.fields[j],
                            ) by {
                                assert(spec_field_wf(old(self)@, i, c.fields[j]));
                                assert(self@[c.fields[j].kind] == old(self)@[c.fields[j].kind]);
                            }
                        },
                        _ => {},
                    }
                } else {
                    assert(self@[i] == kind@);
                    match kind@ {
                        KindView::Composite(c) => {
                            assert forall|j: int| 0 <= j < c.fields.len() implies spec_field_wf(
                                self@,
                                i,
                                #[trigger] c.fields[j],
                            ) by {
                                assert(0 <= c.fields[j].kind < old(self)@.len());
                            }
                        },
                        _ => {},
                    }
                }
            }
        }
        id
    }

    /// Append a named field to the composite at `id`. The field's kind must
    /// already exist and must be an older node or a layout leaf, which is
    /// what closing a self-referential cycle through a reference needs.
    /// Re-establish `sizes_fit` before querying layout again: growing a
    /// composite that other nodes already embed can push sizes past `u16`.
    pub fn add_field(&mut self, id: usize, name: &str, kind: usize)
        requires
            old(self).wf(),
            id < old(self)@.len(),
            old(self)@[id as int] is Composite,
            kind < old(self)@.len(),
            kind < id || is_layout_leaf(old(self)@[kind as int]),
        ensures
            final(self).wf(),
            final(self)@ =~= old(self)@.update(
                id as int,
                KindView::Composite(
                    CompositeView {
                        name: old(self)@[id as int]->Composite_0.name,
                        mode: old(self)@[id as int]->Composite_0.mode,
                        fields: old(self)@[id as int]->Composite_0.fields.push(
                            FieldView { name: Some(name@), kind: kind as int },
                        ),
                    },
                ),
            ),
    {
        let f = Field::new(name, kind);
        let node = &mut self.nodes[id];
        match node {
            Kind::Composite(c) => {
                c.fields.push(f);
            },
            _ => {
                proof {
                    assert(false);
                }
            },
        }
        proof {
            let oldv = old(self)@;
            let c0 = oldv[id as int]->Composite_0;
            let newc = CompositeView {
                name: c0.name,
                mode: c0.mode,
                fields: c0.fields.push(FieldView { name: Some(name@), kind: kind as int }),
            };
            assert(self@[id as int]->Composite_0.fields =~= newc.fields);
            assert(self@ =~= oldv.update(id as int, KindView::Composite(newc)));
            assert forall|i: int| 0 <= i < self@.len() implies #[trigger] spec_node_wf(
                self@,
                i,
            ) by {
                assert(spec_node_wf(oldv, i));
                if i == id {
                    assert forall|j: int|
                        0 <= j < newc.fields.len() implies spec_field_wf(
                        self@,
                        i,
                        #[trigger] newc.fields[j],
                    ) by {
                        if j < c0.fields.len() {
                            assert(newc.fields[j] == c0.fields[j]);
                            assert(spec_field_wf(oldv, i, c0.fields[j]));
                            if c0.fields[j].kind != id {
                                assert(self@[c0.fields[j].kind] == oldv[c0.fields[j].kind]);
                            } else {
                                assert(c0.fields[j].kind < i || is_layout_leaf(
                                    oldv[c0.fields[j].kind],
                                ));
                            }
                        } else {
                            assert(newc.fields[j] == FieldView {
                                name: Some(name@),
                                kind: kind as int,
                            });
                            if !(kind < id) {
                                assert(is_layout_leaf(oldv[kind as int]));
                                assert(kind != id);
                                assert(self@[kind as int] == oldv[kind as int]);
                            }
                        }
                    }
                } else {
                    match oldv[i] {
                        KindView::Composite(c) => {
                            assert(self@[i] == oldv[i]);
                            assert forall|j: int| 0 <= j < c.fields.len() implies spec_field_wf(
                                self@,
                                i,
                                #[trigger] c.fields[j],
                            ) by {
                                assert(spec_field_wf(oldv, i, c.fields[j]));
                                if !(c.fields[j].kind < i) {
                                    assert(is_layout_leaf(oldv[c.fields[j].kind]));
                                    assert(c.fields[j].kind != id);
                                    assert(self@[c.fields[j].kind] == oldv[c.fields[j].kind]);
                                }
                            }
                        },
                        _ => {
                            assert(self@[i] == oldv[i]);
                        },
                    }
                }
            }
        }
    }

    /// Flatten the node at `id` into its ordered (absolute address, scalar)
    /// leaves, advancing the cursor past the expanded extent. The cursor is
    /// first padded to the node's alignment.
    pub fn base_fields(&self, id: usize, address: &mut usize) -> (v: Vec<(usize, Primitive)>)
        requires
            self.wf(),
            self.sizes_fit(),
            id < self@.len(),
            spec_base_fields_at(self@, id as int, *old(address) as int).1 <= usize::MAX,
        ensures
            spec_pairs_view(v@) =~= spec_base_fields_at(self@, id as int, *old(address) as int).0,
            *final(address) as int == spec_base_fields_at(
                self@,
                id as int,
                *old(address) as int,
            ).1,
        decreases id, 2int,
    {
        proof {
            assert(spec_node_wf(self@, id as int));
            lemma_bf_end_ge(self@, id as int, *address as int);
        }
        let ghost addr0 = *address as int;
        let ghost padded_g = addr0 + spec_align_pad(addr0, spec_align_at(self@, id as int) as int);
        match self.get(id) {
            Kind::Alias(al) => {
                let t = al.kind;
                return self.base_fields(t, address);
            },
            _ => {},
        }
        let mut v: Vec<(usize, Primitive)> = Vec::new();
        let align = self.align_of(id);
        let pad = align_pad_addr(*address, align);
        proof {
            match self@[id as int] {
                KindView::Primitive(p) => {
                    assert(spec_base_fields_at(self@, id as int, addr0).1 == padded_g
                        + p.spec_size_of());
                },
                KindView::Reference(_) => {
                    assert(spec_base_fields_at(self@, id as int, addr0).1 == padded_g + 4);
                },
                KindView::Composite(c) => {
                    match c.mode {
                        Mode::Product => {
                            lemma_fields_bf_end_ge(
                                self@,
                                id as int,
                                c.fields,
                                c.fields.len() as int,
                                padded_g,
                            );
                        },
                        Mode::Sum => {
                            if c.fields.len() > 0 {
                                lemma_field_bf_end_ge(self@, id as int, c.fields[0], padded_g);
                            }
                        },
                    }
                },
                KindView::Array(a) => {
                    lemma_array_bf_end_ge(
                        self@,
                        id as int,
                        a.kind as int,
                        a.size as int,
                        padded_g,
                    );
                },
                KindView::Alias(_) => {},
            }
        }
        *address = *address + (pad as usize);
        match self.get(id) {
            Kind::Primitive(p) => {
                let pc = *p;
                v.push((*address, pc));
                *address = *address + (pc.size_of() as usize);
            },
            Kind::Reference(_) => {
                v.push((*address, Primitive::Size));
                *address = *address + (Primitive::Size.size_of() as usize);
            },
            Kind::Composite(c) => {
                let is_product = matches!(c.mode, Mode::Product);
                if is_product {
                    let ghost start = *address as int;
                    let mut idx: usize = 0;
                    while idx < c.fields.len()
                        invariant
                            self.wf(),
                            self.sizes_fit(),
                            id < self@.len(),
                            self@[id as int] is Composite,
                            c@ == self@[id as int]->Composite_0,
                            c@.mode == Mode::Product,
                            idx <= c.fields@.len(),
                            c@.fields.len() == c.fields@.len(),
                            spec_fields_bf(
                                self@,
                                id as int,
                                c@.fields,
                                c@.fields.len() as int,
                                start,
                            ).1 <= usize::MAX,
                            spec_pairs_view(v@) =~= spec_fields_bf(
                                self@,
                                id as int,
                                c@.fields,
                                idx as int,
                                start,
                            ).0,
                            *address as int == spec_fields_bf(
                                self@,
                                id as int,
                                c@.fields,
                                idx as int,
                                start,
                            ).1,
                        decreases c.fields@.len() - idx,
                    {
                        assert(c@.fields[idx as int] == c.fields@[idx as int]@);
                        proof {
                            assert(spec_node_wf(self@, id as int));
                            assert(spec_field_wf(self@, id as int, c@.fields[idx as int]));
                            lemma_fields_bf_mono(
                                self@,
                                id as int,
                                c@.fields,
                                idx + 1,
                                c@.fields.len() as int,
                                start,
                            );
                        }
                        exec_field_bf(self, id, &c.fields[idx], address, &mut v);
                        idx = idx + 1;
                    }
                } else {
                    if c.fields.len() > 0 {
                        assert(c@.fields[0] == c.fields@[0]@);
                        exec_field_bf(self, id, &c.fields[0], address, &mut v);
                    }
                }
            },
            Kind::Array(a) => {
                let elem = a.kind;
                let count = a.size;
                let ghost start = *address as int;
                let mut n: usize = 0;
                while n < count
                    invariant
                        self.wf(),
                        self.sizes_fit(),
                        id < self@.len(),
                        elem < id,
                        count <= usize::MAX,
                        n <= count,
                        spec_array_bf(self@, id as int, elem as int, count as int, start).1
                            <= usize::MAX,
                        spec_pairs_view(v@) =~= spec_array_bf(
                            self@,
                            id as int,
                            elem as int,
                            n as int,
                            start,
                        ).0,
                        *address as int == spec_array_bf(
                            self@,
                            id as int,
                            elem as int,
                            n as int,
                            start,
                        ).1,
                    decreases count - n,
                {
                    proof {
                        lemma_array_bf_mono(
                            self@,
                            id as int,
                            elem as int,
                            n + 1,
                            count as int,
                            start,
                        );
                        lemma_bf_end_ge(self@, elem as int, *address as int);
                    }
                    let sub = self.base_fields(elem, address);
                    let mut sub = sub;
                    let ghost sub0 = sub@;
                    let ghost v0 = v@;
                    v.append(&mut sub);
                    proof {
                        assert(spec_pairs_view(v@) =~= spec_pairs_view(v0) + spec_pairs_view(
                            sub0,
                        ));
                    }
                    n = n + 1;
                }
            },
            Kind::Alias(_) => {
                proof {
                    assert(false);
                }
            },
        }
        v
    }

    /// The C-style display name of the node at `id`.
    pub fn name_of(&self, id: usize) -> (r: String)
        requires
            self.wf(),
            id < self@.len(),
        ensures
            r@ == spec_name_at(self@, id as int),
        decreases id, 3int,
    {
        proof {
            assert(spec_node_wf(self@, id as int));
        }
        match self.get(id) {
            Kind::Primitive(p) => p.name_string(),
            Kind::Composite(c) => c.name_string(),
            Kind::Alias(a) => a.name.clone(),
            Kind::Reference(rf) => {
                let mut s = self.name_of(rf.kind);
                match rf.mode {
                    crate::reference::Mode::Ref => s.append("&"),
                    crate::reference::Mode::Ptr => s.append("*"),
                }
                s
            },
            Kind::Array(a) => {
                let mut s = self.name_of(a.kind);
                s.append("[");
                let count = usize_to_string(a.size);
                s.append(count.as_str());
                s.append("]");
                s
            },
        }
    }

    /// Size of the node at `id`, by the C layout rules.
    pub fn size_of(&self, id: usize) -> (n: u16)
        requires
            self.wf(),
            self.sizes_fit(),
            id < self@.len(),
        ensures
            n as nat == spec_size_at(self@, id as int),
        decreases id, 3int,
    {
        proof {
            assert(spec_node_wf(self@, id as int));
            assert(spec_size_at(self@, id as int) <= u16::MAX);
        }
        let k = &self.nodes[id];
        assert(k@ == self@[id as int]);
        match k {
            Kind::Primitive(p) => p.size_of(),
            Kind::Reference(_) => Primitive::Size.size_of(),
            Kind::Alias(a) => self.size_of(a.kind),
            Kind::Array(a) => {
                let elem = self.size_of(a.kind);
                let total: usize = (elem as usize) * a.size;
                total as u16
            },
            Kind::Composite(c) => comp_size_guarded(self, id, c),
        }
    }

    /// Alignment of the node at `id`.
    pub fn align_of(&self, id: usize) -> (n: u16)
        requires
            self.wf(),
            id < self@.len(),
        ensures
            n as nat == spec_align_at(self@, id as int),
        decreases id, 3int,
    {
        proof {
            assert(spec_node_wf(self@, id as int));
        }
        let k = &self.nodes[id];
        assert(k@ == self@[id as int]);
        match k {
            Kind::Primitive(p) => p.align_of(),
            Kind::Reference(_) => Primitive::Size.size_of(),
            Kind::Alias(a) => self.align_of(a.kind),
            Kind::Array(a) => self.align_of(a.kind),
            Kind::Composite(c) => comp_align_guarded(self, id, c),
        }
    }
}

impl KindArena {
    /// Terminal resolution of an empty path at node `id`: a reference
    /// auto-dereferences by reading its stored address; anything else
    /// resolves to itself at the current address.
    pub fn get_place_value(&self, ribbon: &MemRibbon, id: usize, trace: Trace) -> (r: Result<
        PlaceValue,
        Error,
    >)
        requires
            self.wf(),
            id < self@.len(),
        ensures
            spec_result_view(r) == spec_get_place_value(
                self@,
                ribbon.base_adr as int,
                ribbon.data@,
                id as int,
                trace.address as int,
                trace.field_name@,
            ),
    {
        match self.get(id) {
            Kind::Reference(rf) => {
                let target = rf.kind;
                match Primitive::Size.parse_at(ribbon, trace.address) {
                    Some(v) => match v {
                        PrimValue::Size(a) => Ok(
                            PlaceValue { kind: target, address: a as usize },
                        ),
                        _ => vstd::pervasive::unreached(),
                    },
                    None => Err(
                        Error::at(trace.field_name, ErrorKind::Deref { old_addr: trace.address }),
                    ),
                }
            },
            _ => Ok(PlaceValue { kind: id, address: trace.address }),
        }
    }

    /// Resolve the remaining path at node `id`: consume the next unit, or
    /// resolve in place when the path is exhausted. A failing step is
    /// decorated with this kind's category and the current field name.
    pub fn access(&self, ribbon: &MemRibbon, id: usize, trace: Trace) -> (r: Result<
        PlaceValue,
        Error,
    >)
        requires
            self.wf(),
            self.sizes_fit(),
            id < self@.len(),
        ensures
            spec_result_view(r) == spec_access_at(
                self@,
                ribbon.base_adr as int,
                ribbon.data@,
                id as int,
                trace.path@,
                trace.address as int,
                trace.field_name@,
            ),
        decreases trace.path.0@.len(), 0int, 0int,
    {
        let mut trace = trace;
        let popped = trace.path.pop_front();
        match popped {
            None => self.get_place_value(ribbon, id, trace),
            Some(unit) => {
                let field_name = trace.field_name.clone();
                let cat = self.get(id).variant_str();
                match self.access_with(ribbon, id, unit, trace) {
                    Ok(p) => Ok(p),
                    Err(e) => Err(e.with_context(cat, field_name.as_str())),
                }
            },
        }
    }

    /// Dispatch one indirection unit on the node `id`.
    pub fn access_with(&self, ribbon: &MemRibbon, id: usize, unit: Indirection, trace: Trace) -> (r:
        Result<PlaceValue, Error>)
        requires
            self.wf(),
            self.sizes_fit(),
            id < self@.len(),
        ensures
            spec_result_view(r) == spec_access_with_at(
                self@,
                ribbon.base_adr as int,
                ribbon.data@,
                id as int,
                unit@,
                trace.path@,
                trace.address as int,
                trace.field_name@,
            ),
        decreases trace.path.0@.len(), 3int, id,
    {
        proof {
            assert(spec_node_wf(self@, id as int));
        }
        match self.get(id) {
            Kind::Primitive(_) => {
                let ek = ErrorKind::operation(&unit, id);
                Err(Error::at(trace.field_name, ek))
            },
            Kind::Composite(c) => {
                proof {
                    lemma_node_comp_layout(self@, id as int);
                    assert(spec_size_at(self@, id as int) <= u16::MAX);
                    assert forall|j: int| 0 <= j < c@.fields.len() implies spec_field_wf(
                        self@,
                        self@.len() as int,
                        #[trigger] c@.fields[j],
                    ) by {
                        assert(spec_field_wf(self@, id as int, c@.fields[j]));
                    }
                }
                c.access_with(self, ribbon, id, unit, trace)
            },
            Kind::Reference(rf) => {
                let rfc = *rf;
                rfc.access_with(self, ribbon, unit, trace)
            },
            Kind::Array(a) => {
                let ac = *a;
                ac.access_with(self, ribbon, unit, trace)
            },
            Kind::Alias(al) => {
                let t = al.kind;
                self.access_with(ribbon, t, unit, trace)
            },
        }
    }
}

impl Kind {
    pub fn prim(value: Primitive) -> (k: Kind)
        ensures
            k@ == KindView::Primitive(value),
    {
        Kind::Primitive(value)
    }

    pub fn refr(value: Reference) -> (k: Kind)
        ensures
            k@ == KindView::Reference(value),
    {
        Kind::Reference(value)
    }

    pub fn comp(value: Composite) -> (k: Kind)
        ensures
            k@ == KindView::Composite(value@),
    {
        Kind::Composite(value)
    }

    pub fn array(value: Array) -> (k: Kind)
        ensures
            k@ == KindView::Array(value),
    {
        Kind::Array(value)
    }

    pub fn alias(value: Alias) -> (k: Kind)
        ensures
            k@ == KindView::Alias(value@),
    {
        Kind::Alias(value)
    }

    /// The category shown in error context.
    pub fn variant_str(&self) -> (r: &'static str)
        ensures
            r@ == spec_variant_str(self@),
    {
        match self {
            Kind::Primitive(p) => p.variant_str(),
            Kind::Reference(r) => r.variant_str(),
            Kind::Composite(c) => c.variant_str(),
            Kind::Array(a) => a.variant_str(),
            Kind::Alias(_) => "alias",
        }
    }

    /// The C-style display name of this kind value.
    pub fn name_string(&self, arena: &KindArena) -> (r: String)
        requires
            arena.wf(),
            spec_kind_valid(self@, arena@.len() as int),
        ensures
            r@ == spec_kind_name(arena@, self@),
    {
        match self {
            Kind::Primitive(p) => p.name_string(),
            Kind::Composite(c) => c.name_string(),
            Kind::Alias(a) => a.name.clone(),
            Kind::Reference(rf) => rf.name_string(arena),
            Kind::Array(a) => {
                let mut s = arena.name_of(a.kind);
                s.append("[");
                let count = usize_to_string(a.size);
                s.append(count.as_str());
                s.append("]");
                s
            },
        }
    }

    /// Size of this kind value, whose indices must be valid in `arena`.
    pub fn size_of(&self, arena: &KindArena) -> (n: u16)
        requires
            arena.wf(),
            arena.sizes_fit(),
            spec_kind_valid(self@, arena@.len() as int),
            spec_kind_size(arena@, self@) <= u16::MAX,
        ensures
            n as nat == spec_kind_size(arena@, self@),
    {
        match self {
            Kind::Primitive(p) => p.size_of(),
            Kind::Reference(_) => Primitive::Size.size_of(),
            Kind::Alias(a) => arena.size_of(a.kind),
            Kind::Array(a) => {
                let elem = arena.size_of(a.kind);
                let total: usize = (elem as usize) * a.size;
                total as u16
            },
            Kind::Composite(c) => {
                proof {
                    assert forall|j: int| 0 <= j < c@.fields.len() implies spec_field_wf(
                        arena@,
                        arena@.len() as int,
                        #[trigger] c@.fields[j],
                    ) by {}
                }
                comp_size_guarded(arena, arena.len(), c)
            },
        }
    }

    /// Alignment of this kind value.
    pub fn align_of(&self, arena: &KindArena) -> (n: u16)
        requires
            arena.wf(),
            spec_kind_valid(self@, arena@.len() as int),
        ensures
            n as nat == spec_kind_align(arena@, self@),
    {
        match self {
            Kind::Primitive(p) => p.align_of(),
            Kind::Reference(_) => Primitive::Size.size_of(),
            Kind::Alias(a) => arena.align_of(a.kind),
            Kind::Array(a) => arena.align_of(a.kind),
            Kind::Composite(c) => {
                proof {
                    assert forall|j: int| 0 <= j < c@.fields.len() implies spec_field_wf(
                        arena@,
                        arena@.len() as int,
                        #[trigger] c@.fields[j],
                    ) by {}
                }
                comp_align_guarded(arena, arena.len(), c)
            },
        }
    }

    /// Flatten this kind value into its ordered (absolute address, scalar)
    /// leaves, advancing the cursor past the expanded extent.
    pub fn base_fields(&self, arena: &KindArena, address: &mut usize) -> (v: Vec<(usize, Primitive)>)
        requires
            arena.wf(),
            arena.sizes_fit(),
            spec_kind_valid(self@, arena@.len() as int),
            spec_kind_bf(arena@, self@, *old(address) as int).1 <= usize::MAX,
        ensures
            spec_pairs_view(v@) =~= spec_kind_bf(arena@, self@, *old(address) as int).0,
            *final(address) as int == spec_kind_bf(arena@, self@, *old(address) as int).1,
    {
        match self {
            Kind::Alias(al) => {
                proof {
                    lemma_bf_end_ge(arena@, al.kind as int, *address as int);
                }
                return arena.base_fields(al.kind, address);
            },
            Kind::Array(a) => {
                // An array's alignment is its element's, so the element
                // padding inside the worker is exactly this kind's padding.
                let ac = *a;
                return ac.elements_base_fields(arena, address);
            },
            _ => {},
        }
        let ghost addr0 = *address as int;
        let ghost padded_g = addr0 + spec_align_pad(
            addr0,
            spec_kind_align(arena@, self@) as int,
        );
        proof {
            match self@ {
                KindView::Composite(c) => {
                    assert forall|j: int| 0 <= j < c.fields.len() implies spec_field_wf(
                        arena@,
                        arena@.len() as int,
                        #[trigger] c.fields[j],
                    ) by {}
                    match c.mode {
                        Mode::Product => {
                            lemma_fields_bf_end_ge(
                                arena@,
                                arena@.len() as int,
                                c.fields,
                                c.fields.len() as int,
                                padded_g,
                            );
                        },
                        Mode::Sum => {
                            if c.fields.len() > 0 {
                                lemma_field_bf_end_ge(
                                    arena@,
                                    arena@.len() as int,
                                    c.fields[0],
                                    padded_g,
                                );
                            }
                        },
                    }
                },
                _ => {},
            }
        }
        let align = self.align_of(arena);
        let pad = align_pad_addr(*address, align);
        *address = *address + (pad as usize);
        match self {
            Kind::Primitive(p) => {
                let pc = *p;
                let mut v: Vec<(usize, Primitive)> = Vec::new();
                v.push((*address, pc));
                *address = *address + (pc.size_of() as usize);
                v
            },
            Kind::Reference(_) => {
                let mut v: Vec<(usize, Primitive)> = Vec::new();
                v.push((*address, Primitive::Size));
                *address = *address + (Primitive::Size.size_of() as usize);
                v
            },
            Kind::Composite(c) => c.base_fields(arena, address),
            _ => vstd::pervasive::unreached(),
        }
    }

    /// Padding needed to bring `offset` up to this kind's alignment.
    pub fn align_pad(&self, arena: &KindArena, offset: u16) -> (p: u16)
        requires
            arena.wf(),
            spec_kind_valid(self@, arena@.len() as int),
        ensures
            p as nat == spec_align_pad(offset as int, spec_kind_align(arena@, self@) as int),
    {
        let align = self.align_of(arena);
        align_pad_val(offset, align)
    }
}

} // verus!
