//! Access paths, their resolution results, and the structured error taxonomy.
//!
//! Resolution itself is defined here twice: once as executable code spread
//! over the kind variants (see `kind`, `composite`, `reference`, `array` and
//! `mem_ribbon`), and once as the mathematical functions `spec_access_at`,
//! `spec_composite_access`, `spec_access_ref`, `spec_access_ptr` and
//! `spec_ribbon_get` that every executable resolver is proved equal to.

use vstd::prelude::*;

use crate::composite::CompositeView;
use crate::kind::{spec_size_at, spec_variant_str, KindView};
use crate::mem_ribbon::{spec_parse_at, MemByte, Segment};
use crate::primitive::{Primitive, PrimValue};

verus! {

// ---------------------------------------------------------------------------
// Places.
// ---------------------------------------------------------------------------

/// A successful resolution: the kind (by arena index) and the absolute
/// address of the resolved object.
#[derive(Clone, Copy, Debug, PartialEq, Eq, Structural)]
pub struct PlaceValue {
    pub kind: usize,
    pub address: usize,
}

/// The mathematical image of a `PlaceValue`.
#[verifier::ext_equal]
pub struct PlaceView {
    pub kind: int,
    pub address: int,
}

impl View for PlaceValue {
    type V = PlaceView;

    open spec fn view(&self) -> PlaceView {
        PlaceView { kind: self.kind as int, address: self.address as int }
    }
}

// ---------------------------------------------------------------------------
// Indirection units and paths.
// ---------------------------------------------------------------------------

/// One step of an access path: `.name`, `->name`, `*`, or `[idx]`.
#[derive(Debug, Clone, PartialEq, Eq)]
pub enum Indirection {
    Field(String),
    Arrow(String),
    Deref,
    Index(usize),
}

/// The mathematical image of an `Indirection`.
#[verifier::ext_equal]
pub enum IndirectionView {
    Field(Seq<char>),
    Arrow(Seq<char>),
    Deref,
    Index(int),
}

impl View for Indirection {
    type V = IndirectionView;

    open spec fn view(&self) -> IndirectionView {
        match self {
            Indirection::Field(n) => IndirectionView::Field(n@),
            Indirection::Arrow(n) => IndirectionView::Arrow(n@),
            Indirection::Deref => IndirectionView::Deref,
            Indirection::Index(i) => IndirectionView::Index(*i as int),
        }
    }
}

/// The operator spelling of one indirection unit.
pub open spec fn spec_operator(u: IndirectionView) -> Seq<char> {
    match u {
        IndirectionView::Field(_) => "."@,
        IndirectionView::Arrow(_) => "->"@,
        IndirectionView::Deref => "*"@,
        IndirectionView::Index(_) => "[]"@,
    }
}

impl Indirection {
    pub fn is_field(&self) -> (r: bool)
        ensures
            r == (self@ is Field),
    {
        matches!(self, Indirection::Field(_))
    }

    /// The field name when this unit is a plain field selection.
    pub fn as_field(&self) -> (r: Option<&str>)
        ensures
            match r {
                Some(s) => self@ matches IndirectionView::Field(n) && s@ == n,
                None => !(self@ is Field),
            },
    {
        match self {
            Indirection::Field(name) => Some(name.as_str()),
            _ => None,
        }
    }

    pub fn operator(&self) -> (r: &'static str)
        ensures
            r@ == spec_operator(self@),
    {
        match self {
            Indirection::Field(_) => ".",
            Indirection::Arrow(_) => "->",
            Indirection::Deref => "*",
            Indirection::Index(_) => "[]",
        }
    }
}

/// An ordered queue of indirection units, consumed front to back during
/// resolution.
#[derive(Debug, PartialEq, Eq)]
pub struct Path(pub Vec<Indirection>);

impl View for Path {
    type V = Seq<IndirectionView>;

    open spec fn view(&self) -> Seq<IndirectionView> {
        self.0@.map_values(|u: Indirection| u@)
    }
}

impl Path {
    /// A path that starts by selecting `base` (a ribbon span name).
    pub fn new(base: &str) -> (p: Path)
        ensures
            p@ =~= seq![IndirectionView::Field(base@)],
    {
        let mut units: Vec<Indirection> = Vec::new();
        units.push(Indirection::Field(base.to_owned()));
        Path(units)
    }

    pub fn deref(self) -> (p: Path)
        ensures
            p@ =~= self@.push(IndirectionView::Deref),
    {
        let mut p = self;
        p.0.push(Indirection::Deref);
        p
    }

    pub fn index(self, idx: usize) -> (p: Path)
        ensures
            p@ =~= self@.push(IndirectionView::Index(idx as int)),
    {
        let mut p = self;
        p.0.push(Indirection::Index(idx));
        p
    }

    pub fn field(self, fname: &str) -> (p: Path)
        ensures
            p@ =~= self@.push(IndirectionView::Field(fname@)),
    {
        let mut p = self;
        p.0.push(Indirection::Field(fname.to_owned()));
        p
    }

    pub fn arrow(self, fname: &str) -> (p: Path)
        ensures
            p@ =~= self@.push(IndirectionView::Arrow(fname@)),
    {
        let mut p = self;
        p.0.push(Indirection::Arrow(fname.to_owned()));
        p
    }

    /// Remove and return the first unit.
    pub fn pop_front(&mut self) -> (r: Option<Indirection>)
        ensures
            match r {
                Some(u) => old(self)@.len() > 0 && u@ == old(self)@[0] && final(self)@
                    =~= old(self)@.drop_first(),
                None => old(self)@.len() == 0 && final(self)@ == old(self)@,
            },
    {
        if self.0.len() == 0 {
            None
        } else {
            let u = self.0.remove(0);
            proof {
                assert(self.0@ =~= old(self).0@.drop_first());
                assert(self@ =~= old(self)@.drop_first());
            }
            Some(u)
        }
    }
}

// ---------------------------------------------------------------------------
// The resolution context.
// ---------------------------------------------------------------------------

/// The mutable context threaded through resolution: the remaining path, the
/// current absolute address, and the field name used in error messages.
/// (The ribbon and the arena are passed alongside it.)
#[derive(Debug)]
pub struct Trace {
    pub path: Path,
    pub address: usize,
    pub field_name: String,
}

// ---------------------------------------------------------------------------
// Errors.
// ---------------------------------------------------------------------------

/// One level of context added while an error unwinds: the enclosing kind's
/// category and the enclosing field name.
#[derive(Debug)]
pub struct Frame {
    pub category: &'static str,
    pub field_name: String,
}

/// The mathematical image of a `Frame`.
#[verifier::ext_equal]
pub struct FrameView {
    pub category: Seq<char>,
    pub field_name: Seq<char>,
}

impl View for Frame {
    type V = FrameView;

    open spec fn view(&self) -> FrameView {
        FrameView { category: self.category@, field_name: self.field_name@ }
    }
}

/// What went wrong. Kinds are identified by their arena index.
#[derive(Debug)]
pub enum ErrorKind {
    /// An indirection operator was applied to a kind that does not support
    /// it.
    Operation { op: &'static str, kind: usize },
    /// The arrow operator went through a pointer whose target is not a
    /// composite.
    Arrow { kind: usize },
    /// Reading the address stored for a reference or pointer failed, or an
    /// address computation exceeded the machine word.
    Deref { old_addr: usize },
    /// A named field lookup failed against a composite's field list or a
    /// ribbon's span list.
    SubField { name: String },
    /// The path ended (or began) where no further dispatch is possible.
    DirectAccess,
    /// The ribbon itself received a non-field unit as its first path step.
    RibbonOp { op: &'static str },
}

/// The mathematical image of an `ErrorKind`.
#[verifier::ext_equal]
pub enum ErrorKindView {
    Operation { op: Seq<char>, kind: int },
    Arrow { kind: int },
    Deref { old_addr: int },
    SubField { name: Seq<char> },
    DirectAccess,
    RibbonOp { op: Seq<char> },
}

impl View for ErrorKind {
    type V = ErrorKindView;

    open spec fn view(&self) -> ErrorKindView {
        match self {
            ErrorKind::Operation { op, kind } => ErrorKindView::Operation {
                op: op@,
                kind: *kind as int,
            },
            ErrorKind::Arrow { kind } => ErrorKindView::Arrow { kind: *kind as int },
            ErrorKind::Deref { old_addr } => ErrorKindView::Deref { old_addr: *old_addr as int },
            ErrorKind::SubField { name } => ErrorKindView::SubField { name: name@ },
            ErrorKind::DirectAccess => ErrorKindView::DirectAccess,
            ErrorKind::RibbonOp { op } => ErrorKindView::RibbonOp { op: op@ },
        }
    }
}

/// A resolution failure: the field name where it arose, its kind, and the
/// chain of context frames added on the way out, innermost first.
#[derive(Debug)]
pub struct Error {
    pub field_name: String,
    pub kind: ErrorKind,
    pub context: Vec<Frame>,
}

/// The mathematical image of an `Error`.
#[verifier::ext_equal]
pub struct ErrorView {
    pub field_name: Seq<char>,
    pub kind: ErrorKindView,
    pub context: Seq<FrameView>,
}

impl View for Error {
    type V = ErrorView;

    open spec fn view(&self) -> ErrorView {
        ErrorView {
            field_name: self.field_name@,
            kind: self.kind@,
            context: self.context@.map_values(|f: Frame| f@),
        }
    }
}

/// A fresh error with no context frames.
pub open spec fn spec_err(field_name: Seq<char>, kind: ErrorKindView) -> ErrorView {
    ErrorView { field_name, kind, context: Seq::empty() }
}

/// The error with one more context frame appended.
pub open spec fn spec_with_context(e: ErrorView, category: Seq<char>, field_name: Seq<char>) -> ErrorView {
    ErrorView {
        field_name: e.field_name,
        kind: e.kind,
        context: e.context.push(FrameView { category, field_name }),
    }
}

impl Error {
    pub fn at(field_name: String, kind: ErrorKind) -> (e: Error)
        ensures
            e@ =~~= spec_err(field_name@, kind@),
    {
        Error { field_name, kind, context: Vec::new() }
    }

    /// Record the enclosing kind's category and field name as one more
    /// frame of context.
    pub fn with_context(self, category: &'static str, field_name: &str) -> (e: Error)
        ensures
            e@ =~~= spec_with_context(self@, category@, field_name@),
    {
        let mut e = self;
        e.context.push(Frame { category, field_name: field_name.to_owned() });
        proof {
            assert(e.context@.map_values(|f: Frame| f@) =~= self.context@.map_values(
                |f: Frame| f@,
            ).push(FrameView { category: category@, field_name: field_name@ }));
        }
        e
    }
}

impl ErrorKind {
    /// The operator of `indirection` applied to the kind at `kind`.
    pub fn operation(indirection: &Indirection, kind: usize) -> (e: ErrorKind)
        ensures
            e@ == (ErrorKindView::Operation { op: spec_operator(indirection@), kind: kind as int }),
    {
        ErrorKind::Operation { op: indirection.operator(), kind }
    }

    /// The operator of `indirection` applied to the ribbon itself.
    pub fn ribbon_op(indirection: &Indirection) -> (e: ErrorKind)
        ensures
            e@ == (ErrorKindView::RibbonOp { op: spec_operator(indirection@) }),
    {
        ErrorKind::RibbonOp { op: indirection.operator() }
    }
}

/// The view of a resolution result.
pub open spec fn spec_result_view(r: Result<PlaceValue, Error>) -> Result<PlaceView, ErrorView> {
    match r {
        Ok(p) => Ok(p@),
        Err(e) => Err(e@),
    }
}

// ---------------------------------------------------------------------------
// Resolution, mathematically.
//
// Addresses are exact integers here; a computed address that would not fit
// the machine word resolves to a bad-dereference error, which is what the
// checked executable arithmetic reports.
// ---------------------------------------------------------------------------

/// Terminal resolution with an empty path: a reference auto-dereferences by
/// reading its stored address, everything else resolves to itself.
pub open spec fn spec_get_place_value(
    nodes: Seq<KindView>,
    base: int,
    data: Seq<MemByte>,
    id: int,
    address: int,
    field_name: Seq<char>,
) -> Result<PlaceView, ErrorView> {
    match nodes[id] {
        KindView::Reference(r) => match spec_parse_at(base, data, Primitive::Size, address) {
            Some(v) => Ok(PlaceView { kind: r.kind as int, address: v->Size_0 as int }),
            None => Err(spec_err(field_name, ErrorKindView::Deref { old_addr: address })),
        },
        _ => Ok(PlaceView { kind: id, address }),
    }
}

/// Resolution at the node `id`: consume the next unit, or resolve in place
/// when the path is exhausted. A failing step is decorated with the
/// category of the enclosing kind.
pub open spec fn spec_access_at(
    nodes: Seq<KindView>,
    base: int,
    data: Seq<MemByte>,
    id: int,
    path: Seq<IndirectionView>,
    address: int,
    field_name: Seq<char>,
) -> Result<PlaceView, ErrorView>
    decreases path.len(), 0int, 0int,
{
    if path.len() == 0 {
        spec_get_place_value(nodes, base, data, id, address, field_name)
    } else {
        match spec_access_with_at(
            nodes,
            base,
            data,
            id,
            path[0],
            path.drop_first(),
            address,
            field_name,
        ) {
            Ok(p) => Ok(p),
            Err(e) => Err(spec_with_context(e, spec_variant_str(nodes[id]), field_name)),
        }
    }
}

/// Dispatch one indirection unit on the node `id`.
pub open spec fn spec_access_with_at(
    nodes: Seq<KindView>,
    base: int,
    data: Seq<MemByte>,
    id: int,
    unit: IndirectionView,
    path: Seq<IndirectionView>,
    address: int,
    field_name: Seq<char>,
) -> Result<PlaceView, ErrorView>
    decreases path.len(), 3int, id,
{
    if 0 <= id < nodes.len() {
        match nodes[id] {
            KindView::Primitive(_) => Err(
                spec_err(
                    field_name,
                    ErrorKindView::Operation { op: spec_operator(unit), kind: id },
                ),
            ),
            KindView::Composite(c) => spec_composite_access(
                nodes,
                base,
                data,
                id,
                c,
                unit,
                path,
                address,
                field_name,
            ),
            KindView::Reference(r) => match r.mode {
                crate::reference::Mode::Ref => spec_access_ref(
                    nodes,
                    base,
                    data,
                    r,
                    unit,
                    path,
                    address,
                    field_name,
                ),
                crate::reference::Mode::Ptr => spec_access_ptr(
                    nodes,
                    base,
                    data,
                    r,
                    unit,
                    path,
                    address,
                    field_name,
                ),
            },
            KindView::Array(a) => match unit {
                IndirectionView::Deref => spec_access_at(
                    nodes,
                    base,
                    data,
                    a.kind as int,
                    path,
                    address,
                    field_name,
                ),
                IndirectionView::Index(idx) => {
                    let target = address + spec_size_at(nodes, a.kind as int) * idx;
                    if target > usize::MAX {
                        Err(spec_err(field_name, ErrorKindView::Deref { old_addr: address }))
                    } else {
                        spec_access_at(nodes, base, data, a.kind as int, path, target, field_name)
                    }
                },
                _ => Err(
                    spec_err(
                        field_name,
                        ErrorKindView::Operation {
                            op: spec_operator(unit),
                            kind: a.kind as int,
                        },
                    ),
                ),
            },
            KindView::Alias(al) => if 0 <= al.kind < id {
                spec_access_with_at(nodes, base, data, al.kind, unit, path, address, field_name)
            } else {
                // Unreachable in a well-formed graph: aliases point backwards.
                Err(spec_err(field_name, ErrorKindView::DirectAccess))
            },
        }
    } else {
        // Unreachable: resolution only visits nodes of the graph.
        Err(spec_err(field_name, ErrorKindView::DirectAccess))
    }
}

/// Field selection on a composite (the composite's arena index is `cid`,
/// used in error reports). Only a plain field unit is accepted; the field's
/// offset is added to the address and resolution descends into its kind.
pub open spec fn spec_composite_access(
    nodes: Seq<KindView>,
    base: int,
    data: Seq<MemByte>,
    cid: int,
    c: CompositeView,
    unit: IndirectionView,
    path: Seq<IndirectionView>,
    address: int,
    field_name: Seq<char>,
) -> Result<PlaceView, ErrorView>
    decreases path.len(), 1int, 0int,
{
    match unit {
        IndirectionView::Field(name) => match crate::kind::spec_type_of(c.fields, name) {
            None => Err(spec_err(field_name, ErrorKindView::SubField { name })),
            Some(kid) => match crate::kind::spec_comp_offset_of(
                nodes,
                nodes.len() as int,
                c,
                name,
            ) {
                None => Err(spec_err(field_name, ErrorKindView::SubField { name })),
                Some(off) => if address + off > usize::MAX {
                    Err(spec_err(field_name, ErrorKindView::Deref { old_addr: address }))
                } else {
                    spec_access_at(nodes, base, data, kid, path, address + off, field_name)
                },
            },
        },
        _ => Err(
            spec_err(field_name, ErrorKindView::Operation { op: spec_operator(unit), kind: cid }),
        ),
    }
}

/// A by-reference indirection: transparently read the stored address, then
/// require the target to be a composite and delegate the same field unit.
pub open spec fn spec_access_ref(
    nodes: Seq<KindView>,
    base: int,
    data: Seq<MemByte>,
    r: crate::reference::Reference,
    unit: IndirectionView,
    path: Seq<IndirectionView>,
    address: int,
    field_name: Seq<char>,
) -> Result<PlaceView, ErrorView>
    decreases path.len(), 2int, 0int,
{
    if !(unit is Field) {
        Err(
            spec_err(
                field_name,
                ErrorKindView::Operation { op: spec_operator(unit), kind: r.kind as int },
            ),
        )
    } else {
        match spec_parse_at(base, data, Primitive::Size, address) {
            None => Err(spec_err(field_name, ErrorKindView::Deref { old_addr: address })),
            Some(v) => {
                let new_addr = v->Size_0 as int;
                match nodes[r.kind as int] {
                    KindView::Composite(c) => spec_composite_access(
                        nodes,
                        base,
                        data,
                        r.kind as int,
                        c,
                        unit,
                        path,
                        new_addr,
                        field_name,
                    ),
                    _ => Err(
                        spec_err(
                            field_name,
                            ErrorKindView::Operation {
                                op: spec_operator(unit),
                                kind: r.kind as int,
                            },
                        ),
                    ),
                }
            },
        }
    }
}

/// A by-pointer indirection: read the stored address, then require an
/// explicit arrow, dereference, or index unit.
pub open spec fn spec_access_ptr(
    nodes: Seq<KindView>,
    base: int,
    data: Seq<MemByte>,
    r: crate::reference::Reference,
    unit: IndirectionView,
    path: Seq<IndirectionView>,
    address: int,
    field_name: Seq<char>,
) -> Result<PlaceView, ErrorView>
    decreases path.len(), 2int, 0int,
{
    match spec_parse_at(base, data, Primitive::Size, address) {
        None => Err(spec_err(field_name, ErrorKindView::Deref { old_addr: address })),
        Some(v) => {
            let new_addr = v->Size_0 as int;
            match unit {
                IndirectionView::Arrow(fname) => match nodes[r.kind as int] {
                    KindView::Composite(c) => spec_composite_access(
                        nodes,
                        base,
                        data,
                        r.kind as int,
                        c,
                        IndirectionView::Field(fname),
                        path,
                        new_addr,
                        field_name,
                    ),
                    _ => Err(
                        spec_err(field_name, ErrorKindView::Arrow { kind: r.kind as int }),
                    ),
                },
                IndirectionView::Deref => spec_access_at(
                    nodes,
                    base,
                    data,
                    r.kind as int,
                    path,
                    new_addr,
                    field_name,
                ),
                IndirectionView::Index(idx) => {
                    let target = new_addr + spec_size_at(nodes, r.kind as int) * idx;
                    if target > usize::MAX {
                        Err(spec_err(field_name, ErrorKindView::Deref { old_addr: address }))
                    } else {
                        spec_access_at(nodes, base, data, r.kind as int, path, target, field_name)
                    }
                },
                IndirectionView::Field(_) => Err(
                    spec_err(
                        field_name,
                        ErrorKindView::Operation {
                            op: spec_operator(unit),
                            kind: r.kind as int,
                        },
                    ),
                ),
            }
        },
    }
}

/// Find the first span named `name`, scanning segments in order while
/// accumulating the absolute address; returns the span's composite index
/// and start address.
pub open spec fn spec_find_span(
    nodes: Seq<KindView>,
    segs: Seq<Segment>,
    name: Seq<char>,
    i: int,
    addr: int,
) -> Option<(int, int)>
    decreases segs.len() - i,
{
    if i < 0 || i >= segs.len() {
        None
    } else {
        match segs[i] {
            Segment::Chop(_, _) => spec_find_span(nodes, segs, name, i + 1, addr),
            Segment::Skip(n, _) => spec_find_span(nodes, segs, name, i + 1, addr + n),
            Segment::Span(id) => if 0 <= id < nodes.len() && nodes[id as int] is Composite
                && nodes[id as int]->Composite_0.name == name {
                Some((id as int, addr))
            } else {
                spec_find_span(
                    nodes,
                    segs,
                    name,
                    i + 1,
                    addr + crate::mem_ribbon::spec_segment_width(nodes, segs[i]),
                )
            },
        }
    }
}

/// Resolution of a whole path against a ribbon: the first unit must name a
/// span, the second must select a field of that span's composite, and the
/// rest descends through the kind graph.
pub open spec fn spec_ribbon_get(
    nodes: Seq<KindView>,
    base: int,
    data: Seq<MemByte>,
    segs: Seq<Segment>,
    path: Seq<IndirectionView>,
) -> Result<PlaceView, ErrorView> {
    if path.len() == 0 {
        Err(spec_err("MemRibbon"@, ErrorKindView::DirectAccess))
    } else {
        match path[0] {
            IndirectionView::Field(span_name) => match spec_find_span(
                nodes,
                segs,
                span_name,
                0,
                base,
            ) {
                None => Err(
                    spec_err("MemRibbon"@, ErrorKindView::SubField { name: span_name }),
                ),
                Some((sid, saddr)) => if path.len() == 1 {
                    Err(spec_err("MemRibbonSpan"@, ErrorKindView::DirectAccess))
                } else {
                    match path[1] {
                        IndirectionView::Field(fname) => spec_composite_access(
                            nodes,
                            base,
                            data,
                            sid,
                            nodes[sid]->Composite_0,
                            IndirectionView::Field(fname),
                            path.skip(2),
                            saddr,
                            fname,
                        ),
                        u => Err(
                            spec_err("MemRibbonSpan"@, ErrorKindView::RibbonOp {
                                op: spec_operator(u),
                            }),
                        ),
                    }
                },
            },
            u => Err(spec_err("MemRibbon"@, ErrorKindView::RibbonOp { op: spec_operator(u) })),
        }
    }
}

/// Law: resolution is a pure function of the arena, the ribbon and the
/// path, so resolving the same path twice against an unmodified ribbon
/// yields identical places or identical errors.
pub proof fn lemma_resolution_deterministic(
    nodes: Seq<KindView>,
    base: int,
    data: Seq<MemByte>,
    segs: Seq<Segment>,
    path: Seq<IndirectionView>,
    r1: Result<PlaceValue, Error>,
    r2: Result<PlaceValue, Error>,
)
    requires
        spec_result_view(r1) == spec_ribbon_get(nodes, base, data, segs, path),
        spec_result_view(r2) == spec_ribbon_get(nodes, base, data, segs, path),
    ensures
        spec_result_view(r1) == spec_result_view(r2),
        r1 is Ok <==> r2 is Ok,
        r1 is Ok ==> r1->Ok_0 == r2->Ok_0,
{
    match (r1, r2) {
        (Ok(p1), Ok(p2)) => {
            assert(p1@ == p2@);
            assert(p1.kind == p2.kind && p1.address == p2.address);
        },
        _ => {},
    }
}

} // verus!
