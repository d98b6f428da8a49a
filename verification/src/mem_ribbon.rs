//! The memory ribbon: a logically contiguous, byte-addressable buffer made
//! of presentation markers (chops), untyped reserved regions (skips) and
//! named typed regions (spans), with raw byte writes and typed reads.

use vstd::prelude::*;

use crate::access::{
    spec_find_span, spec_result_view, spec_ribbon_get, Error, ErrorKind, Indirection, Path,
    PlaceValue, Trace,
};
use crate::composite::{Composite, CompositeView, Field};
use crate::kind::{
    graph_wf, lemma_comp_size_parts, lemma_folds_guard_irrel, lemma_frame_folds,
    lemma_push_sizes_fit, spec_align_pad, spec_comp_align, spec_comp_base_size, spec_comp_size,
    spec_fields_wf, spec_kind_size, spec_kind_valid, spec_sizes_fit, align_pad_addr, Kind,
    KindArena, KindView,
};
use crate::primitive::{Primitive, PrimValue, spec_decode};

verus! {

/// One byte position of the ribbon: reserved but never written, marked
/// unbacked, or holding a written value.
#[derive(Clone, Copy, Debug, PartialEq, Eq, Structural)]
pub enum MemByte {
    Undefined,
    OutOfBounds,
    Byte(u8),
}

impl MemByte {
    /// The written value, if one is present.
    pub fn byte(&self) -> (r: Option<u8>)
        ensures
            r == (match *self {
                MemByte::Byte(b) => Some(b),
                _ => None,
            }),
    {
        match self {
            MemByte::Byte(b) => Some(*b),
            _ => None,
        }
    }

    /// Make the byte defined, storing `value`.
    pub fn writable(&mut self, value: u8)
        ensures
            *final(self) == MemByte::Byte(value),
    {
        *self = MemByte::Byte(value);
    }
}

/// One region of a ribbon. `Chop` shifts only the rendered position and
/// reserves no bytes; `Skip` reserves undefined bytes (the flag records
/// whether it is drawn as an ellipsis); `Span` reserves the bytes of the
/// composite at the given arena index.
#[derive(Clone, Copy, Debug)]
pub enum Segment {
    Chop(i64, i64),
    Skip(usize, bool),
    Span(usize),
}

/// A byte-addressable buffer starting at `base_adr`, whose shape is the
/// ordered list of segments and whose contents are `data`.
#[derive(Debug)]
pub struct MemRibbon {
    pub base_adr: usize,
    pub segments: Vec<Segment>,
    pub data: Vec<MemByte>,
}

// ---------------------------------------------------------------------------
// Shape of a ribbon.
// ---------------------------------------------------------------------------

/// The Product composite a span of `fields` is typed by.
pub open spec fn spec_span_comp(name: Seq<char>, fields: Seq<crate::composite::FieldView>) -> CompositeView {
    CompositeView { name, mode: crate::composite::Mode::Product, fields }
}

/// A span must name a composite node of the arena.
pub open spec fn spec_segment_wf(nodes: Seq<KindView>, seg: Segment) -> bool {
    match seg {
        Segment::Span(id) => id < nodes.len() && nodes[id as int] is Composite,
        _ => true,
    }
}

/// The bytes a segment reserves: none for a chop, the skip count, or the
/// span composite's extent without trailing padding.
pub open spec fn spec_segment_width(nodes: Seq<KindView>, seg: Segment) -> nat {
    match seg {
        Segment::Chop(_, _) => 0,
        Segment::Skip(n, _) => n as nat,
        Segment::Span(id) => if id < nodes.len() && nodes[id as int] is Composite {
            spec_comp_base_size(nodes, nodes.len() as int, nodes[id as int]->Composite_0)
        } else {
            0
        },
    }
}

/// Total bytes reserved by the first `n` segments.
pub open spec fn spec_prefix_width(nodes: Seq<KindView>, segs: Seq<Segment>, n: int) -> nat
    decreases n,
{
    if n <= 0 {
        0
    } else {
        spec_prefix_width(nodes, segs, n - 1) + spec_segment_width(nodes, segs[n - 1])
    }
}

impl MemRibbon {
    /// The ribbon's bytes are exactly what its segments reserved, every span
    /// names a composite of the arena, and the ribbon's extent fits the
    /// address space.
    pub open spec fn wf(self, nodes: Seq<KindView>) -> bool {
        &&& self.base_adr + self.data@.len() <= usize::MAX
        &&& forall|i: int|
            0 <= i < self.segments@.len() ==> spec_segment_wf(nodes, #[trigger] self.segments@[i])
        &&& self.data@.len() == spec_prefix_width(nodes, self.segments@, self.segments@.len() as int)
    }
}

/// A segment's width is unchanged by appending a node to the arena.
pub proof fn lemma_segment_width_push(nodes: Seq<KindView>, k: KindView, seg: Segment)
    requires
        graph_wf(nodes),
        spec_segment_wf(nodes, seg),
    ensures
        spec_segment_wf(nodes.push(k), seg),
        spec_segment_width(nodes.push(k), seg) == spec_segment_width(nodes, seg),
{
    let bigger = nodes.push(k);
    match seg {
        Segment::Span(id) => {
            assert(bigger[id as int] == nodes[id as int]);
            let c = nodes[id as int]->Composite_0;
            assert(crate::kind::spec_node_wf(nodes, id as int));
            assert forall|j: int| 0 <= j < c.fields.len() implies crate::kind::spec_field_wf(
                nodes,
                nodes.len() as int,
                #[trigger] c.fields[j],
            ) by {
                assert(crate::kind::spec_field_wf(nodes, id as int, c.fields[j]));
            }
            lemma_frame_folds(nodes, k, nodes.len() as int, c.fields, c.fields.len() as int);
            assert forall|j: int| 0 <= j < c.fields.len() implies crate::kind::spec_field_wf(
                bigger,
                bigger.len() as int,
                #[trigger] c.fields[j],
            ) by {}
            assert forall|j: int| 0 <= j < c.fields.len() implies crate::kind::spec_field_wf(
                bigger,
                nodes.len() as int,
                #[trigger] c.fields[j],
            ) by {
                assert(bigger[c.fields[j].kind] == nodes[c.fields[j].kind]);
            }
            lemma_folds_guard_irrel(
                bigger,
                nodes.len() as int,
                bigger.len() as int,
                c.fields,
                c.fields.len() as int,
            );
            lemma_comp_size_parts(nodes, nodes.len() as int, c);
            lemma_comp_size_parts(bigger, nodes.len() as int, c);
            lemma_comp_size_parts(bigger, bigger.len() as int, c);
        },
        _ => {},
    }
}

/// Prefix widths are unchanged by appending a node to the arena.
pub proof fn lemma_prefix_width_push(nodes: Seq<KindView>, k: KindView, segs: Seq<Segment>, n: int)
    requires
        graph_wf(nodes),
        n <= segs.len(),
        forall|i: int| 0 <= i < segs.len() ==> spec_segment_wf(nodes, #[trigger] segs[i]),
    ensures
        spec_prefix_width(nodes.push(k), segs, n) == spec_prefix_width(nodes, segs, n),
    decreases n,
{
    if n > 0 {
        lemma_prefix_width_push(nodes, k, segs, n - 1);
        lemma_segment_width_push(nodes, k, segs[n - 1]);
    }
}

/// Prefix widths only look at the segments they cover.
pub proof fn lemma_prefix_width_append(
    nodes: Seq<KindView>,
    segs: Seq<Segment>,
    seg: Segment,
    n: int,
)
    requires
        n <= segs.len(),
    ensures
        spec_prefix_width(nodes, segs.push(seg), n) == spec_prefix_width(nodes, segs, n),
    decreases n,
{
    if n > 0 {
        lemma_prefix_width_append(nodes, segs, seg, n - 1);
        assert(segs.push(seg)[n - 1] == segs[n - 1]);
    }
}

/// Prefix widths never shrink as more segments are covered.
pub proof fn lemma_prefix_width_monotone(
    nodes: Seq<KindView>,
    segs: Seq<Segment>,
    n1: int,
    n2: int,
)
    requires
        n1 <= n2,
    ensures
        spec_prefix_width(nodes, segs, n1) <= spec_prefix_width(nodes, segs, n2),
    decreases n2,
{
    if n2 > 0 && n1 < n2 {
        lemma_prefix_width_monotone(nodes, segs, n1, n2 - 1);
    }
}

/// A standalone composite's extent is unchanged by appending it (or any
/// node) to the arena.
pub proof fn lemma_comp_base_push(nodes: Seq<KindView>, k: KindView, c: CompositeView)
    requires
        graph_wf(nodes),
        spec_fields_wf(nodes, nodes.len() as int, c.fields),
    ensures
        spec_comp_base_size(nodes.push(k), nodes.push(k).len() as int, c) == spec_comp_base_size(
            nodes,
            nodes.len() as int,
            c,
        ),
        spec_comp_align(nodes.push(k), nodes.push(k).len() as int, c) == spec_comp_align(
            nodes,
            nodes.len() as int,
            c,
        ),
{
    let bigger = nodes.push(k);
    lemma_frame_folds(nodes, k, nodes.len() as int, c.fields, c.fields.len() as int);
    assert forall|j: int| 0 <= j < c.fields.len() implies crate::kind::spec_field_wf(
        bigger,
        bigger.len() as int,
        #[trigger] c.fields[j],
    ) by {}
    assert forall|j: int| 0 <= j < c.fields.len() implies crate::kind::spec_field_wf(
        bigger,
        nodes.len() as int,
        #[trigger] c.fields[j],
    ) by {
        assert(bigger[c.fields[j].kind] == nodes[c.fields[j].kind]);
    }
    lemma_folds_guard_irrel(
        bigger,
        nodes.len() as int,
        bigger.len() as int,
        c.fields,
        c.fields.len() as int,
    );
    lemma_comp_size_parts(nodes, nodes.len() as int, c);
    lemma_comp_size_parts(bigger, nodes.len() as int, c);
    lemma_comp_size_parts(bigger, bigger.len() as int, c);
}

/// A ribbon stays well formed when the arena grows.
pub proof fn lemma_ribbon_wf_push(ribbon: MemRibbon, nodes: Seq<KindView>, k: KindView)
    requires
        graph_wf(nodes),
        ribbon.wf(nodes),
    ensures
        ribbon.wf(nodes.push(k)),
{
    assert forall|i: int| 0 <= i < ribbon.segments@.len() implies spec_segment_wf(
        nodes.push(k),
        #[trigger] ribbon.segments@[i],
    ) by {
        lemma_segment_width_push(nodes, k, ribbon.segments@[i]);
    }
    lemma_prefix_width_push(nodes, k, ribbon.segments@, ribbon.segments@.len() as int);
}

// ---------------------------------------------------------------------------
// Reading and writing bytes.
// ---------------------------------------------------------------------------

/// The bytes read from `address`: defined only when the whole range lies
/// inside the ribbon and every byte of it has been written.
pub open spec fn spec_bytes_at(base: int, data: Seq<MemByte>, address: int, size: nat) -> Option<
    Seq<u8>,
> {
    if base <= address && address + size <= base + data.len() && (forall|k: int|
        0 <= k < size ==> #[trigger] data[address - base + k] is Byte) {
        Some(Seq::new(size, |k: int| data[address - base + k]->Byte_0))
    } else {
        None
    }
}

/// The ribbon contents after writing `bytes` at `address`: every byte of the
/// ribbon covered by the write becomes defined, bytes falling before the
/// ribbon's base or past its end are dropped, and everything else is kept.
pub open spec fn spec_write(data: Seq<MemByte>, base: int, address: int, bytes: Seq<u8>) -> Seq<
    MemByte,
> {
    Seq::new(
        data.len(),
        |j: int|
            if address - base <= j < address - base + bytes.len() {
                MemByte::Byte(bytes[j - (address - base)])
            } else {
                data[j]
            },
    )
}

/// The typed value a primitive reads back at `address`.
pub open spec fn spec_parse_at(base: int, data: Seq<MemByte>, p: Primitive, address: int) -> Option<
    PrimValue,
> {
    match spec_bytes_at(base, data, address, p.spec_size_of()) {
        Some(bs) => Some(spec_decode(p, bs)),
        None => None,
    }
}

/// Law: writing a value and reading it back at the same address and type
/// returns an equal value, whenever the value's bytes lie inside the ribbon.
pub proof fn lemma_write_read_roundtrip(data: Seq<MemByte>, base: int, address: int, v: PrimValue)
    requires
        base <= address,
        address + v.spec_primitive().spec_size_of() <= base + data.len(),
    ensures
        spec_parse_at(
            base,
            spec_write(data, base, address, v.spec_bytes()),
            v.spec_primitive(),
            address,
        ) == Some(v),
{
    crate::primitive::lemma_prim_bytes_len(v);
    let bytes = v.spec_bytes();
    let size = v.spec_primitive().spec_size_of();
    let written = spec_write(data, base, address, bytes);
    assert forall|k: int| 0 <= k < size implies #[trigger] written[address - base + k] is Byte by {}
    let got = spec_bytes_at(base, written, address, size);
    assert(got == Some(Seq::new(size, |k: int| written[address - base + k]->Byte_0)));
    assert(Seq::new(size, |k: int| written[address - base + k]->Byte_0) =~= bytes);
    crate::primitive::lemma_decode_bytes_roundtrip(v);
}

/// Extend `data` with `n` undefined bytes.
fn extend_undefined(data: &mut Vec<MemByte>, n: usize)
    requires
        old(data)@.len() + n <= usize::MAX,
    ensures
        final(data)@ =~= old(data)@ + Seq::new(n as nat, |i: int| MemByte::Undefined),
{
    let mut i: usize = 0;
    while i < n
        invariant
            i <= n,
            data@.len() + n <= usize::MAX + i,
            data@ =~= old(data)@ + Seq::new(i as nat, |j: int| MemByte::Undefined),
        decreases n - i,
    {
        data.push(MemByte::Undefined);
        proof {
            assert(data@ =~= old(data)@ + Seq::new((i + 1) as nat, |j: int| MemByte::Undefined));
        }
        i = i + 1;
    }
}

impl MemRibbon {
    /// An empty ribbon starting at `base_adr`.
    pub fn new(base_adr: usize) -> (r: MemRibbon)
        ensures
            r.base_adr == base_adr,
            r.segments@ =~= Seq::<Segment>::empty(),
            r.data@ =~= Seq::<MemByte>::empty(),
            forall|nodes: Seq<KindView>| r.wf(nodes),
    {
        let r = MemRibbon { base_adr, segments: Vec::new(), data: Vec::new() };
        proof {
            assert forall|nodes: Seq<KindView>| r.wf(nodes) by {}
        }
        r
    }

    /// Record a rendering offset; reserves no bytes.
    pub fn chop(self, dx: i64, dy: i64) -> (r: MemRibbon)
        ensures
            r.base_adr == self.base_adr,
            r.segments@ =~= self.segments@.push(Segment::Chop(dx, dy)),
            r.data@ == self.data@,
            forall|nodes: Seq<KindView>| self.wf(nodes) ==> r.wf(nodes),
    {
        let ghost segs0 = self.segments@;
        let ghost start = self;
        let mut r = self;
        r.segments.push(Segment::Chop(dx, dy));
        proof {
            assert forall|nodes: Seq<KindView>| start.wf(nodes) implies r.wf(nodes) by {
                lemma_prefix_width_append(nodes, segs0, Segment::Chop(dx, dy), segs0.len() as int);
            }
        }
        r
    }

    /// Reserve `offset` undefined bytes of padding.
    pub fn skip(&mut self, offset: usize)
        requires
            old(self).base_adr + old(self).data@.len() + offset <= usize::MAX,
        ensures
            final(self).base_adr == old(self).base_adr,
            final(self).segments@ =~= old(self).segments@.push(Segment::Skip(offset, false)),
            final(self).data@ =~= old(self).data@ + Seq::new(
                offset as nat,
                |i: int| MemByte::Undefined,
            ),
            forall|nodes: Seq<KindView>| old(self).wf(nodes) ==> final(self).wf(nodes),
    {
        self.segments.push(Segment::Skip(offset, false));
        extend_undefined(&mut self.data, offset);
        proof {
            assert forall|nodes: Seq<KindView>| old(self).wf(nodes) implies self.wf(nodes) by {
                lemma_prefix_width_append(
                    nodes,
                    old(self).segments@,
                    Segment::Skip(offset, false),
                    old(self).segments@.len() as int,
                );
            }
        }
    }

    /// Reserve `offset` undefined bytes drawn as an elision marker.
    pub fn ellipse(self, offset: usize) -> (r: MemRibbon)
        requires
            self.base_adr + self.data@.len() + offset <= usize::MAX,
        ensures
            r.base_adr == self.base_adr,
            r.segments@ =~= self.segments@.push(Segment::Skip(offset, true)),
            r.data@ =~= self.data@ + Seq::new(offset as nat, |i: int| MemByte::Undefined),
            forall|nodes: Seq<KindView>| self.wf(nodes) ==> r.wf(nodes),
    {
        let ghost segs0 = self.segments@;
        let ghost start = self;
        let mut r = self;
        r.segments.push(Segment::Skip(offset, true));
        extend_undefined(&mut r.data, offset);
        proof {
            assert forall|nodes: Seq<KindView>| start.wf(nodes) implies r.wf(nodes) by {
                lemma_prefix_width_append(nodes, segs0, Segment::Skip(offset, true), segs0.len() as int);
            }
        }
        r
    }

    /// Append a named span typed by a Product composite of `fields`: the
    /// composite is added to the arena, the write cursor is padded up to its
    /// alignment with an automatic skip, and its extent (without trailing
    /// padding) is reserved as undefined bytes.
    pub fn span(self, arena: &mut KindArena, name: &str, fields: Vec<Field>) -> (r: MemRibbon)
        requires
            old(arena).wf(),
            old(arena).sizes_fit(),
            spec_fields_wf(
                old(arena)@,
                old(arena)@.len() as int,
                fields@.map_values(|f: Field| f@),
            ),
            spec_comp_size(
                old(arena)@,
                old(arena)@.len() as int,
                spec_span_comp(name@, fields@.map_values(|f: Field| f@)),
            ) <= u16::MAX,
            self.wf(old(arena)@),
            self.base_adr + self.data@.len() + spec_comp_align(
                old(arena)@,
                old(arena)@.len() as int,
                spec_span_comp(name@, fields@.map_values(|f: Field| f@)),
            ) + spec_comp_base_size(
                old(arena)@,
                old(arena)@.len() as int,
                spec_span_comp(name@, fields@.map_values(|f: Field| f@)),
            ) <= usize::MAX,
        ensures
            final(arena).wf(),
            final(arena).sizes_fit(),
            final(arena)@ =~= old(arena)@.push(
                KindView::Composite(spec_span_comp(name@, fields@.map_values(|f: Field| f@))),
            ),
            r.wf(final(arena)@),
            r.base_adr == self.base_adr,
            ({
                let cv = spec_span_comp(name@, fields@.map_values(|f: Field| f@));
                let pad = spec_align_pad(
                    self.base_adr + self.data@.len(),
                    spec_comp_align(old(arena)@, old(arena)@.len() as int, cv) as int,
                );
                let width = spec_comp_base_size(old(arena)@, old(arena)@.len() as int, cv);
                &&& r.segments@ =~= (if pad == 0 {
                    self.segments@
                } else {
                    self.segments@.push(Segment::Skip(pad as usize, false))
                }).push(Segment::Span(old(arena)@.len() as usize))
                &&& r.data@ =~= self.data@ + Seq::new(
                    (pad + width) as nat,
                    |i: int| MemByte::Undefined,
                )
            }),
    {
        let ghost nodes0 = arena@;
        let ghost fv = fields@.map_values(|f: Field| f@);
        let ghost cv = spec_span_comp(name@, fv);
        let comp = Composite::product(name, fields);
        proof {
            assert(comp@ == cv);
            crate::kind::lemma_base_le_size(nodes0, nodes0.len() as int, cv);
        }
        let align = comp.align_of(arena);
        let width = comp.size_of_no_end_pad(arena);
        let end = self.base_adr + self.data.len();
        let pad = align_pad_addr(end, align);
        proof {
            if align > 0 {
                crate::kind::lemma_pad_aligns(end as int, align as int);
            }
        }
        let ghost segs0 = self.segments@;
        let ghost data0 = self.data@;
        let ghost start = self;
        let mut r = self;
        if pad > 0 {
            r.skip(pad as usize);
        }
        let ghost segs1 = r.segments@;
        let ghost data1 = r.data@;
        let ghost r1 = r;
        let id = arena.push(Kind::comp(comp));
        proof {
            lemma_push_sizes_fit(nodes0, KindView::Composite(cv));
            lemma_ribbon_wf_push(r1, nodes0, KindView::Composite(cv));
        }
        extend_undefined(&mut r.data, width as usize);
        r.segments.push(Segment::Span(id));
        proof {
            let nodes1 = arena@;
            assert(nodes1 =~= nodes0.push(KindView::Composite(cv)));
            lemma_comp_base_push(nodes0, KindView::Composite(cv), cv);
            assert(spec_segment_wf(nodes1, Segment::Span(id)));
            assert(spec_segment_width(nodes1, Segment::Span(id)) == width as nat);
            assert forall|i: int| 0 <= i < r.segments@.len() implies spec_segment_wf(
                nodes1,
                #[trigger] r.segments@[i],
            ) by {
                if i < segs1.len() {
                    assert(r.segments@[i] == segs1[i]);
                    assert(spec_segment_wf(nodes0, segs1[i]));
                    lemma_segment_width_push(nodes0, KindView::Composite(cv), segs1[i]);
                }
            }
            lemma_prefix_width_append(nodes1, segs1, Segment::Span(id), segs1.len() as int);
            assert(r.segments@ =~= segs1.push(Segment::Span(id)));
            assert(spec_prefix_width(nodes1, r.segments@, r.segments@.len() as int)
                == spec_prefix_width(nodes1, segs1, segs1.len() as int) + width as nat);
            assert(r.data@ =~= data0 + Seq::new((pad + width) as nat, |i: int| MemByte::Undefined));
        }
        r
    }

    /// The bytes at `[address, address + size)`, or `None` when any byte of
    /// the range lies outside the ribbon or has never been written.
    pub fn bytes_at(&self, address: usize, size: usize) -> (r: Option<Vec<u8>>)
        ensures
            match r {
                Some(v) => spec_bytes_at(self.base_adr as int, self.data@, address as int, size as nat)
                    == Some(v@),
                None => spec_bytes_at(self.base_adr as int, self.data@, address as int, size as nat)
                    is None,
            },
    {
        if address < self.base_adr {
            return None;
        }
        let start = address - self.base_adr;
        if size > self.data.len() || start > self.data.len() - size {
            return None;
        }
        let dlen = self.data.len();
        let mut out: Vec<u8> = Vec::new();
        let mut k: usize = 0;
        while k < size
            invariant
                k <= size,
                start + size <= dlen,
                dlen == self.data@.len(),
                start == address - self.base_adr,
                out@.len() == k,
                forall|j: int|
                    0 <= j < k ==> #[trigger] self.data@[start + j] is Byte && out@[j]
                        == self.data@[start + j]->Byte_0,
            decreases size - k,
        {
            match self.data[start + k] {
                MemByte::Byte(b) => out.push(b),
                _ => {
                    return None;
                },
            }
            k = k + 1;
        }
        proof {
            assert(Seq::new(
                size as nat,
                |j: int| self.data@[address - self.base_adr + j]->Byte_0,
            ) =~= out@);
        }
        Some(out)
    }

    /// Write the value's little-endian bytes starting at `address`. Bytes
    /// that would fall before the ribbon's base or past its end are silently
    /// dropped; everything else in the ribbon is unchanged.
    pub fn write_at(&mut self, address: usize, value: PrimValue)
        ensures
            final(self).base_adr == old(self).base_adr,
            final(self).segments@ == old(self).segments@,
            final(self).data@ =~= spec_write(
                old(self).data@,
                old(self).base_adr as int,
                address as int,
                value.spec_bytes(),
            ),
    {
        let bytes = value.bytes();
        let base = self.base_adr;
        let start: usize;
        let src0: usize;
        if address < base {
            start = 0;
            let skip_src = base - address;
            if skip_src >= bytes.len() {
                return;
            }
            src0 = skip_src;
        } else {
            src0 = 0;
            start = address - base;
            if start >= self.data.len() {
                return;
            }
        }
        let n = bytes.len() - src0;
        let dlen = self.data.len();
        let avail = dlen - start;
        let m = if n < avail {
            n
        } else {
            avail
        };
        let blen = bytes.len();
        let mut i: usize = 0;
        while i < m
            invariant
                i <= m,
                start + m <= dlen,
                src0 + m <= blen,
                dlen == self.data@.len(),
                blen == bytes@.len(),
                self.data@.len() == old(self).data@.len(),
                self.base_adr == old(self).base_adr,
                self.segments@ == old(self).segments@,
                forall|j: int|
                    0 <= j < self.data@.len() ==> self.data@[j] == (if start <= j < start + i {
                        MemByte::Byte(bytes@[src0 + (j - start)])
                    } else {
                        old(self).data@[j]
                    }),
            decreases m - i,
        {
            let b = bytes[src0 + i];
            self.data[start + i] = MemByte::Byte(b);
            i = i + 1;
        }
        proof {
            assert(self.data@ =~= spec_write(
                old(self).data@,
                old(self).base_adr as int,
                address as int,
                value.spec_bytes(),
            ));
        }
    }

    /// Resolve an access path: its first unit must name one of the ribbon's
    /// spans (first match wins), its second must select a field of that
    /// span's composite, and the rest descends through the kind graph.
    pub fn get(&self, arena: &KindArena, path: Path) -> (r: Result<PlaceValue, Error>)
        requires
            arena.wf(),
            arena.sizes_fit(),
            self.wf(arena@),
        ensures
            spec_result_view(r) == spec_ribbon_get(
                arena@,
                self.base_adr as int,
                self.data@,
                self.segments@,
                path@,
            ),
    {
        let ghost path0 = path@;
        let mut path = path;
        let first = path.pop_front();
        let span_name: String = match first {
            Some(Indirection::Field(n)) => n,
            Some(ind) => {
                let ek = ErrorKind::ribbon_op(&ind);
                return Err(Error::at("MemRibbon".to_owned(), ek));
            },
            None => {
                return Err(Error::at("MemRibbon".to_owned(), ErrorKind::DirectAccess));
            },
        };
        let nsegs = self.segments.len();
        let mut address: usize = self.base_adr;
        let mut i: usize = 0;
        let mut matched: bool = false;
        let mut sid: usize = 0;
        while i < nsegs && !matched
            invariant
                arena.wf(),
                arena.sizes_fit(),
                self.wf(arena@),
                nsegs == self.segments@.len(),
                i <= nsegs,
                !matched ==> address as int == self.base_adr + spec_prefix_width(
                    arena@,
                    self.segments@,
                    i as int,
                ),
                !matched ==> spec_find_span(
                    arena@,
                    self.segments@,
                    span_name@,
                    0,
                    self.base_adr as int,
                ) == spec_find_span(arena@, self.segments@, span_name@, i as int, address as int),
                matched ==> spec_find_span(
                    arena@,
                    self.segments@,
                    span_name@,
                    0,
                    self.base_adr as int,
                ) == Some((sid as int, address as int)),
                matched ==> sid < arena@.len() && arena@[sid as int] is Composite,
            decreases nsegs - i, (if matched { 0int } else { 1int }),
        {
            proof {
                assert(spec_segment_wf(arena@, self.segments@[i as int]));
                lemma_prefix_width_monotone(arena@, self.segments@, i + 1, nsegs as int);
            }
            match self.segments[i] {
                Segment::Chop(_, _) => {
                    i = i + 1;
                },
                Segment::Skip(n, _) => {
                    address = address + n;
                    i = i + 1;
                },
                Segment::Span(id) => {
                    let is_match = match arena.get(id) {
                        Kind::Composite(c) => c.name == span_name,
                        _ => vstd::pervasive::unreached(),
                    };
                    if is_match {
                        matched = true;
                        sid = id;
                    } else {
                        let w = match arena.get(id) {
                            Kind::Composite(c) => {
                                proof {
                                    crate::kind::lemma_node_comp_layout(arena@, id as int);
                                    assert(crate::kind::spec_node_wf(arena@, id as int));
                                    crate::kind::lemma_base_le_size(
                                        arena@,
                                        arena@.len() as int,
                                        c@,
                                    );
                                    assert forall|j: int|
                                        0 <= j < c@.fields.len() implies spec_fields_wf(
                                        arena@,
                                        arena@.len() as int,
                                        c@.fields,
                                    ) && crate::kind::spec_field_wf(
                                        arena@,
                                        arena@.len() as int,
                                        #[trigger] c@.fields[j],
                                    ) by {
                                        assert(crate::kind::spec_field_wf(
                                            arena@,
                                            id as int,
                                            c@.fields[j],
                                        ));
                                    }
                                }
                                c.size_of_no_end_pad(arena)
                            },
                            _ => vstd::pervasive::unreached(),
                        };
                        address = address + (w as usize);
                        i = i + 1;
                    }
                },
            }
        }
        if !matched {
            let name = span_name;
            return Err(Error::at("MemRibbon".to_owned(), ErrorKind::SubField { name }));
        }
        let second = path.pop_front();
        let unit = match second {
            None => {
                return Err(Error::at("MemRibbonSpan".to_owned(), ErrorKind::DirectAccess));
            },
            Some(u) => u,
        };
        let fname: String = match unit {
            Indirection::Field(n) => n,
            u => {
                let ek = ErrorKind::ribbon_op(&u);
                return Err(Error::at("MemRibbonSpan".to_owned(), ek));
            },
        };
        proof {
            assert(path@ =~= path0.skip(2));
        }
        let trace = Trace { path, address, field_name: fname.clone() };
        match arena.get(sid) {
            Kind::Composite(c) => {
                proof {
                    crate::kind::lemma_node_comp_layout(arena@, sid as int);
                    assert(crate::kind::spec_node_wf(arena@, sid as int));
                    assert(crate::kind::spec_size_at(arena@, sid as int) <= u16::MAX);
                    assert forall|j: int| 0 <= j < c@.fields.len() implies crate::kind::spec_field_wf(
                        arena@,
                        arena@.len() as int,
                        #[trigger] c@.fields[j],
                    ) by {
                        assert(crate::kind::spec_field_wf(arena@, sid as int, c@.fields[j]));
                    }
                }
                c.access_with(arena, self, sid, Indirection::Field(fname), trace)
            },
            _ => vstd::pervasive::unreached(),
        }
    }

    /// The place a path resolves to, for a path known to resolve; the
    /// convenience form of `get` for callers that have already checked it.
    pub fn at(&self, arena: &KindArena, path: Path) -> (r: PlaceValue)
        requires
            arena.wf(),
            arena.sizes_fit(),
            self.wf(arena@),
            spec_ribbon_get(arena@, self.base_adr as int, self.data@, self.segments@, path@)
                is Ok,
        ensures
            spec_ribbon_get(arena@, self.base_adr as int, self.data@, self.segments@, path@)
                matches Ok(p) && p == r@,
    {
        match self.get(arena, path) {
            Ok(p) => p,
            Err(_) => vstd::pervasive::unreached(),
        }
    }
}

} // verus!
