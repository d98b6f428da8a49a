//! Product (struct) and sum (union) aggregates of named or anonymous fields.

use vstd::prelude::*;

use crate::access::{
    spec_composite_access, spec_result_view, Error, ErrorKind, Indirection, PlaceValue, Trace,
};
use crate::mem_ribbon::MemRibbon;
use crate::kind::{
    align_pad_val, comp_align_guarded, comp_base_size_guarded, comp_size_guarded,
    exec_field_align, exec_field_bf, exec_field_size, lemma_fields_bf_mono,
    lemma_product_end_monotone, spec_comp_align, spec_comp_base_size, spec_comp_bf,
    spec_comp_offset_of, spec_comp_size, spec_field_size, spec_field_wf, spec_fields_bf,
    spec_fields_wf, spec_first_match, spec_mode_str, spec_pairs_view, spec_product_end,
    spec_type_of, KindArena,
};
use crate::primitive::Primitive;

verus! {

/// One member of a composite: an optional name and the index of its type
/// in the `KindArena`. Anonymous fields occupy space but cannot be named
/// in an access path.
#[derive(Debug, Clone)]
pub struct Field {
    pub name: Option<String>,
    pub kind: usize,
}

/// The mathematical image of a `Field`.
#[verifier::ext_equal]
pub struct FieldView {
    pub name: Option<Seq<char>>,
    pub kind: int,
}

impl View for Field {
    type V = FieldView;

    open spec fn view(&self) -> FieldView {
        FieldView {
            name: match self.name {
                Some(s) => Some(s@),
                None => None,
            },
            kind: self.kind as int,
        }
    }
}

impl Field {
    pub fn new(name: &str, kind: usize) -> (f: Field)
        ensures
            f@.name == Some(name@),
            f@.kind == kind as int,
    {
        Field { name: Some(name.to_owned()), kind }
    }

    /// A field that occupies space and advances offsets but is unreachable
    /// by name in an access path.
    pub fn anon(kind: usize) -> (f: Field)
        ensures
            f@.name is None,
            f@.kind == kind as int,
    {
        Field { name: None, kind }
    }

    /// The size of the field's type.
    pub fn size_of(&self, arena: &KindArena) -> (n: u16)
        requires
            arena.wf(),
            arena.sizes_fit(),
            spec_field_wf(arena@, arena@.len() as int, self@),
        ensures
            n as nat == spec_field_size(arena@, arena@.len() as int, self@),
    {
        exec_field_size(arena, arena.len(), self)
    }
}

/// Whether a composite lays its fields out sequentially (a C struct) or
/// overlays them all at offset zero (a C union).
#[derive(Clone, Copy, Debug, PartialEq, Eq, Structural)]
pub enum Mode {
    Product,
    Sum,
}

/// An aggregate type: a named, ordered collection of fields in Product or
/// Sum mode.
#[derive(Debug, Clone)]
pub struct Composite {
    pub name: String,
    pub mode: Mode,
    pub fields: Vec<Field>,
}

/// The mathematical image of a `Composite`.
#[verifier::ext_equal]
pub struct CompositeView {
    pub name: Seq<char>,
    pub mode: Mode,
    pub fields: Seq<FieldView>,
}

impl View for Composite {
    type V = CompositeView;

    open spec fn view(&self) -> CompositeView {
        CompositeView {
            name: self.name@,
            mode: self.mode,
            fields: self.fields@.map_values(|f: Field| f@),
        }
    }
}

impl Composite {
    pub fn new(name: &str, mode: Mode, fields: Vec<Field>) -> (c: Composite)
        ensures
            c@.name == name@,
            c@.mode == mode,
            c@.fields == fields@.map_values(|f: Field| f@),
    {
        Composite { name: name.to_owned(), mode, fields }
    }

    /// A Product-mode (struct) composite.
    pub fn product(name: &str, fields: Vec<Field>) -> (c: Composite)
        ensures
            c@.name == name@,
            c@.mode == Mode::Product,
            c@.fields == fields@.map_values(|f: Field| f@),
    {
        Composite::new(name, Mode::Product, fields)
    }

    pub fn name_string(&self) -> (r: String)
        ensures
            r@ == self@.name,
    {
        self.name.clone()
    }

    /// The category shown in error context: "struct" or "union".
    pub fn variant_str(&self) -> (r: &'static str)
        ensures
            r@ == spec_mode_str(self.mode),
    {
        match self.mode {
            Mode::Product => "struct",
            Mode::Sum => "union",
        }
    }

    /// Required alignment: the maximum of the fields' alignments, 0 when
    /// there are no fields.
    pub fn align_of(&self, arena: &KindArena) -> (n: u16)
        requires
            arena.wf(),
            spec_fields_wf(arena@, arena@.len() as int, self@.fields),
        ensures
            n as nat == spec_comp_align(arena@, arena@.len() as int, self@),
    {
        comp_align_guarded(arena, arena.len(), self)
    }

    /// The summed (Product) or maximal (Sum) extent of the fields, before
    /// any trailing padding to the composite's own alignment.
    pub fn size_of_no_end_pad(&self, arena: &KindArena) -> (n: u16)
        requires
            arena.wf(),
            arena.sizes_fit(),
            spec_fields_wf(arena@, arena@.len() as int, self@.fields),
            spec_comp_base_size(arena@, arena@.len() as int, self@) <= u16::MAX,
        ensures
            n as nat == spec_comp_base_size(arena@, arena@.len() as int, self@),
    {
        comp_base_size_guarded(arena, arena.len(), self)
    }

    /// Total size: the base extent padded up to the composite's alignment.
    pub fn size_of(&self, arena: &KindArena) -> (n: u16)
        requires
            arena.wf(),
            arena.sizes_fit(),
            spec_fields_wf(arena@, arena@.len() as int, self@.fields),
            spec_comp_size(arena@, arena@.len() as int, self@) <= u16::MAX,
        ensures
            n as nat == spec_comp_size(arena@, arena@.len() as int, self@),
    {
        comp_size_guarded(arena, arena.len(), self)
    }

    /// The byte offset of the named field: always 0 in Sum mode (all fields
    /// overlap); in Product mode the aligned running offset at the first
    /// field of that name, or `None` when no named field matches. Anonymous
    /// fields never match but still advance the offset.
    pub fn offset_of(&self, arena: &KindArena, field_name: &str) -> (r: Option<u16>)
        requires
            arena.wf(),
            arena.sizes_fit(),
            spec_fields_wf(arena@, arena@.len() as int, self@.fields),
            spec_comp_size(arena@, arena@.len() as int, self@) <= u16::MAX,
        ensures
            r matches Some(n) ==> spec_comp_offset_of(arena@, arena@.len() as int, self@, field_name@)
                == Some(n as nat),
            r is None ==> spec_comp_offset_of(arena@, arena@.len() as int, self@, field_name@) is None,
    {
        if matches!(self.mode, Mode::Sum) {
            return Some(0);
        }
        let guard = arena.len();
        let target: String = field_name.to_owned();
        let mut off: u16 = 0;
        let mut idx: usize = 0;
        proof {
            crate::kind::lemma_base_le_size(arena@, guard as int, self@);
        }
        while idx < self.fields.len()
            invariant
                arena.wf(),
                arena.sizes_fit(),
                spec_fields_wf(arena@, arena@.len() as int, self@.fields),
                guard == arena@.len(),
                idx <= self.fields@.len(),
                self@.fields.len() == self.fields@.len(),
                self@.mode == Mode::Product,
                target@ == field_name@,
                spec_product_end(arena@, guard as int, self@.fields, self@.fields.len() as int)
                    <= u16::MAX,
                off as nat == spec_product_end(arena@, guard as int, self@.fields, idx as int),
                spec_first_match(self@.fields, field_name@, 0) == spec_first_match(
                    self@.fields,
                    field_name@,
                    idx as int,
                ),
            decreases self.fields@.len() - idx,
        {
            assert(self@.fields[idx as int] == self.fields@[idx as int]@);
            let fa = exec_field_align(arena, guard, &self.fields[idx]);
            let fs = exec_field_size(arena, guard, &self.fields[idx]);
            proof {
                lemma_product_end_monotone(
                    arena@,
                    guard as int,
                    self@.fields,
                    idx + 1,
                    self@.fields.len() as int,
                );
            }
            let pad = align_pad_val(off, fa);
            let aligned = off + pad;
            let matched = match &self.fields[idx].name {
                Some(nm) => *nm == target,
                None => false,
            };
            if matched {
                return Some(aligned);
            }
            off = aligned + fs;
            idx = idx + 1;
        }
        None
    }

    /// Select a field of this composite (the composite sits at arena index
    /// `cid`, used in error reports): only a plain field unit is accepted;
    /// the field's offset advances the address and resolution descends into
    /// the field's kind.
    pub fn access_with(
        &self,
        arena: &KindArena,
        ribbon: &MemRibbon,
        cid: usize,
        unit: Indirection,
        trace: Trace,
    ) -> (r: Result<PlaceValue, Error>)
        requires
            arena.wf(),
            arena.sizes_fit(),
            spec_fields_wf(arena@, arena@.len() as int, self@.fields),
            spec_comp_size(arena@, arena@.len() as int, self@) <= u16::MAX,
        ensures
            spec_result_view(r) == spec_composite_access(
                arena@,
                ribbon.base_adr as int,
                ribbon.data@,
                cid as int,
                self@,
                unit@,
                trace.path@,
                trace.address as int,
                trace.field_name@,
            ),
        decreases trace.path.0@.len(), 1int, 0int,
    {
        let subfield: &str = match unit.as_field() {
            Some(s) => s,
            None => {
                let ek = ErrorKind::operation(&unit, cid);
                return Err(Error::at(trace.field_name, ek));
            },
        };
        match self.type_of(subfield) {
            None => {
                let name = subfield.to_owned();
                Err(Error::at(trace.field_name, ErrorKind::SubField { name }))
            },
            Some(kid) => {
                proof {
                    crate::kind::lemma_first_match_props(self@.fields, subfield@, 0);
                }
                match self.offset_of(arena, subfield) {
                    None => {
                        let name = subfield.to_owned();
                        Err(Error::at(trace.field_name, ErrorKind::SubField { name }))
                    },
                    Some(off) => {
                        match trace.address.checked_add(off as usize) {
                            None => Err(
                                Error::at(
                                    trace.field_name,
                                    ErrorKind::Deref { old_addr: trace.address },
                                ),
                            ),
                            Some(new_addr) => {
                                let mut trace = trace;
                                trace.address = new_addr;
                                arena.access(ribbon, kid, trace)
                            },
                        }
                    },
                }
            },
        }
    }

    /// Flatten this composite into its ordered (absolute address, scalar)
    /// leaves: every field in sequence for a Product, only the first field
    /// for a Sum. Each field pads the cursor to its own alignment; the
    /// composite adds no padding of its own here.
    pub fn base_fields(&self, arena: &KindArena, address: &mut usize) -> (v: Vec<(usize, Primitive)>)
        requires
            arena.wf(),
            arena.sizes_fit(),
            spec_fields_wf(arena@, arena@.len() as int, self@.fields),
            spec_comp_bf(arena@, self@, *old(address) as int).1 <= usize::MAX,
        ensures
            spec_pairs_view(v@) =~= spec_comp_bf(arena@, self@, *old(address) as int).0,
            *final(address) as int == spec_comp_bf(arena@, self@, *old(address) as int).1,
    {
        let guard = arena.len();
        let ghost start = *address as int;
        let mut v: Vec<(usize, Primitive)> = Vec::new();
        if matches!(self.mode, Mode::Sum) {
            if self.fields.len() > 0 {
                assert(self@.fields[0] == self.fields@[0]@);
                exec_field_bf(arena, guard, &self.fields[0], address, &mut v);
            }
            return v;
        }
        let mut idx: usize = 0;
        while idx < self.fields.len()
            invariant
                arena.wf(),
                arena.sizes_fit(),
                spec_fields_wf(arena@, arena@.len() as int, self@.fields),
                guard == arena@.len(),
                idx <= self.fields@.len(),
                self@.fields.len() == self.fields@.len(),
                self@.mode == Mode::Product,
                spec_fields_bf(arena@, guard as int, self@.fields, self@.fields.len() as int, start).1
                    <= usize::MAX,
                spec_pairs_view(v@) =~= spec_fields_bf(
                    arena@,
                    guard as int,
                    self@.fields,
                    idx as int,
                    start,
                ).0,
                *address as int == spec_fields_bf(
                    arena@,
                    guard as int,
                    self@.fields,
                    idx as int,
                    start,
                ).1,
            decreases self.fields@.len() - idx,
        {
            assert(self@.fields[idx as int] == self.fields@[idx as int]@);
            proof {
                lemma_fields_bf_mono(
                    arena@,
                    guard as int,
                    self@.fields,
                    idx + 1,
                    self@.fields.len() as int,
                    start,
                );
            }
            exec_field_bf(arena, guard, &self.fields[idx], address, &mut v);
            idx = idx + 1;
        }
        v
    }

    /// The type of the first field with the given name.
    pub fn type_of(&self, field_name: &str) -> (r: Option<usize>)
        ensures
            r matches Some(k) ==> spec_type_of(self@.fields, field_name@) == Some(k as int),
            r is None ==> spec_type_of(self@.fields, field_name@) is None,
    {
        let target: String = field_name.to_owned();
        let mut idx: usize = 0;
        while idx < self.fields.len()
            invariant
                idx <= self.fields@.len(),
                self@.fields.len() == self.fields@.len(),
                target@ == field_name@,
                spec_first_match(self@.fields, field_name@, 0) == spec_first_match(
                    self@.fields,
                    field_name@,
                    idx as int,
                ),
            decreases self.fields@.len() - idx,
        {
            assert(self@.fields[idx as int] == self.fields@[idx as int]@);
            let matched = match &self.fields[idx].name {
                Some(nm) => *nm == target,
                None => false,
            };
            if matched {
                assert(self@.fields[idx as int].name == Some(field_name@));
                return Some(self.fields[idx].kind);
            }
            idx = idx + 1;
        }
        None
    }
}

} // verus!
