//! By-reference and by-pointer indirection to another kind.

use vstd::prelude::*;
use crate::access::{
    spec_access_ptr, spec_access_ref, spec_result_view, Error, ErrorKind, Indirection, PlaceValue,
    Trace,
};
use crate::kind::{Kind, KindArena};
use crate::mem_ribbon::MemRibbon;
use crate::primitive::{Primitive, PrimValue};

verus! {

/// How an indirection behaves in an access path: a `Ref` follows to its
/// target transparently on field access, a `Ptr` requires an explicit
/// `*`, `[idx]` or `->` to dereference.
#[derive(Clone, Copy, Debug, PartialEq, Eq, Structural)]
pub enum Mode {
    Ref,
    Ptr,
}

/// An indirection to the kind at index `kind`. Whatever its target, it
/// occupies `Primitive::Size` bytes: a 4-byte address in this model.
#[derive(Clone, Copy, Debug, PartialEq, Eq, Structural)]
pub struct Reference {
    pub mode: Mode,
    pub kind: usize,
}

impl Reference {
    pub fn new(mode: Mode, kind: usize) -> (r: Reference)
        ensures
            r == (Reference { mode, kind }),
    {
        Reference { mode, kind }
    }

    /// References store an address and occupy `Primitive::Size` bytes.
    pub fn size_of(&self) -> (n: u16)
        ensures
            n as nat == Primitive::Size.spec_size_of(),
    {
        Primitive::Size.size_of()
    }

    pub fn align_of(&self) -> (n: u16)
        ensures
            n as nat == Primitive::Size.spec_size_of(),
    {
        Primitive::Size.size_of()
    }

    /// The target's display name suffixed with `&` or `*`.
    pub fn name_string(&self, arena: &KindArena) -> (r: String)
        requires
            arena.wf(),
            self.kind < arena@.len(),
        ensures
            r@ == crate::kind::spec_name_at(arena@, self.kind as int) + (match self.mode {
                Mode::Ref => "&"@,
                Mode::Ptr => "*"@,
            }),
    {
        let mut s = arena.name_of(self.kind);
        match self.mode {
            Mode::Ref => s.append("&"),
            Mode::Ptr => s.append("*"),
        }
        s
    }

    /// The category shown in error context: "reference" or "pointer".
    pub fn variant_str(&self) -> (r: &'static str)
        ensures
            r@ == spec_ref_mode_str(self.mode),
    {
        match self.mode {
            Mode::Ref => "reference",
            Mode::Ptr => "pointer",
        }
    }
}

impl Reference {
    /// By-reference access: transparently read the stored address, then
    /// require the target to be a composite and delegate the same field
    /// unit to it.
    pub fn access_ref(
        &self,
        arena: &KindArena,
        ribbon: &MemRibbon,
        unit: Indirection,
        trace: Trace,
    ) -> (r: Result<PlaceValue, Error>)
        requires
            arena.wf(),
            arena.sizes_fit(),
            self.kind < arena@.len(),
        ensures
            spec_result_view(r) == spec_access_ref(
                arena@,
                ribbon.base_adr as int,
                ribbon.data@,
                *self,
                unit@,
                trace.path@,
                trace.address as int,
                trace.field_name@,
            ),
        decreases trace.path.0@.len(), 2int, 0int,
    {
        if !unit.is_field() {
            let ek = ErrorKind::operation(&unit, self.kind);
            return Err(Error::at(trace.field_name, ek));
        }
        match Primitive::Size.parse_at(ribbon, trace.address) {
            None => Err(Error::at(trace.field_name, ErrorKind::Deref { old_addr: trace.address })),
            Some(v) => {
                let addr = match v {
                    PrimValue::Size(a) => a,
                    _ => vstd::pervasive::unreached(),
                };
                match arena.get(self.kind) {
                    Kind::Composite(c) => {
                        proof {
                            crate::kind::lemma_node_comp_layout(arena@, self.kind as int);
                            assert(crate::kind::spec_node_wf(arena@, self.kind as int));
                            assert(crate::kind::spec_size_at(arena@, self.kind as int)
                                <= u16::MAX);
                            assert forall|j: int|
                                0 <= j < c@.fields.len() implies crate::kind::spec_field_wf(
                                arena@,
                                arena@.len() as int,
                                #[trigger] c@.fields[j],
                            ) by {
                                assert(crate::kind::spec_field_wf(
                                    arena@,
                                    self.kind as int,
                                    c@.fields[j],
                                ));
                            }
                        }
                        let mut trace = trace;
                        trace.address = addr as usize;
                        c.access_with(arena, ribbon, self.kind, unit, trace)
                    },
                    _ => {
                        let ek = ErrorKind::operation(&unit, self.kind);
                        Err(Error::at(trace.field_name, ek))
                    },
                }
            },
        }
    }

    /// By-pointer access: read the stored address, then require an explicit
    /// arrow, dereference or index unit.
    pub fn access_ptr(
        &self,
        arena: &KindArena,
        ribbon: &MemRibbon,
        unit: Indirection,
        trace: Trace,
    ) -> (r: Result<PlaceValue, Error>)
        requires
            arena.wf(),
            arena.sizes_fit(),
            self.kind < arena@.len(),
        ensures
            spec_result_view(r) == spec_access_ptr(
                arena@,
                ribbon.base_adr as int,
                ribbon.data@,
                *self,
                unit@,
                trace.path@,
                trace.address as int,
                trace.field_name@,
            ),
        decreases trace.path.0@.len(), 2int, 0int,
    {
        match Primitive::Size.parse_at(ribbon, trace.address) {
            None => Err(Error::at(trace.field_name, ErrorKind::Deref { old_addr: trace.address })),
            Some(v) => {
                let addr = match v {
                    PrimValue::Size(a) => a,
                    _ => vstd::pervasive::unreached(),
                };
                let new_addr = addr as usize;
                match unit {
                    Indirection::Arrow(fname) => match arena.get(self.kind) {
                        Kind::Composite(c) => {
                            proof {
                                crate::kind::lemma_node_comp_layout(arena@, self.kind as int);
                                assert(crate::kind::spec_node_wf(arena@, self.kind as int));
                                assert(crate::kind::spec_size_at(arena@, self.kind as int)
                                    <= u16::MAX);
                                assert forall|j: int|
                                    0 <= j < c@.fields.len() implies crate::kind::spec_field_wf(
                                    arena@,
                                    arena@.len() as int,
                                    #[trigger] c@.fields[j],
                                ) by {
                                    assert(crate::kind::spec_field_wf(
                                        arena@,
                                        self.kind as int,
                                        c@.fields[j],
                                    ));
                                }
                            }
                            let mut trace = trace;
                            trace.address = new_addr;
                            c.access_with(arena, ribbon, self.kind, Indirection::Field(fname), trace)
                        },
                        _ => Err(
                            Error::at(trace.field_name, ErrorKind::Arrow { kind: self.kind }),
                        ),
                    },
                    Indirection::Deref => {
                        let mut trace = trace;
                        trace.address = new_addr;
                        arena.access(ribbon, self.kind, trace)
                    },
                    Indirection::Index(idx) => {
                        let elem = arena.size_of(self.kind);
                        match (elem as usize).checked_mul(idx) {
                            None => Err(
                                Error::at(
                                    trace.field_name,
                                    ErrorKind::Deref { old_addr: trace.address },
                                ),
                            ),
                            Some(d) => match new_addr.checked_add(d) {
                                None => Err(
                                    Error::at(
                                        trace.field_name,
                                        ErrorKind::Deref { old_addr: trace.address },
                                    ),
                                ),
                                Some(target) => {
                                    let mut trace = trace;
                                    trace.address = target;
                                    arena.access(ribbon, self.kind, trace)
                                },
                            },
                        }
                    },
                    Indirection::Field(_) => {
                        let ek = ErrorKind::operation(&unit, self.kind);
                        Err(Error::at(trace.field_name, ek))
                    },
                }
            },
        }
    }

    /// Dispatch by mode.
    pub fn access_with(
        &self,
        arena: &KindArena,
        ribbon: &MemRibbon,
        unit: Indirection,
        trace: Trace,
    ) -> (r: Result<PlaceValue, Error>)
        requires
            arena.wf(),
            arena.sizes_fit(),
            self.kind < arena@.len(),
        ensures
            spec_result_view(r) == (match self.mode {
                Mode::Ref => spec_access_ref(
                    arena@,
                    ribbon.base_adr as int,
                    ribbon.data@,
                    *self,
                    unit@,
                    trace.path@,
                    trace.address as int,
                    trace.field_name@,
                ),
                Mode::Ptr => spec_access_ptr(
                    arena@,
                    ribbon.base_adr as int,
                    ribbon.data@,
                    *self,
                    unit@,
                    trace.path@,
                    trace.address as int,
                    trace.field_name@,
                ),
            }),
        decreases trace.path.0@.len(), 2int, 1int,
    {
        match self.mode {
            Mode::Ref => self.access_ref(arena, ribbon, unit, trace),
            Mode::Ptr => self.access_ptr(arena, ribbon, unit, trace),
        }
    }
}

pub open spec fn spec_ref_mode_str(m: Mode) -> Seq<char> {
    match m {
        Mode::Ref => "reference"@,
        Mode::Ptr => "pointer"@,
    }
}

} // verus!
