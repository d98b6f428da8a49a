//! Fixed-count homogeneous repetition of a kind.

use vstd::prelude::*;
use crate::access::{spec_result_view, Error, ErrorKind, Indirection, PlaceValue, Trace};
use crate::kind::{
    align_pad_addr, lemma_array_bf_end_ge, lemma_array_bf_mono, lemma_bf_end_ge, spec_align_at,
    spec_align_pad, spec_array_bf, spec_pairs_view, spec_size_at, KindArena,
};
use crate::mem_ribbon::MemRibbon;
use crate::primitive::Primitive;

verus! {

/// `size` consecutive elements of the kind at index `kind`.
#[derive(Clone, Copy, Debug, PartialEq, Eq, Structural)]
pub struct Array {
    pub kind: usize,
    pub size: usize,
}

impl Array {
    /// Total size: element size times element count.
    pub fn size_of(&self, arena: &KindArena) -> (n: u16)
        requires
            arena.wf(),
            arena.sizes_fit(),
            self.kind < arena@.len(),
            spec_size_at(arena@, self.kind as int) * (self.size as nat) <= u16::MAX,
        ensures
            n as nat == spec_size_at(arena@, self.kind as int) * (self.size as nat),
    {
        let elem = arena.size_of(self.kind);
        let total: usize = (elem as usize) * self.size;
        total as u16
    }

    /// Alignment: the element's alignment.
    pub fn align_of(&self, arena: &KindArena) -> (n: u16)
        requires
            arena.wf(),
            self.kind < arena@.len(),
        ensures
            n as nat == spec_align_at(arena@, self.kind as int),
    {
        arena.align_of(self.kind)
    }

    /// Flatten the array into its ordered (absolute address, scalar) leaves:
    /// the cursor is padded to the element's alignment, then every element
    /// is expanded in sequence.
    pub fn base_fields(&self, arena: &KindArena, address: &mut usize) -> (v: Vec<(usize, Primitive)>)
        requires
            arena.wf(),
            arena.sizes_fit(),
            self.kind < arena@.len(),
            ({
                let padded = *old(address) + spec_align_pad(
                    *old(address) as int,
                    spec_align_at(arena@, self.kind as int) as int,
                );
                spec_array_bf(arena@, arena@.len() as int, self.kind as int, self.size as int, padded).1
                    <= usize::MAX
            }),
        ensures
            ({
                let padded = *old(address) + spec_align_pad(
                    *old(address) as int,
                    spec_align_at(arena@, self.kind as int) as int,
                );
                &&& spec_pairs_view(v@) =~= spec_array_bf(
                    arena@,
                    arena@.len() as int,
                    self.kind as int,
                    self.size as int,
                    padded,
                ).0
                &&& *final(address) as int == spec_array_bf(
                    arena@,
                    arena@.len() as int,
                    self.kind as int,
                    self.size as int,
                    padded,
                ).1
            }),
    {
        self.elements_base_fields(arena, address)
    }

    /// Index or dereference into the element kind; any other unit is an
    /// error.
    pub fn access_with(
        &self,
        arena: &KindArena,
        ribbon: &MemRibbon,
        unit: Indirection,
        trace: Trace,
    ) -> (r: Result<PlaceValue, Error>)
        requires
            arena.wf(),
            arena.sizes_fit(),
            self.kind < arena@.len(),
        ensures
            spec_result_view(r) == (match unit@ {
                crate::access::IndirectionView::Deref => crate::access::spec_access_at(
                    arena@,
                    ribbon.base_adr as int,
                    ribbon.data@,
                    self.kind as int,
                    trace.path@,
                    trace.address as int,
                    trace.field_name@,
                ),
                crate::access::IndirectionView::Index(idx) => {
                    let target = trace.address + spec_size_at(arena@, self.kind as int) * idx;
                    if target > usize::MAX {
                        Err(crate::access::spec_err(
                            trace.field_name@,
                            crate::access::ErrorKindView::Deref { old_addr: trace.address as int },
                        ))
                    } else {
                        crate::access::spec_access_at(
                            arena@,
                            ribbon.base_adr as int,
                            ribbon.data@,
                            self.kind as int,
                            trace.path@,
                            target,
                            trace.field_name@,
                        )
                    }
                },
                u => Err(crate::access::spec_err(
                    trace.field_name@,
                    crate::access::ErrorKindView::Operation {
                        op: crate::access::spec_operator(u),
                        kind: self.kind as int,
                    },
                )),
            }),
        decreases trace.path.0@.len(), 2int, 0int,
    {
        match unit {
            Indirection::Deref => arena.access(ribbon, self.kind, trace),
            Indirection::Index(idx) => {
                let elem = arena.size_of(self.kind);
                match (elem as usize).checked_mul(idx) {
                    None => Err(
                        Error::at(trace.field_name, ErrorKind::Deref { old_addr: trace.address }),
                    ),
                    Some(d) => match trace.address.checked_add(d) {
                        None => Err(
                            Error::at(
                                trace.field_name,
                                ErrorKind::Deref { old_addr: trace.address },
                            ),
                        ),
                        Some(target) => {
                            let mut trace = trace;
                            trace.address = target;
                            arena.access(ribbon, self.kind, trace)
                        },
                    },
                }
            },
            _ => {
                let ek = ErrorKind::operation(&unit, self.kind);
                Err(Error::at(trace.field_name, ek))
            },
        }
    }

    /// The padding-then-elements worker behind `base_fields`; also the form
    /// the kind-level flattening dispatches to.
    pub fn elements_base_fields(&self, arena: &KindArena, address: &mut usize) -> (v: Vec<(usize, Primitive)>)
        requires
            arena.wf(),
            arena.sizes_fit(),
            self.kind < arena@.len(),
            ({
                let padded = *old(address) + spec_align_pad(
                    *old(address) as int,
                    spec_align_at(arena@, self.kind as int) as int,
                );
                spec_array_bf(arena@, arena@.len() as int, self.kind as int, self.size as int, padded).1
                    <= usize::MAX
            }),
        ensures
            ({
                let padded = *old(address) + spec_align_pad(
                    *old(address) as int,
                    spec_align_at(arena@, self.kind as int) as int,
                );
                &&& spec_pairs_view(v@) =~= spec_array_bf(
                    arena@,
                    arena@.len() as int,
                    self.kind as int,
                    self.size as int,
                    padded,
                ).0
                &&& *final(address) as int == spec_array_bf(
                    arena@,
                    arena@.len() as int,
                    self.kind as int,
                    self.size as int,
                    padded,
                ).1
            }),
    {
        let guard = arena.len();
        let elem = self.kind;
        let count = self.size;
        let align = arena.align_of(elem);
        proof {
            let padded_g = *address + spec_align_pad(
                *address as int,
                spec_align_at(arena@, elem as int) as int,
            );
            lemma_array_bf_end_ge(arena@, guard as int, elem as int, count as int, padded_g);
        }
        let pad = align_pad_addr(*address, align);
        *address = *address + (pad as usize);
        let ghost start = *address as int;
        let mut v: Vec<(usize, Primitive)> = Vec::new();
        let mut n: usize = 0;
        while n < count
            invariant
                arena.wf(),
                arena.sizes_fit(),
                elem < arena@.len(),
                guard == arena@.len(),
                n <= count,
                spec_array_bf(arena@, guard as int, elem as int, count as int, start).1
                    <= usize::MAX,
                spec_pairs_view(v@) =~= spec_array_bf(
                    arena@,
                    guard as int,
                    elem as int,
                    n as int,
                    start,
                ).0,
                *address as int == spec_array_bf(
                    arena@,
                    guard as int,
                    elem as int,
                    n as int,
                    start,
                ).1,
            decreases count - n,
        {
            proof {
                lemma_array_bf_mono(arena@, guard as int, elem as int, n + 1, count as int, start);
                lemma_bf_end_ge(arena@, elem as int, *address as int);
            }
            let sub = arena.base_fields(elem, address);
            let mut sub = sub;
            let ghost sub0 = sub@;
            let ghost v0 = v@;
            v.append(&mut sub);
            proof {
                assert(spec_pairs_view(v@) =~= spec_pairs_view(v0) + spec_pairs_view(sub0));
            }
            n = n + 1;
        }
        v
    }

    /// The category shown in error context.
    pub fn variant_str(&self) -> (r: &'static str)
        ensures
            r@ == "array"@,
    {
        "array"
    }
}

} // verus!
