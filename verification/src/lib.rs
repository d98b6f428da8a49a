//! Memory-layout modelling for C-like type declarations.
//!
//! A type graph of `Kind` nodes (primitives, references, composites, arrays,
//! aliases) lives in a `KindArena` and is referenced by index, which lets
//! shared and self-referential types be expressed without borrowed pointers.
//! The library computes sizes, alignments and field offsets under C aggregate
//! layout rules, models a byte-addressable `MemRibbon` of typed spans, and
//! resolves symbolic access paths (`.field`, `->field`, `[idx]`, `*`) against
//! a ribbon to a concrete place or a structured error.

pub mod access;
pub mod array;
pub mod composite;
pub mod kind;
pub mod mem_ribbon;
pub mod parse;
pub mod primitive;
pub mod reference;
