//! A backend code generator: it lowers a typed, control-flow-graph
//! intermediate representation (IR) into a dynamically typed scripting
//! target with JavaScript-compatible syntax.
//!
//! The target language has no goto, no first-class references and no static
//! types, so the backend linearizes arbitrary control flow — irreducible
//! graphs included — through a flat dispatch loop, emulates references
//! through get/set closure capsules, and encodes tagged sum types as records
//! with a reserved discriminant field. Every emitted byte is pinned by
//! specification functions, so emission is deterministic by construction;
//! the driver's deduplicated work queue makes it emit each reachable
//! function exactly once, recursion and mutual recursion included, and the
//! laws module proves both that and the label coverage of the dispatch
//! switch.
//!
//! Alongside the generator, the crate carries a verified model of the small
//! runtime support library that emitted programs are compiled against:
//! cells, conversion traits, slice utilities and a growable array.

pub mod cell;
pub mod codegen;
pub mod compiler;
pub mod convert;
pub mod ir;
pub mod laws;
pub mod runtime;
pub mod slice;
