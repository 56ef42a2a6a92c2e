//! A library for emitting scripts in a fully parenthesized, whitespace
//! separated interchange format, together with a small typed term layer
//! that is sort-checked before serialization.
//!
//! The crate is organised around a rendering protocol ([`render`]): grammar
//! values drive one of several backends (an in-memory tree builder, an
//! incrementally formatted text emitter, a streaming sink emitter) through a
//! uniform enter / write / leave discipline, and every backend is proved to
//! produce the same, canonically spaced text.

use vstd::prelude::*;

pub mod cmds;
pub mod datatypes;
pub mod exprs;
pub mod functions;
pub mod identifiers;
pub mod lexicon;
pub mod numerals;
pub mod render;
pub mod scripts;
pub mod sexprs;
pub mod sorts;
pub mod terms;
pub mod typecheck;
pub mod write;

verus! {

/// Checked addition of two machine-word counts.
pub fn add(left: usize, right: usize) -> (r: usize)
    requires
        left + right <= usize::MAX,
    ensures
        r == left + right,
{
    left + right
}

} // verus!
