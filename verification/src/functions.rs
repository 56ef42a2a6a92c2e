//! Function signatures and definitions for the typed term layer.

use vstd::prelude::*;

use crate::identifiers::Identifier;
use crate::typecheck::{Sort, Term};

verus! {

/// A function's signature: its name, its named-and-sorted arguments, and
/// its result sort.
#[derive(Debug)]
pub struct FunctionSignature {
    pub name: String,
    pub args: Vec<(Identifier, Sort)>,
    pub return_sort: Sort,
}

/// A function definition: a signature together with a typed body.
#[derive(Debug)]
pub struct FunctionDefinition<E: Term> {
    pub sig: FunctionSignature,
    pub body: E,
}

} // verus!
