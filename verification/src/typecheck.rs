//! The typed term layer's sorts and its sort-checking contract: a closed
//! sort enumeration, structural sort equality, and the capability every
//! typed term offers.

use vstd::prelude::*;

use crate::datatypes::Datatype;
use crate::lexicon::str_eq;
use crate::render::{atom_text, lemma_run_ok_one, tree_toks, SExprView, Tok, Write, Writer};

verus! {

/// A sort of the typed layer: integer, boolean, or a declared datatype.
#[derive(Debug)]
pub enum Sort {
    Int,
    Bool,
    Datatype(Datatype),
}

/// Structural sort equality: datatype sorts are equal exactly when they
/// name the same declared datatype.
pub open spec fn sort_eq(a: Sort, b: Sort) -> bool {
    match (a, b) {
        (Sort::Int, Sort::Int) => true,
        (Sort::Bool, Sort::Bool) => true,
        (Sort::Datatype(x), Sort::Datatype(y)) => x.name@.text == y.name@.text,
        _ => false,
    }
}

/// The render tree of a sort: its fixed word, or the datatype's name.
pub open spec fn sort_tree(s: Sort) -> SExprView {
    match s {
        Sort::Int => SExprView::Word("Int"@),
        Sort::Bool => SExprView::Word("Bool"@),
        Sort::Datatype(dt) => SExprView::Symbol(dt.name@),
    }
}

impl PartialEq for Sort {
    fn eq(&self, other: &Sort) -> (r: bool) {
        match (self, other) {
            (Sort::Int, Sort::Int) => true,
            (Sort::Bool, Sort::Bool) => true,
            (Sort::Datatype(x), Sort::Datatype(y)) => str_eq(x.name.symbol(), y.name.symbol()),
            _ => false,
        }
    }
}

impl Eq for Sort {

}

impl vstd::std_specs::cmp::PartialEqSpecImpl for Sort {
    open spec fn obeys_eq_spec() -> bool {
        true
    }

    open spec fn eq_spec(&self, other: &Sort) -> bool {
        sort_eq(*self, *other)
    }
}

impl Sort {
    /// The sort's whole token: its fixed word, or the datatype's name.
    pub fn token(&self) -> (r: String)
        ensures
            r@ == atom_text(sort_tree(*self)),
    {
        match self {
            Sort::Int => String::from_str("Int"),
            Sort::Bool => String::from_str("Bool"),
            Sort::Datatype(dt) => dt.name.token(),
        }
    }
}

impl Write for Sort {
    open spec fn tree(&self) -> SExprView {
        sort_tree(*self)
    }

    open spec fn renderable(&self) -> bool {
        true
    }

    fn write<W: Writer>(&self, w: W) -> (r: Result<W, W::Error>) {
        let tok = self.token();
        proof {
            lemma_run_ok_one::<W>(w.hist(), Tok::Word(tok@));
        }
        match w.write_word(tok.as_str()) {
            Ok(w2) => {
                proof {
                    assert(w2.hist() =~= w.hist() + tree_toks(sort_tree(*self)));
                }
                Ok(w2)
            },
            Err(e) => Err(e),
        }
    }
}

/// The capability of a typed term: a sort that is a function of the
/// term's shape, a shape-local typing rule, and the render capability.
pub trait Term: Write + Copy {
    type TypecheckError;

    /// The term's sort, read off its shape.
    spec fn sort_spec(&self) -> Sort;

    /// Whether the term's own typing rule holds of its children's sorts.
    spec fn wt(&self) -> bool;

    /// The term's sort.
    fn sort(&self) -> (s: Sort)
        ensures
            sort_eq(s, self.sort_spec()),
    ;

    /// Check the term's typing rule, returning the first violation.
    fn typecheck(&self) -> (r: Result<(), Self::TypecheckError>)
        ensures
            r is Ok <==> self.wt(),
    ;
}

/// A sort violation: the offending term and the sort that was expected
/// of it.
#[derive(Debug)]
pub struct SortError<E: Term> {
    expr: E,
    expect_sort: Sort,
}

impl<E: Term> SortError<E> {
    /// A sort violation for the given term and expected sort.
    pub fn new(expr: E, expect_sort: Sort) -> (r: SortError<E>)
        ensures
            r.spec_expr() == expr,
            r.spec_expect_sort() == expect_sort,
    {
        SortError { expr, expect_sort }
    }

    /// The offending term.
    pub closed spec fn spec_expr(&self) -> E {
        self.expr
    }

    /// The expected sort.
    pub closed spec fn spec_expect_sort(&self) -> Sort {
        self.expect_sort
    }

    /// The offending term.
    pub fn expr(&self) -> (r: &E)
        ensures
            *r == self.spec_expr(),
    {
        &self.expr
    }

    /// The sort the term was expected to have.
    pub fn expect_sort(&self) -> (r: &Sort)
        ensures
            *r == self.spec_expect_sort(),
    {
        &self.expect_sort
    }
}

} // verus!
