//! Boolean-sorted typed expressions: literals and binary equality.

use vstd::prelude::*;

use crate::lexicon::{symbol_new_spec, Symbol};
use crate::exprs::integer::{write_labeled_pair, WriteError};
use crate::render::{
    lemma_run_ok_one, lemma_views_of, run_ok, tree_toks, views_of, SExpr, SExprView, ToSExpr,
    Tok, Write, Writer,
};
use crate::sexprs::Sexpr;
use crate::typecheck::{sort_eq, Sort, Term};

verus! {

/// A boolean literal, of sort Bool and always well-typed.
#[derive(Clone, Copy, Debug)]
pub struct Literal(pub bool);

impl Literal {
    /// The literal's spelling.
    pub open spec fn text(&self) -> Seq<char> {
        if self.0 {
            "true"@
        } else {
            "false"@
        }
    }

    /// The symbol this literal denotes.
    pub fn to_symbol(&self) -> (r: Symbol)
        ensures
            Some(r@) == symbol_new_spec(self.text()),
    {
        let word = if self.0 {
            "true"
        } else {
            "false"
        };
        proof {
            reveal_strlit("true");
            reveal_strlit("false");
            assert(!crate::lexicon::seq_contains_char(word@, '|')) by {
                assert forall|i: int| 0 <= i < word@.len() implies word@[i] != '|' by {}
            }
            assert(!crate::lexicon::seq_contains_char(word@, '\\')) by {
                assert forall|i: int| 0 <= i < word@.len() implies word@[i] != '\\' by {}
            }
        }
        match Symbol::new(String::from_str(word)) {
            Ok(sym) => sym,
            Err(_) => unreached(),
        }
    }

    /// The grammar expression this literal denotes.
    pub fn to_sexpr(&self) -> (r: Sexpr)
        ensures
            r.tree() == SExprView::Symbol(symbol_new_spec(self.text())->Some_0),
    {
        Sexpr::Symbol(self.to_symbol())
    }
}

impl Write for Literal {
    open spec fn tree(&self) -> SExprView {
        SExprView::Word(self.text())
    }

    open spec fn renderable(&self) -> bool {
        true
    }

    fn write<W: Writer>(&self, w: W) -> (r: Result<W, W::Error>) {
        let tok = if self.0 {
            "true"
        } else {
            "false"
        };
        proof {
            lemma_run_ok_one::<W>(w.hist(), Tok::Word(tok@));
        }
        match w.write_word(tok) {
            Ok(w2) => {
                proof {
                    assert(w2.hist() =~= w.hist() + tree_toks(self.tree()));
                }
                Ok(w2)
            },
            Err(e) => Err(e),
        }
    }
}

impl ToSExpr for Literal {
    open spec fn sexpr_tree(&self) -> SExprView {
        SExprView::Word(self.text())
    }

    fn to_sexpr(&self) -> (r: SExpr) {
        if self.0 {
            SExpr::word("true")
        } else {
            SExpr::word("false")
        }
    }
}

impl Term for Literal {
    type TypecheckError = ();

    open spec fn sort_spec(&self) -> Sort {
        Sort::Bool
    }

    open spec fn wt(&self) -> bool {
        true
    }

    fn sort(&self) -> (s: Sort) {
        Sort::Bool
    }

    fn typecheck(&self) -> (r: Result<(), ()>) {
        Ok(())
    }
}

/// Binary equality of two terms, of sort Bool; well-typed exactly when
/// both operands have equal sorts.
#[derive(Clone, Copy, Debug)]
pub struct Eq2<L, R>(pub L, pub R) where L: Term, R: Term;

/// Both operands of an equality whose sorts differ.
#[derive(Clone, Copy, Debug)]
pub struct InputSortsDontMatch<L: Term, R: Term>(L, R);

impl<L: Term, R: Term> InputSortsDontMatch<L, R> {
    /// The left operand.
    pub closed spec fn spec_left(&self) -> L {
        self.0
    }

    /// The right operand.
    pub closed spec fn spec_right(&self) -> R {
        self.1
    }

    /// The left operand.
    pub fn left(&self) -> (r: &L)
        ensures
            *r == self.spec_left(),
    {
        &self.0
    }

    /// The right operand.
    pub fn right(&self) -> (r: &R)
        ensures
            *r == self.spec_right(),
    {
        &self.1
    }
}

impl<L: Term, R: Term> Eq2<L, R> {
    /// Drive the writer through `(= left right)`, naming the failing
    /// part on a backend error.
    pub fn write<W: Writer>(&self, w: W) -> (r: Result<W, WriteError<W::Error>>)
        requires
            w.wf(),
            self.0.renderable(),
            self.1.renderable(),
        ensures
            r matches Ok(w2) ==> w2.wf() && w2.hist() == w.hist() + tree_toks(
                SExprView::List(seq![SExprView::Word("="@), self.0.tree(), self.1.tree()]),
            ) && w2.base() == w.base(),
            W::total() && run_ok::<W>(
                w.hist(),
                tree_toks(
                    SExprView::List(seq![SExprView::Word("="@), self.0.tree(), self.1.tree()]),
                ),
            ) ==> r is Ok,
    {
        write_labeled_pair("=", &self.0, &self.1, w)
    }
}

impl<L: Term, R: Term> Write for Eq2<L, R> {
    open spec fn tree(&self) -> SExprView {
        SExprView::List(seq![SExprView::Word("="@), self.0.tree(), self.1.tree()])
    }

    open spec fn renderable(&self) -> bool {
        self.0.renderable() && self.1.renderable()
    }

    fn write<W: Writer>(&self, w: W) -> (r: Result<W, W::Error>) {
        match write_labeled_pair("=", &self.0, &self.1, w) {
            Ok(x) => Ok(x),
            Err(WriteError::WriteError(e)) => Err(e),
            Err(WriteError::WriteLeftTermError(e)) => Err(e),
            Err(WriteError::WriteRightTermError(e)) => Err(e),
        }
    }
}

impl<L: Term + ToSExpr, R: Term + ToSExpr> ToSExpr for Eq2<L, R> {
    open spec fn sexpr_tree(&self) -> SExprView {
        SExprView::List(seq![SExprView::Word("="@), self.0.sexpr_tree(), self.1.sexpr_tree()])
    }

    fn to_sexpr(&self) -> (r: SExpr) {
        let mut elems: Vec<SExpr> = Vec::new();
        elems.push(SExpr::word("="));
        elems.push(self.0.to_sexpr());
        elems.push(self.1.to_sexpr());
        let ghost es = elems@;
        let r = SExpr::List(elems);
        proof {
            lemma_views_of(es);
            assert(views_of(es)[0] == crate::render::sexpr_view(es[0]));
            assert(views_of(es)[1] == crate::render::sexpr_view(es[1]));
            assert(views_of(es)[2] == crate::render::sexpr_view(es[2]));
            assert(views_of(es) =~= seq![
                SExprView::Word("="@),
                self.0.sexpr_tree(),
                self.1.sexpr_tree(),
            ]);
        }
        r
    }
}

impl<L: Term, R: Term> Term for Eq2<L, R> {
    type TypecheckError = InputSortsDontMatch<L, R>;

    open spec fn sort_spec(&self) -> Sort {
        Sort::Bool
    }

    open spec fn wt(&self) -> bool {
        sort_eq(self.0.sort_spec(), self.1.sort_spec())
    }

    fn sort(&self) -> (s: Sort) {
        Sort::Bool
    }

    fn typecheck(&self) -> (r: Result<(), InputSortsDontMatch<L, R>>)
        ensures
            r is Ok <==> self.wt(),
            r matches Err(e) ==> e.spec_left() == self.0 && e.spec_right() == self.1,
    {
        let ls = self.0.sort();
        let rs = self.1.sort();
        if !(ls == rs) {
            Err(InputSortsDontMatch(self.0, self.1))
        } else {
            Ok(())
        }
    }
}

} // verus!
