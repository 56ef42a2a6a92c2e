//! Integer-sorted typed expressions: literals and binary addition.

use vstd::prelude::*;

use crate::numerals::{int_text, isize_numeral_string};
use crate::render::{
    depth_of, lemma_depth_concat, lemma_depth_push, lemma_run_ok_one, lemma_run_ok_split,
    lemma_tree_depth, lemma_views_of, list_toks, run_ok, tree_toks, views_of, SExpr, SExprView,
    ToSExpr, Tok, Write, Writer,
};
use crate::typecheck::{sort_eq, Sort, Term};

verus! {

/// An integer literal, of sort Int and always well-typed.
#[derive(Clone, Copy, Debug)]
pub struct Literal(pub isize);

impl Write for Literal {
    open spec fn tree(&self) -> SExprView {
        SExprView::Word(int_text(self.0 as int))
    }

    open spec fn renderable(&self) -> bool {
        true
    }

    fn write<W: Writer>(&self, w: W) -> (r: Result<W, W::Error>) {
        let tok = isize_numeral_string(self.0);
        proof {
            lemma_run_ok_one::<W>(w.hist(), Tok::Word(tok@));
        }
        match w.write_word(tok.as_str()) {
            Ok(w2) => {
                proof {
                    assert(w2.hist() =~= w.hist() + tree_toks(self.tree()));
                }
                Ok(w2)
            },
            Err(e) => Err(e),
        }
    }
}

impl ToSExpr for Literal {
    open spec fn sexpr_tree(&self) -> SExprView {
        SExprView::Word(int_text(self.0 as int))
    }

    fn to_sexpr(&self) -> (r: SExpr) {
        SExpr::Word(isize_numeral_string(self.0))
    }
}

impl Term for Literal {
    type TypecheckError = ();

    open spec fn sort_spec(&self) -> Sort {
        Sort::Int
    }

    open spec fn wt(&self) -> bool {
        true
    }

    fn sort(&self) -> (s: Sort) {
        Sort::Int
    }

    fn typecheck(&self) -> (r: Result<(), ()>) {
        Ok(())
    }
}

/// What can go wrong rendering a binary application: the backend refused
/// a write of the frame, of the left operand, or of the right operand.
#[derive(Debug)]
pub enum WriteError<WE> {
    WriteError(WE),
    WriteLeftTermError(WE),
    WriteRightTermError(WE),
}

impl<WE> WriteError<WE> {
    /// A backend failure while writing the application's frame.
    pub fn write_error(err: WE) -> (r: Self)
        ensures
            r matches WriteError::WriteError(e) && e == err,
    {
        WriteError::WriteError(err)
    }

    /// A backend failure while writing the left operand.
    pub fn write_left_expr_error(err: WE) -> (r: Self)
        ensures
            r matches WriteError::WriteLeftTermError(e) && e == err,
    {
        WriteError::WriteLeftTermError(err)
    }

    /// A backend failure while writing the right operand.
    pub fn write_right_expr_error(err: WE) -> (r: Self)
        ensures
            r matches WriteError::WriteRightTermError(e) && e == err,
    {
        WriteError::WriteRightTermError(err)
    }
}

/// Render the list `(head left right)`, naming the part whose write the
/// backend refused.
pub fn write_labeled_pair<W: Writer, L: Write, R: Write>(
    head: &str,
    l: &L,
    r2: &R,
    w: W,
) -> (r: Result<W, WriteError<W::Error>>)
    requires
        w.wf(),
        l.renderable(),
        r2.renderable(),
    ensures
        r matches Ok(w2) ==> w2.wf() && w2.hist() == w.hist() + tree_toks(
            SExprView::List(seq![SExprView::Word(head@), l.tree(), r2.tree()]),
        ) && w2.base() == w.base(),
        W::total() && run_ok::<W>(
            w.hist(),
            tree_toks(SExprView::List(seq![SExprView::Word(head@), l.tree(), r2.tree()])),
        ) ==> r is Ok,
{
    let ghost h0 = w.hist();
    let ghost l3 = seq![SExprView::Word(head@), l.tree(), r2.tree()];
    let ghost ts = tree_toks(SExprView::List(l3));
    proof {
        reveal_with_fuel(list_toks, 5);
        assert(list_toks(l3) =~= seq![Tok::Word(head@)] + (tree_toks(l.tree()) + tree_toks(
            r2.tree(),
        ))) by {
            assert(l3.drop_first() =~= seq![l.tree(), r2.tree()]);
            assert(seq![l.tree(), r2.tree()].drop_first() =~= seq![r2.tree()]);
            assert(seq![r2.tree()].drop_first() =~= Seq::<SExprView>::empty());
            assert(list_toks(seq![r2.tree()]) =~= tree_toks(r2.tree()));
            assert(list_toks(seq![l.tree(), r2.tree()]) =~= tree_toks(l.tree()) + tree_toks(
                r2.tree(),
            ));
            assert(tree_toks(SExprView::Word(head@)) =~= seq![Tok::Word(head@)]);
        }
        assert(ts =~= seq![Tok::Open] + (seq![Tok::Word(head@)] + (tree_toks(l.tree()) + (
        tree_toks(r2.tree()) + seq![Tok::Close]))));
        lemma_run_ok_split::<W>(
            h0,
            seq![Tok::Open],
            seq![Tok::Word(head@)] + (tree_toks(l.tree()) + (tree_toks(r2.tree())
                + seq![Tok::Close])),
        );
        lemma_run_ok_one::<W>(h0, Tok::Open);
        w.depth_nonneg();
    }
    let ghost h1 = h0.push(Tok::Open);
    let w1 = match w.enter() {
        Ok(x) => x,
        Err(e) => {
            return Err(WriteError::write_error(e));
        },
    };
    proof {
        assert(h0 + seq![Tok::Open] =~= h1);
        lemma_run_ok_split::<W>(
            h1,
            seq![Tok::Word(head@)],
            tree_toks(l.tree()) + (tree_toks(r2.tree()) + seq![Tok::Close]),
        );
        lemma_run_ok_one::<W>(h1, Tok::Word(head@));
    }
    let ghost h2 = h1.push(Tok::Word(head@));
    let w2 = match w1.write_word(head) {
        Ok(x) => x,
        Err(e) => {
            return Err(WriteError::write_error(e));
        },
    };
    proof {
        assert(h1 + seq![Tok::Word(head@)] =~= h2);
        lemma_run_ok_split::<W>(
            h2,
            tree_toks(l.tree()),
            tree_toks(r2.tree()) + seq![Tok::Close],
        );
    }
    let ghost h3 = h2 + tree_toks(l.tree());
    let w3 = match l.write(w2) {
        Ok(x) => x,
        Err(e) => {
            return Err(WriteError::write_left_expr_error(e));
        },
    };
    proof {
        lemma_run_ok_split::<W>(h3, tree_toks(r2.tree()), seq![Tok::Close]);
    }
    let ghost h4 = h3 + tree_toks(r2.tree());
    let w4 = match r2.write(w3) {
        Ok(x) => x,
        Err(e) => {
            return Err(WriteError::write_right_expr_error(e));
        },
    };
    proof {
        lemma_run_ok_one::<W>(h4, Tok::Close);
        lemma_depth_push(h0, Tok::Open);
        lemma_depth_push(h1, Tok::Word(head@));
        lemma_tree_depth(l.tree());
        lemma_tree_depth(r2.tree());
        lemma_depth_concat(h2, tree_toks(l.tree()));
        lemma_depth_concat(h3, tree_toks(r2.tree()));
        assert(depth_of(h4) >= 1);
    }
    match w4.leave() {
        Ok(x) => {
            proof {
                assert(x.hist() =~= h0 + ts);
            }
            Ok(x)
        },
        Err(e) => Err(WriteError::write_error(e)),
    }
}

/// Binary addition of two terms, of sort Int; well-typed exactly when
/// both operands have sort Int.
#[derive(Clone, Copy, Debug)]
pub struct Add2<L, R>(pub L, pub R) where L: Term, R: Term;

/// Both operands of an addition whose sorts do not admit addition.
#[derive(Clone, Copy, Debug)]
pub struct NotAddableError<L: Term, R: Term>(L, R);

impl<L: Term, R: Term> NotAddableError<L, R> {
    /// The left operand.
    pub closed spec fn spec_left(&self) -> L {
        self.0
    }

    /// The right operand.
    pub closed spec fn spec_right(&self) -> R {
        self.1
    }

    /// The left operand.
    pub fn left(&self) -> (r: &L)
        ensures
            *r == self.spec_left(),
    {
        &self.0
    }

    /// The right operand.
    pub fn right(&self) -> (r: &R)
        ensures
            *r == self.spec_right(),
    {
        &self.1
    }
}

impl<L: Term, R: Term> Add2<L, R> {
    /// Drive the writer through `(+ left right)`, naming the failing
    /// part on a backend error.
    pub fn write<W: Writer>(&self, w: W) -> (r: Result<W, WriteError<W::Error>>)
        requires
            w.wf(),
            self.0.renderable(),
            self.1.renderable(),
        ensures
            r matches Ok(w2) ==> w2.wf() && w2.hist() == w.hist() + tree_toks(
                SExprView::List(seq![SExprView::Word("+"@), self.0.tree(), self.1.tree()]),
            ) && w2.base() == w.base(),
            W::total() && run_ok::<W>(
                w.hist(),
                tree_toks(
                    SExprView::List(seq![SExprView::Word("+"@), self.0.tree(), self.1.tree()]),
                ),
            ) ==> r is Ok,
    {
        write_labeled_pair("+", &self.0, &self.1, w)
    }
}

impl<L: Term, R: Term> Write for Add2<L, R> {
    open spec fn tree(&self) -> SExprView {
        SExprView::List(seq![SExprView::Word("+"@), self.0.tree(), self.1.tree()])
    }

    open spec fn renderable(&self) -> bool {
        self.0.renderable() && self.1.renderable()
    }

    fn write<W: Writer>(&self, w: W) -> (r: Result<W, W::Error>) {
        match write_labeled_pair("+", &self.0, &self.1, w) {
            Ok(x) => Ok(x),
            Err(WriteError::WriteError(e)) => Err(e),
            Err(WriteError::WriteLeftTermError(e)) => Err(e),
            Err(WriteError::WriteRightTermError(e)) => Err(e),
        }
    }
}

impl<L: Term + ToSExpr, R: Term + ToSExpr> ToSExpr for Add2<L, R> {
    open spec fn sexpr_tree(&self) -> SExprView {
        SExprView::List(seq![SExprView::Word("+"@), self.0.sexpr_tree(), self.1.sexpr_tree()])
    }

    fn to_sexpr(&self) -> (r: SExpr) {
        let mut elems: Vec<SExpr> = Vec::new();
        elems.push(SExpr::word("+"));
        elems.push(self.0.to_sexpr());
        elems.push(self.1.to_sexpr());
        let ghost es = elems@;
        let r = SExpr::List(elems);
        proof {
            lemma_views_of(es);
            assert(views_of(es)[0] == crate::render::sexpr_view(es[0]));
            assert(views_of(es)[1] == crate::render::sexpr_view(es[1]));
            assert(views_of(es)[2] == crate::render::sexpr_view(es[2]));
            assert(views_of(es) =~= seq![
                SExprView::Word("+"@),
                self.0.sexpr_tree(),
                self.1.sexpr_tree(),
            ]);
        }
        r
    }
}

impl<L: Term, R: Term> Term for Add2<L, R> {
    type TypecheckError = NotAddableError<L, R>;

    open spec fn sort_spec(&self) -> Sort {
        Sort::Int
    }

    open spec fn wt(&self) -> bool {
        sort_eq(self.0.sort_spec(), Sort::Int) && sort_eq(self.1.sort_spec(), Sort::Int)
    }

    fn sort(&self) -> (s: Sort) {
        Sort::Int
    }

    fn typecheck(&self) -> (r: Result<(), NotAddableError<L, R>>)
        ensures
            r is Ok <==> self.wt(),
            r matches Err(e) ==> e.spec_left() == self.0 && e.spec_right() == self.1,
    {
        let ls = self.0.sort();
        let rs = self.1.sort();
        if !(ls == Sort::Int) || !(rs == Sort::Int) {
            Err(NotAddableError(self.0, self.1))
        } else {
            Ok(())
        }
    }
}

} // verus!
