//! The assertion command: `(assert term)`, accepted only for a term of
//! sort Bool.

use vstd::prelude::*;

use crate::render::{
    depth_of, lemma_depth_concat, lemma_depth_push, lemma_run_ok_one, lemma_run_ok_split,
    lemma_tree_depth, list_toks, run_ok, tree_toks, SExprView, Tok, Write, Writer,
};
use crate::typecheck::{sort_eq, Sort, SortError, Term};

verus! {

/// The assertion command over a typed term.
pub struct Assert<E: Term>(pub E);

/// What can go wrong asserting a term: it is not boolean, or the backend
/// refused a write while emitting the frame or the term itself.
#[derive(Debug)]
pub enum Error<E: Term, WE> {
    NotBoolExpr(SortError<E>),
    WriteError(WE),
    WriteExprError(WE),
}

impl<E: Term, WE> Error<E, WE> {
    /// A sort violation: the term was expected to be Bool.
    pub fn not_bool_expr(expr: E) -> (r: Self)
        ensures
            r matches Error::NotBoolExpr(se) && se.spec_expr() == expr && se.spec_expect_sort()
                == Sort::Bool,
    {
        Error::NotBoolExpr(SortError::new(expr, Sort::Bool))
    }

    /// A backend failure while writing the command's frame.
    pub fn write_error(err: WE) -> (r: Self)
        ensures
            r matches Error::WriteError(e) && e == err,
    {
        Error::WriteError(err)
    }

    /// A backend failure while writing the asserted term.
    pub fn write_expr_error(err: WE) -> (r: Self)
        ensures
            r matches Error::WriteExprError(e) && e == err,
    {
        Error::WriteExprError(err)
    }
}

impl<E: Term> Assert<E> {
    /// The render tree: the list `(assert term)`.
    pub open spec fn tree(&self) -> SExprView {
        SExprView::List(seq![SExprView::Word("assert"@), self.0.tree()])
    }

    /// Whether the command is well-typed: the term has sort Bool.
    pub open spec fn wt(&self) -> bool {
        sort_eq(self.0.sort_spec(), Sort::Bool)
    }

    /// Check the term's sort, then drive the writer through the whole
    /// command.  A term that is not boolean is rejected before anything
    /// is written.
    pub fn write<W: Writer>(&self, w: W) -> (r: Result<W, Error<E, W::Error>>)
        requires
            w.wf(),
            self.0.renderable(),
        ensures
            r matches Ok(w2) ==> self.wt() && w2.wf() && w2.hist() == w.hist() + tree_toks(
                self.tree(),
            ) && w2.base() == w.base(),
            !self.wt() ==> (r matches Err(e) && (e matches Error::NotBoolExpr(se)
                && se.spec_expr() == self.0 && se.spec_expect_sort() == Sort::Bool)),
            self.wt() && r is Err ==> !(r->Err_0 matches Error::NotBoolExpr(_)),
            W::total() && self.wt() && run_ok::<W>(w.hist(), tree_toks(self.tree())) ==> r is Ok,
    {
        let s = self.0.sort();
        if !(s == Sort::Bool) {
            return Err(Error::not_bool_expr(self.0));
        }
        let ghost h0 = w.hist();
        let ghost ts = tree_toks(self.tree());
        let ghost l2 = seq![SExprView::Word("assert"@), self.0.tree()];
        proof {
            crate::render::lemma_run_ok_one::<W>(h0, Tok::Open);
            reveal_with_fuel(list_toks, 4);
            assert(list_toks(l2) =~= seq![Tok::Word("assert"@)] + tree_toks(self.0.tree())) by {
                assert(l2.drop_first() =~= seq![self.0.tree()]);
                assert(seq![self.0.tree()].drop_first() =~= Seq::<SExprView>::empty());
                assert(list_toks(seq![self.0.tree()]) =~= tree_toks(self.0.tree()));
                assert(tree_toks(SExprView::Word("assert"@)) =~= seq![Tok::Word("assert"@)]);
            }
            assert(ts =~= seq![Tok::Open] + (seq![Tok::Word("assert"@)] + (tree_toks(
                self.0.tree(),
            ) + seq![Tok::Close])));
            lemma_run_ok_split::<W>(
                h0,
                seq![Tok::Open],
                seq![Tok::Word("assert"@)] + (tree_toks(self.0.tree()) + seq![Tok::Close]),
            );
            w.depth_nonneg();
        }
        let ghost h1 = h0.push(Tok::Open);
        let w1 = match w.enter() {
            Ok(x) => x,
            Err(e) => {
                return Err(Error::write_error(e));
            },
        };
        proof {
            assert(h0 + seq![Tok::Open] =~= h1);
            lemma_run_ok_split::<W>(
                h1,
                seq![Tok::Word("assert"@)],
                tree_toks(self.0.tree()) + seq![Tok::Close],
            );
            lemma_run_ok_one::<W>(h1, Tok::Word("assert"@));
        }
        let ghost h2 = h1.push(Tok::Word("assert"@));
        let w2 = match w1.write_word("assert") {
            Ok(x) => x,
            Err(e) => {
                return Err(Error::write_error(e));
            },
        };
        proof {
            assert(h1 + seq![Tok::Word("assert"@)] =~= h2);
            lemma_run_ok_split::<W>(h2, tree_toks(self.0.tree()), seq![Tok::Close]);
        }
        let ghost h3 = h2 + tree_toks(self.0.tree());
        let w3 = match self.0.write(w2) {
            Ok(x) => x,
            Err(e) => {
                return Err(Error::write_expr_error(e));
            },
        };
        proof {
            lemma_run_ok_one::<W>(h3, Tok::Close);
            lemma_depth_push(h0, Tok::Open);
            lemma_depth_push(h1, Tok::Word("assert"@));
            lemma_tree_depth(self.0.tree());
            lemma_depth_concat(h2, tree_toks(self.0.tree()));
            assert(depth_of(h3) >= 1);
        }
        match w3.leave() {
            Ok(x) => {
                proof {
                    assert(x.hist() =~= h0 + ts);
                }
                Ok(x)
            },
            Err(e) => Err(Error::write_error(e)),
        }
    }
}

} // verus!
