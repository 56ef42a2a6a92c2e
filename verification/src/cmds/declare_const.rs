//! The constant declaration command: `(declare-const identifier sort)`.

use vstd::prelude::*;

use crate::identifiers::Identifier;
use crate::render::{run_ok, tree_toks, write_list2, SExprView, Writer};
use crate::typecheck::{sort_tree, Sort};

verus! {

/// A constant declaration: an identifier and the constant's sort.
pub struct DeclareConst {
    pub ident: Identifier,
    pub sort: Sort,
}

impl DeclareConst {
    /// The render tree: the list `(declare-const identifier sort)`.
    pub open spec fn tree(&self) -> SExprView {
        SExprView::List(
            seq![SExprView::Word("declare-const"@), self.ident.tree(), sort_tree(self.sort)],
        )
    }

    /// Drive the writer through the whole command.
    pub fn write<W: Writer>(&self, w: W) -> (r: Result<W, W::Error>)
        requires
            w.wf(),
        ensures
            r matches Ok(w2) ==> w2.wf() && w2.hist() == w.hist() + tree_toks(self.tree())
                && w2.base() == w.base(),
            W::total() && run_ok::<W>(w.hist(), tree_toks(self.tree())) ==> r is Ok,
    {
        let ident_expr = self.ident.to_sexpr();
        write_list2("declare-const", &ident_expr, &self.sort, w)
    }
}

} // verus!
