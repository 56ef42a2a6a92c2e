//! Identifiers: a symbol, possibly applied to indices through the
//! underscore form `(_ symbol index ...)`.

use vstd::prelude::*;

use crate::lexicon::{reserved_text, Reserved, Symbol, SymbolView};
use crate::render::{tree_text, SExprView};
use crate::sexprs::{lemma_trees_of, trees_of, ConstantView, Sexpr, SpecialConstant};

verus! {

/// An index of an indexed identifier: a numeral or a symbol.
#[derive(Debug)]
pub enum Index {
    Numeral(i64),
    Symbol(Symbol),
}

impl Index {
    /// The render tree of this index.
    pub open spec fn tree(&self) -> SExprView {
        match self {
            Index::Numeral(n) => SExprView::Constant(ConstantView::Numeral(*n)),
            Index::Symbol(s) => SExprView::Symbol(s@),
        }
    }

    /// An owned copy of this index.
    pub fn duplicate(&self) -> (r: Index)
        ensures
            r == *self,
    {
        match self {
            Index::Numeral(n) => Index::Numeral(*n),
            Index::Symbol(s) => Index::Symbol(s.duplicate()),
        }
    }

    /// The grammar expression this index denotes.
    pub fn to_sexpr(&self) -> (r: Sexpr)
        ensures
            r.tree() == self.tree(),
    {
        match self {
            Index::Numeral(n) => Sexpr::SpecialConstant(SpecialConstant::Numeral(*n)),
            Index::Symbol(s) => Sexpr::Symbol(s.duplicate()),
        }
    }
}

/// The render trees of a run of indices, in order.
pub open spec fn index_trees(s: Seq<Index>) -> Seq<SExprView>
    decreases s,
{
    if s.len() == 0 {
        Seq::empty()
    } else {
        seq![s[0].tree()] + index_trees(s.drop_first())
    }
}

pub proof fn lemma_index_trees(s: Seq<Index>)
    ensures
        index_trees(s).len() == s.len(),
        forall|i: int| 0 <= i < s.len() ==> index_trees(s)[i] == #[trigger] s[i].tree(),
    decreases s,
{
    if s.len() > 0 {
        lemma_index_trees(s.drop_first());
        assert forall|i: int| 0 <= i < s.len() implies index_trees(s)[i] == #[trigger] s[i].tree() by {
            if i > 0 {
                assert(s.drop_first()[i - 1] == s[i]);
                assert(index_trees(s)[i] == index_trees(s.drop_first())[i - 1]);
            } else {
                assert(index_trees(s)[0] == s[0].tree());
            }
        }
    }
}

/// An identifier: a symbol with an ordered run of indices.  With no
/// indices it renders as the bare symbol, else as the underscore form.
#[derive(Debug)]
pub struct Identifier {
    symbol: Symbol,
    indexes: Vec<Index>,
}

impl Identifier {
    /// The identifier's symbol.
    pub closed spec fn sym(&self) -> SymbolView {
        self.symbol@
    }

    /// The identifier's indices, in order.
    pub closed spec fn idx(&self) -> Seq<Index> {
        self.indexes@
    }

    /// The render tree of this identifier: the bare symbol, or the list
    /// `(_ symbol index ...)`.
    pub open spec fn tree(&self) -> SExprView {
        if self.idx().len() == 0 {
            SExprView::Symbol(self.sym())
        } else {
            SExprView::List(
                seq![
                    SExprView::Word(reserved_text(Reserved::Underscore)),
                    SExprView::Symbol(self.sym()),
                ] + index_trees(self.idx()),
            )
        }
    }

    /// An identifier from a symbol and its indices.
    pub fn new(symbol: Symbol, indexes: Vec<Index>) -> (r: Identifier)
        ensures
            r.sym() == symbol@,
            r.idx() == indexes@,
    {
        Identifier { symbol, indexes }
    }

    /// The grammar expression this identifier denotes.
    #[verifier::loop_isolation(false)]
    pub fn to_sexpr(&self) -> (r: Sexpr)
        ensures
            r.tree() == self.tree(),
    {
        if self.indexes.len() == 0 {
            Sexpr::Symbol(self.symbol.duplicate())
        } else {
            let mut elems: Vec<Sexpr> = Vec::new();
            elems.push(Sexpr::Reserved(Reserved::Underscore));
            elems.push(Sexpr::Symbol(self.symbol.duplicate()));
            let n = self.indexes.len();
            let mut i: usize = 0;
            while i < n
                invariant
                    i <= n,
                    elems@.len() == 2 + i,
                    elems@[0].tree() == SExprView::Word(reserved_text(Reserved::Underscore)),
                    elems@[1].tree() == SExprView::Symbol(self.sym()),
                    forall|j: int|
                        0 <= j < i ==> #[trigger] elems@[2 + j].tree() == self.idx()[j].tree(),
                decreases n - i,
            {
                elems.push(self.indexes[i].to_sexpr());
                i += 1;
            }
            let ghost es = elems@;
            let r = Sexpr::Sequence(elems);
            proof {
                lemma_trees_of(es);
                lemma_index_trees(self.idx());
                let target = seq![
                    SExprView::Word(reserved_text(Reserved::Underscore)),
                    SExprView::Symbol(self.sym()),
                ] + index_trees(self.idx());
                assert forall|k: int| 0 <= k < es.len() implies trees_of(es)[k] == target[k] by {
                    if k >= 2 {
                        let j = k - 2;
                        assert(es[2 + j].tree() == self.idx()[j].tree());
                    }
                }
                assert(trees_of(es) =~= target);
            }
            r
        }
    }

    /// The canonical text of this identifier.
    pub fn to_text(&self) -> (r: String)
        ensures
            r@ == tree_text(self.tree()),
    {
        self.to_sexpr().to_text()
    }
}

} // verus!
