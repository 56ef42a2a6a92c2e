//! Sorts of the grammar: an identifier, possibly applied to parameter
//! sorts.

use vstd::prelude::*;

use crate::identifiers::Identifier;
use crate::render::{tree_text, SExprView};
use crate::sexprs::{lemma_trees_of, trees_of, Sexpr};

verus! {

/// A sort term: a sort symbol, or a sort symbol applied to parameter
/// sorts.  With no parameters it renders as the bare identifier, else as
/// a parenthesized application.
#[derive(Debug)]
pub struct Sort {
    identifier: Identifier,
    parameters: Vec<Sort>,
}

/// The render trees of a run of sorts, in order.
pub open spec fn sort_trees(s: Seq<Sort>) -> Seq<SExprView>
    decreases s,
{
    if s.len() == 0 {
        Seq::empty()
    } else {
        seq![s[0].tree()] + sort_trees(s.drop_first())
    }
}

pub proof fn lemma_sort_trees(s: Seq<Sort>)
    ensures
        sort_trees(s).len() == s.len(),
        forall|i: int| 0 <= i < s.len() ==> sort_trees(s)[i] == #[trigger] s[i].tree(),
    decreases s,
{
    if s.len() > 0 {
        lemma_sort_trees(s.drop_first());
        assert forall|i: int| 0 <= i < s.len() implies sort_trees(s)[i] == #[trigger] s[i].tree() by {
            if i > 0 {
                assert(s.drop_first()[i - 1] == s[i]);
                assert(sort_trees(s)[i] == sort_trees(s.drop_first())[i - 1]);
            } else {
                assert(sort_trees(s)[0] == s[0].tree());
            }
        }
    }
}

impl Sort {
    /// The sort's head identifier.
    pub closed spec fn id(&self) -> Identifier {
        self.identifier
    }

    /// The sort's parameters, in order.
    pub closed spec fn params(&self) -> Seq<Sort> {
        self.parameters@
    }

    /// The render tree of this sort: the bare identifier, or the list of
    /// the identifier followed by the parameters.
    pub open spec fn tree(&self) -> SExprView
        decreases *self,
    {
        if self.params().len() == 0 {
            self.id().tree()
        } else {
            SExprView::List(seq![self.id().tree()] + sort_trees(self.params()))
        }
    }

    /// A sort from its identifier and parameters.
    pub fn new(identifier: Identifier, parameters: Vec<Sort>) -> (r: Sort)
        ensures
            r.id() == identifier,
            r.params() == parameters@,
    {
        Sort { identifier, parameters }
    }

    /// The grammar expression this sort denotes.
    #[verifier::loop_isolation(false)]
    pub fn to_sexpr(&self) -> (r: Sexpr)
        ensures
            r.tree() == self.tree(),
        decreases *self,
    {
        if self.parameters.len() == 0 {
            self.identifier.to_sexpr()
        } else {
            let mut elems: Vec<Sexpr> = Vec::new();
            elems.push(self.identifier.to_sexpr());
            let n = self.parameters.len();
            let mut i: usize = 0;
            while i < n
                invariant
                    i <= n,
                    elems@.len() == 1 + i,
                    elems@[0].tree() == self.id().tree(),
                    forall|j: int|
                        0 <= j < i ==> #[trigger] elems@[1 + j].tree() == self.params()[j].tree(),
                decreases n - i,
            {
                proof {
                    assert(decreases_to!(*self => self.parameters@[i as int]));
                }
                elems.push(self.parameters[i].to_sexpr());
                i += 1;
            }
            let ghost es = elems@;
            let r = Sexpr::Sequence(elems);
            proof {
                lemma_trees_of(es);
                lemma_sort_trees(self.params());
                let target = seq![self.id().tree()] + sort_trees(self.params());
                assert forall|k: int| 0 <= k < es.len() implies trees_of(es)[k] == target[k] by {
                    if k >= 1 {
                        let j = k - 1;
                        assert(es[1 + j].tree() == self.params()[j].tree());
                    }
                }
                assert(trees_of(es) =~= target);
            }
            r
        }
    }

    /// The canonical text of this sort.
    pub fn to_text(&self) -> (r: String)
        ensures
            r@ == tree_text(self.tree()),
    {
        self.to_sexpr().to_text()
    }
}

} // verus!
