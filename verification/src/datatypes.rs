//! User-declared datatypes for the typed term layer: a named datatype
//! with constructors, each with named, sorted selectors.

use vstd::prelude::*;

use crate::lexicon::Symbol;
use crate::render::SExprView;
use crate::typecheck::{sort_tree, Sort};

verus! {

/// A selector: a field name and the field's sort.
#[derive(Debug, PartialEq, Eq)]
pub struct Selector {
    pub name: Symbol,
    pub sort: Sort,
}

impl Selector {
    /// The render tree: the two-element list of name and sort.
    pub open spec fn tree(&self) -> SExprView {
        SExprView::List(seq![SExprView::Symbol(self.name@), sort_tree(self.sort)])
    }
}

/// A constructor: a name and its selectors.
#[derive(Debug, PartialEq, Eq)]
pub struct Constructor {
    pub name: Symbol,
    pub selectors: Vec<Selector>,
}

/// The render trees of a run of selectors, in order.
pub open spec fn selector_trees(s: Seq<Selector>) -> Seq<SExprView>
    decreases s,
{
    if s.len() == 0 {
        Seq::empty()
    } else {
        seq![s[0].tree()] + selector_trees(s.drop_first())
    }
}

pub proof fn lemma_selector_trees(s: Seq<Selector>)
    ensures
        selector_trees(s).len() == s.len(),
        forall|i: int| 0 <= i < s.len() ==> selector_trees(s)[i] == #[trigger] s[i].tree(),
    decreases s,
{
    if s.len() > 0 {
        lemma_selector_trees(s.drop_first());
        assert forall|i: int|
            0 <= i < s.len() implies selector_trees(s)[i] == #[trigger] s[i].tree() by {
            if i > 0 {
                assert(s.drop_first()[i - 1] == s[i]);
                assert(selector_trees(s)[i] == selector_trees(s.drop_first())[i - 1]);
            } else {
                assert(selector_trees(s)[0] == s[0].tree());
            }
        }
    }
}

impl Constructor {
    /// The render tree: the list of the name followed by the selectors.
    pub open spec fn tree(&self) -> SExprView {
        SExprView::List(seq![SExprView::Symbol(self.name@)] + selector_trees(self.selectors@))
    }
}

/// The render trees of a run of constructors, in order.
pub open spec fn constructor_trees(s: Seq<Constructor>) -> Seq<SExprView>
    decreases s,
{
    if s.len() == 0 {
        Seq::empty()
    } else {
        seq![s[0].tree()] + constructor_trees(s.drop_first())
    }
}

pub proof fn lemma_constructor_trees(s: Seq<Constructor>)
    ensures
        constructor_trees(s).len() == s.len(),
        forall|i: int| 0 <= i < s.len() ==> constructor_trees(s)[i] == #[trigger] s[i].tree(),
    decreases s,
{
    if s.len() > 0 {
        lemma_constructor_trees(s.drop_first());
        assert forall|i: int|
            0 <= i < s.len() implies constructor_trees(s)[i] == #[trigger] s[i].tree() by {
            if i > 0 {
                assert(s.drop_first()[i - 1] == s[i]);
                assert(constructor_trees(s)[i] == constructor_trees(s.drop_first())[i - 1]);
            } else {
                assert(constructor_trees(s)[0] == s[0].tree());
            }
        }
    }
}

/// A declared datatype: a name and its constructors.
#[derive(Debug, PartialEq, Eq)]
pub struct Datatype {
    pub name: Symbol,
    pub constructors: Vec<Constructor>,
}

} // verus!
