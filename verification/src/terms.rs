//! Terms of the grammar: constants, qualified identifiers, applications,
//! bindings and quantifiers.

use vstd::prelude::*;

use crate::identifiers::Identifier;
use crate::lexicon::{reserved_text, Reserved, Symbol};
use crate::render::{tree_text, SExprView};
use crate::sexprs::{lemma_trees_of, trees_of, Sexpr, SpecialConstant};
use crate::sorts::Sort;

verus! {

/// An identifier, possibly ascribed with a sort through the `as` form.
#[derive(Debug)]
pub struct QualifiedIdentifier(Identifier, Option<Sort>);

impl QualifiedIdentifier {
    /// The identifier.
    pub closed spec fn id(&self) -> Identifier {
        self.0
    }

    /// The ascribed sort, if any.
    pub closed spec fn sort(&self) -> Option<Sort> {
        self.1
    }

    /// The render tree: the bare identifier, or `(as identifier sort)`.
    pub open spec fn tree(&self) -> SExprView {
        match self.sort() {
            None => self.id().tree(),
            Some(sort) => SExprView::List(
                seq![
                    SExprView::Word(reserved_text(Reserved::As)),
                    self.id().tree(),
                    sort.tree(),
                ],
            ),
        }
    }

    /// A qualified identifier, with or without a sort ascription.
    pub fn new(identifier: Identifier, sort: Option<Sort>) -> (r: QualifiedIdentifier)
        ensures
            r.id() == identifier,
            r.sort() == sort,
    {
        QualifiedIdentifier(identifier, sort)
    }

    /// The grammar expression this qualified identifier denotes.
    pub fn to_sexpr(&self) -> (r: Sexpr)
        ensures
            r.tree() == self.tree(),
    {
        match &self.1 {
            None => self.0.to_sexpr(),
            Some(sort) => {
                let mut elems: Vec<Sexpr> = Vec::new();
                elems.push(Sexpr::Reserved(Reserved::As));
                elems.push(self.0.to_sexpr());
                elems.push(sort.to_sexpr());
                let ghost es = elems@;
                let r = Sexpr::Sequence(elems);
                proof {
                    lemma_trees_of(es);
                    assert(trees_of(es)[0] == es[0].tree());
                    assert(trees_of(es)[1] == es[1].tree());
                    assert(trees_of(es)[2] == es[2].tree());
                    assert(trees_of(es) =~= seq![
                        SExprView::Word(reserved_text(Reserved::As)),
                        self.id().tree(),
                        sort.tree(),
                    ]);
                }
                r
            },
        }
    }

    /// The canonical text of this qualified identifier.
    pub fn to_text(&self) -> (r: String)
        ensures
            r@ == tree_text(self.tree()),
    {
        self.to_sexpr().to_text()
    }
}

/// One `let` binding: a name and the term bound to it.
#[derive(Debug)]
pub struct VarBinding(pub Symbol, pub Term);

/// One quantified variable: a name and its sort.
#[derive(Debug)]
pub struct SortedVar(pub Symbol, pub Sort);

impl SortedVar {
    /// The render tree: the two-element list of name and sort.
    pub open spec fn tree(&self) -> SExprView {
        SExprView::List(seq![SExprView::Symbol(self.0@), self.1.tree()])
    }

    /// The grammar expression this sorted variable denotes.
    pub fn to_sexpr(&self) -> (r: Sexpr)
        ensures
            r.tree() == self.tree(),
    {
        let mut elems: Vec<Sexpr> = Vec::new();
        elems.push(Sexpr::Symbol(self.0.duplicate()));
        elems.push(self.1.to_sexpr());
        let ghost es = elems@;
        let r = Sexpr::Sequence(elems);
        proof {
            lemma_trees_of(es);
            assert(trees_of(es)[0] == es[0].tree());
            assert(trees_of(es)[1] == es[1].tree());
            assert(trees_of(es) =~= seq![SExprView::Symbol(self.0@), self.1.tree()]);
        }
        r
    }
}

/// A term of the grammar.
#[derive(Debug)]
pub enum Term {
    SpecialConstant(SpecialConstant),
    QualifiedIdentifier(QualifiedIdentifier),
    Application(QualifiedIdentifier, Vec<Term>),
    Let(Vec<VarBinding>, Box<Term>),
    Forall(Vec<SortedVar>, Box<Term>),
    Exists(Vec<SortedVar>, Box<Term>),
}

impl VarBinding {
    /// The render tree: the two-element list of name and bound term.
    pub open spec fn tree(&self) -> SExprView
        decreases *self,
    {
        SExprView::List(seq![SExprView::Symbol(self.0@), self.1.tree()])
    }
}

impl Term {
    /// The render tree of this term.
    pub open spec fn tree(&self) -> SExprView
        decreases *self,
    {
        match self {
            Term::SpecialConstant(c) => SExprView::Constant(c@),
            Term::QualifiedIdentifier(qi) => qi.tree(),
            Term::Application(qi, args) => SExprView::List(
                seq![qi.tree()] + term_trees(args@),
            ),
            Term::Let(bindings, body) => SExprView::List(
                seq![
                    SExprView::Word(reserved_text(Reserved::Let)),
                    SExprView::List(binding_trees(bindings@)),
                    body.tree(),
                ],
            ),
            Term::Forall(vars, body) => SExprView::List(
                seq![
                    SExprView::Word(reserved_text(Reserved::Forall)),
                    SExprView::List(sorted_var_trees(vars@)),
                    body.tree(),
                ],
            ),
            Term::Exists(vars, body) => SExprView::List(
                seq![
                    SExprView::Word(reserved_text(Reserved::Exists)),
                    SExprView::List(sorted_var_trees(vars@)),
                    body.tree(),
                ],
            ),
        }
    }
}

/// The render trees of a run of terms, in order.
pub open spec fn term_trees(s: Seq<Term>) -> Seq<SExprView>
    decreases s,
{
    if s.len() == 0 {
        Seq::empty()
    } else {
        seq![s[0].tree()] + term_trees(s.drop_first())
    }
}

/// The render trees of a run of bindings, in order.
pub open spec fn binding_trees(s: Seq<VarBinding>) -> Seq<SExprView>
    decreases s,
{
    if s.len() == 0 {
        Seq::empty()
    } else {
        seq![s[0].tree()] + binding_trees(s.drop_first())
    }
}

/// The render trees of a run of sorted variables, in order.
pub open spec fn sorted_var_trees(s: Seq<SortedVar>) -> Seq<SExprView>
    decreases s,
{
    if s.len() == 0 {
        Seq::empty()
    } else {
        seq![s[0].tree()] + sorted_var_trees(s.drop_first())
    }
}

pub proof fn lemma_term_trees(s: Seq<Term>)
    ensures
        term_trees(s).len() == s.len(),
        forall|i: int| 0 <= i < s.len() ==> term_trees(s)[i] == #[trigger] s[i].tree(),
    decreases s,
{
    if s.len() > 0 {
        lemma_term_trees(s.drop_first());
        assert forall|i: int| 0 <= i < s.len() implies term_trees(s)[i] == #[trigger] s[i].tree() by {
            if i > 0 {
                assert(s.drop_first()[i - 1] == s[i]);
                assert(term_trees(s)[i] == term_trees(s.drop_first())[i - 1]);
            } else {
                assert(term_trees(s)[0] == s[0].tree());
            }
        }
    }
}

pub proof fn lemma_binding_trees(s: Seq<VarBinding>)
    ensures
        binding_trees(s).len() == s.len(),
        forall|i: int| 0 <= i < s.len() ==> binding_trees(s)[i] == #[trigger] s[i].tree(),
    decreases s,
{
    if s.len() > 0 {
        lemma_binding_trees(s.drop_first());
        assert forall|i: int| 0 <= i < s.len() implies binding_trees(s)[i] == #[trigger] s[i].tree() by {
            if i > 0 {
                assert(s.drop_first()[i - 1] == s[i]);
                assert(binding_trees(s)[i] == binding_trees(s.drop_first())[i - 1]);
            } else {
                assert(binding_trees(s)[0] == s[0].tree());
            }
        }
    }
}

pub proof fn lemma_sorted_var_trees(s: Seq<SortedVar>)
    ensures
        sorted_var_trees(s).len() == s.len(),
        forall|i: int| 0 <= i < s.len() ==> sorted_var_trees(s)[i] == #[trigger] s[i].tree(),
    decreases s,
{
    if s.len() > 0 {
        lemma_sorted_var_trees(s.drop_first());
        assert forall|i: int|
            0 <= i < s.len() implies sorted_var_trees(s)[i] == #[trigger] s[i].tree() by {
            if i > 0 {
                assert(s.drop_first()[i - 1] == s[i]);
                assert(sorted_var_trees(s)[i] == sorted_var_trees(s.drop_first())[i - 1]);
            } else {
                assert(sorted_var_trees(s)[0] == s[0].tree());
            }
        }
    }
}

impl VarBinding {
    /// The grammar expression this binding denotes.
    pub fn to_sexpr(&self) -> (r: Sexpr)
        ensures
            r.tree() == self.tree(),
        decreases *self,
    {
        let mut elems: Vec<Sexpr> = Vec::new();
        elems.push(Sexpr::Symbol(self.0.duplicate()));
        proof {
            assert(decreases_to!(*self => self.1));
        }
        elems.push(self.1.to_sexpr());
        let ghost es = elems@;
        let r = Sexpr::Sequence(elems);
        proof {
            lemma_trees_of(es);
            assert(trees_of(es)[0] == es[0].tree());
            assert(trees_of(es)[1] == es[1].tree());
            assert(trees_of(es) =~= seq![SExprView::Symbol(self.0@), self.1.tree()]);
        }
        r
    }
}

impl Term {
    /// The grammar expression this term denotes.
    #[verifier::loop_isolation(false)]
    pub fn to_sexpr(&self) -> (r: Sexpr)
        ensures
            r.tree() == self.tree(),
        decreases *self,
    {
        match self {
            Term::SpecialConstant(c) => Sexpr::SpecialConstant(c.duplicate()),
            Term::QualifiedIdentifier(qi) => qi.to_sexpr(),
            Term::Application(qi, args) => {
                let mut elems: Vec<Sexpr> = Vec::new();
                elems.push(qi.to_sexpr());
                let n = args.len();
                let mut i: usize = 0;
                while i < n
                    invariant
                        i <= n,
                        elems@.len() == 1 + i,
                        elems@[0].tree() == qi.tree(),
                        forall|j: int|
                            0 <= j < i ==> #[trigger] elems@[1 + j].tree() == args@[j].tree(),
                    decreases n - i,
                {
                    proof {
                        assert(decreases_to!(*self => args@[i as int]));
                    }
                    elems.push(args[i].to_sexpr());
                    i += 1;
                }
                let ghost es = elems@;
                let r = Sexpr::Sequence(elems);
                proof {
                    lemma_trees_of(es);
                    lemma_term_trees(args@);
                    let target = seq![qi.tree()] + term_trees(args@);
                    assert forall|k: int| 0 <= k < es.len() implies trees_of(es)[k] == target[k] by {
                        if k >= 1 {
                            let j = k - 1;
                            assert(es[1 + j].tree() == args@[j].tree());
                        }
                    }
                    assert(trees_of(es) =~= target);
                }
                r
            },
            Term::Let(bindings, body) => {
                let mut inner: Vec<Sexpr> = Vec::new();
                let n = bindings.len();
                let mut i: usize = 0;
                while i < n
                    invariant
                        i <= n,
                        inner@.len() == i,
                        forall|j: int|
                            0 <= j < i ==> #[trigger] inner@[j].tree() == bindings@[j].tree(),
                    decreases n - i,
                {
                    proof {
                        assert(decreases_to!(*self => bindings@[i as int]));
                    }
                    inner.push(bindings[i].to_sexpr());
                    i += 1;
                }
                let ghost ins = inner@;
                let mut elems: Vec<Sexpr> = Vec::new();
                elems.push(Sexpr::Reserved(Reserved::Let));
                elems.push(Sexpr::Sequence(inner));
                proof {
                    assert(decreases_to!(*self => **body));
                }
                elems.push(body.to_sexpr());
                let ghost es = elems@;
                let r = Sexpr::Sequence(elems);
                proof {
                    lemma_trees_of(es);
                    lemma_trees_of(ins);
                    lemma_binding_trees(bindings@);
                    assert forall|k: int| 0 <= k < ins.len() implies trees_of(ins)[k] == binding_trees(bindings@)[k] by {
                        assert(trees_of(ins)[k] == ins[k].tree());
                        assert(ins[k].tree() == bindings@[k].tree());
                    }
                    assert(trees_of(ins) =~= binding_trees(bindings@));
                    assert(trees_of(es)[0] == es[0].tree());
                    assert(trees_of(es)[1] == es[1].tree());
                    assert(trees_of(es)[2] == es[2].tree());
                    assert(trees_of(es) =~= seq![
                        SExprView::Word(reserved_text(Reserved::Let)),
                        SExprView::List(binding_trees(bindings@)),
                        body.tree(),
                    ]);
                }
                r
            },
            Term::Forall(vars, body) => {
                let mut inner: Vec<Sexpr> = Vec::new();
                let n = vars.len();
                let mut i: usize = 0;
                while i < n
                    invariant
                        i <= n,
                        inner@.len() == i,
                        forall|j: int|
                            0 <= j < i ==> #[trigger] inner@[j].tree() == vars@[j].tree(),
                    decreases n - i,
                {
                    inner.push(vars[i].to_sexpr());
                    i += 1;
                }
                let ghost ins = inner@;
                let mut elems: Vec<Sexpr> = Vec::new();
                elems.push(Sexpr::Reserved(Reserved::Forall));
                elems.push(Sexpr::Sequence(inner));
                proof {
                    assert(decreases_to!(*self => **body));
                }
                elems.push(body.to_sexpr());
                let ghost es = elems@;
                let r = Sexpr::Sequence(elems);
                proof {
                    lemma_trees_of(es);
                    lemma_trees_of(ins);
                    lemma_sorted_var_trees(vars@);
                    assert forall|k: int| 0 <= k < ins.len() implies trees_of(ins)[k] == sorted_var_trees(vars@)[k] by {
                        assert(trees_of(ins)[k] == ins[k].tree());
                        assert(ins[k].tree() == vars@[k].tree());
                    }
                    assert(trees_of(ins) =~= sorted_var_trees(vars@));
                    assert(trees_of(es)[0] == es[0].tree());
                    assert(trees_of(es)[1] == es[1].tree());
                    assert(trees_of(es)[2] == es[2].tree());
                    assert(trees_of(es) =~= seq![
                        SExprView::Word(reserved_text(Reserved::Forall)),
                        SExprView::List(sorted_var_trees(vars@)),
                        body.tree(),
                    ]);
                }
                r
            },
            Term::Exists(vars, body) => {
                let mut inner: Vec<Sexpr> = Vec::new();
                let n = vars.len();
                let mut i: usize = 0;
                while i < n
                    invariant
                        i <= n,
                        inner@.len() == i,
                        forall|j: int|
                            0 <= j < i ==> #[trigger] inner@[j].tree() == vars@[j].tree(),
                    decreases n - i,
                {
                    inner.push(vars[i].to_sexpr());
                    i += 1;
                }
                let ghost ins = inner@;
                let mut elems: Vec<Sexpr> = Vec::new();
                elems.push(Sexpr::Reserved(Reserved::Exists));
                elems.push(Sexpr::Sequence(inner));
                proof {
                    assert(decreases_to!(*self => **body));
                }
                elems.push(body.to_sexpr());
                let ghost es = elems@;
                let r = Sexpr::Sequence(elems);
                proof {
                    lemma_trees_of(es);
                    lemma_trees_of(ins);
                    lemma_sorted_var_trees(vars@);
                    assert forall|k: int| 0 <= k < ins.len() implies trees_of(ins)[k] == sorted_var_trees(vars@)[k] by {
                        assert(trees_of(ins)[k] == ins[k].tree());
                        assert(ins[k].tree() == vars@[k].tree());
                    }
                    assert(trees_of(ins) =~= sorted_var_trees(vars@));
                    assert(trees_of(es)[0] == es[0].tree());
                    assert(trees_of(es)[1] == es[1].tree());
                    assert(trees_of(es)[2] == es[2].tree());
                    assert(trees_of(es) =~= seq![
                        SExprView::Word(reserved_text(Reserved::Exists)),
                        SExprView::List(sorted_var_trees(vars@)),
                        body.tree(),
                    ]);
                }
                r
            },
        }
    }

    /// The canonical text of this term.
    pub fn to_text(&self) -> (r: String)
        ensures
            r@ == tree_text(self.tree()),
    {
        self.to_sexpr().to_text()
    }
}

} // verus!
