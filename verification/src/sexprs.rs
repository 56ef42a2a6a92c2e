//! The grammar's tree form: special constants and the general
//! parenthesized expression built from atoms and sequences.

use vstd::prelude::*;

use crate::lexicon::{string_const_text, Keyword, Reserved, StringConstant, Symbol};
use crate::numerals::{int_text, numeral_string};
use crate::render::{
    depth_of, first_pending, lead_sep, lemma_depth_push, lemma_list_depth, lemma_list_toks_concat,
    lemma_run_ok_one, lemma_run_ok_split, lemma_tree_render, list_toks, run_ok, text_of,
    tree_text, tree_toks, SExprView, Tok, Write, Writer,
};

verus! {

/// The mathematical content of a special constant.
pub enum ConstantView {
    Numeral(i64),
    Str(Seq<char>),
}

/// The token text of a special constant.
pub open spec fn constant_text(c: ConstantView) -> Seq<char> {
    match c {
        ConstantView::Numeral(n) => int_text(n as int),
        ConstantView::Str(s) => string_const_text(s),
    }
}

/// A literal constant of the grammar: a signed numeral or a validated
/// string constant.
#[derive(Clone, Debug)]
pub enum SpecialConstant {
    Numeral(i64),
    String(StringConstant),
}

impl View for SpecialConstant {
    type V = ConstantView;

    open spec fn view(&self) -> ConstantView {
        match self {
            SpecialConstant::Numeral(n) => ConstantView::Numeral(*n),
            SpecialConstant::String(s) => ConstantView::Str(s@),
        }
    }
}

impl SpecialConstant {
    /// An owned copy of this constant.
    pub fn duplicate(&self) -> (r: SpecialConstant)
        ensures
            r == *self,
    {
        match self {
            SpecialConstant::Numeral(n) => SpecialConstant::Numeral(*n),
            SpecialConstant::String(s) => SpecialConstant::String(s.duplicate()),
        }
    }

    /// The constant's whole token.
    pub fn token(&self) -> (r: String)
        ensures
            r@ == constant_text(self@),
    {
        match self {
            SpecialConstant::Numeral(n) => numeral_string(*n),
            SpecialConstant::String(s) => s.token(),
        }
    }
}

/// An expression of the grammar: an atom, or a sequence emitted between
/// parentheses.
pub enum Sexpr {
    SpecialConstant(SpecialConstant),
    Symbol(Symbol),
    Keyword(Keyword),
    Reserved(Reserved),
    Sequence(Vec<Sexpr>),
}

impl Sexpr {
    /// The render tree this expression denotes.
    pub open spec fn tree(&self) -> SExprView
        decreases self,
    {
        match self {
            Sexpr::SpecialConstant(c) => SExprView::Constant(c@),
            Sexpr::Symbol(s) => SExprView::Symbol(s@),
            Sexpr::Keyword(k) => SExprView::Keyword(k@),
            Sexpr::Reserved(r) => SExprView::Word(crate::lexicon::reserved_text(*r)),
            Sexpr::Sequence(v) => SExprView::List(trees_of(v@)),
        }
    }
}

/// The render trees of a sequence of expressions, in order.
pub open spec fn trees_of(s: Seq<Sexpr>) -> Seq<SExprView>
    decreases s,
{
    if s.len() == 0 {
        Seq::empty()
    } else {
        seq![s[0].tree()] + trees_of(s.drop_first())
    }
}

pub proof fn lemma_trees_of(s: Seq<Sexpr>)
    ensures
        trees_of(s).len() == s.len(),
        forall|i: int| 0 <= i < s.len() ==> trees_of(s)[i] == #[trigger] s[i].tree(),
    decreases s,
{
    if s.len() > 0 {
        lemma_trees_of(s.drop_first());
        assert forall|i: int| 0 <= i < s.len() implies trees_of(s)[i] == #[trigger] s[i].tree() by {
            if i > 0 {
                assert(s.drop_first()[i - 1] == s[i]);
                assert(trees_of(s)[i] == trees_of(s.drop_first())[i - 1]);
            } else {
                assert(trees_of(s)[0] == s[0].tree());
            }
        }
    }
}

impl Sexpr {
    /// The canonical text of this expression.
    pub fn to_text(&self) -> (r: String)
        ensures
            r@ == tree_text(self.tree()),
    {
        let w = crate::render::fmt::FmtWriter::new();
        let ghost h0 = w.hist();
        proof {
            assert(run_ok::<crate::render::fmt::FmtWriter>(h0, tree_toks(self.tree())));
            lemma_tree_render(h0, self.tree());
            assert(h0 + tree_toks(self.tree()) =~= tree_toks(self.tree()));
            assert(text_of(h0) =~= Seq::<char>::empty());
            assert(lead_sep(h0) =~= Seq::<char>::empty());
        }
        match self.write(w) {
            Ok(w2) => {
                proof {
                    assert(text_of(w2.hist()) =~= tree_text(self.tree()));
                }
                w2.finish()
            },
            Err(_) => {
                proof {
                    assert(false);
                }
                unreached()
            },
        }
    }
}

impl Write for Sexpr {
    open spec fn tree(&self) -> SExprView {
        Sexpr::tree(self)
    }

    open spec fn renderable(&self) -> bool {
        true
    }

    #[verifier::loop_isolation(false)]
    fn write<W: Writer>(&self, w: W) -> (r: Result<W, W::Error>)
        decreases Sexpr::tree(self),
    {
        let ghost h0 = w.hist();
        let ghost b0 = w.base();
        let ghost ts = Sexpr::tree(self);
        let ghost tks = tree_toks(ts);
        match self {
            Sexpr::SpecialConstant(c) => {
                let tok = c.token();
                proof {
                    lemma_run_ok_one::<W>(h0, Tok::Word(tok@));
                }
                match w.write_word(tok.as_str()) {
                    Ok(w2) => {
                        proof {
                            assert(w2.hist() =~= h0 + tks);
                        }
                        Ok(w2)
                    },
                    Err(e) => Err(e),
                }
            },
            Sexpr::Symbol(s) => {
                let tok = s.token();
                proof {
                    lemma_run_ok_one::<W>(h0, Tok::Word(tok@));
                }
                match w.write_word(tok.as_str()) {
                    Ok(w2) => {
                        proof {
                            assert(w2.hist() =~= h0 + tks);
                        }
                        Ok(w2)
                    },
                    Err(e) => Err(e),
                }
            },
            Sexpr::Keyword(k) => {
                let tok = k.token();
                proof {
                    lemma_run_ok_one::<W>(h0, Tok::Word(tok@));
                }
                match w.write_word(tok.as_str()) {
                    Ok(w2) => {
                        proof {
                            assert(w2.hist() =~= h0 + tks);
                        }
                        Ok(w2)
                    },
                    Err(e) => Err(e),
                }
            },
            Sexpr::Reserved(res) => {
                let tok = res.spelling();
                proof {
                    lemma_run_ok_one::<W>(h0, Tok::Word(tok@));
                }
                match w.write_word(tok) {
                    Ok(w2) => {
                        proof {
                            assert(w2.hist() =~= h0 + tks);
                        }
                        Ok(w2)
                    },
                    Err(e) => Err(e),
                }
            },
            Sexpr::Sequence(v) => {
                let ghost vs = trees_of(v@);
                let ghost lt = list_toks(vs);
                proof {
                    lemma_trees_of(v@);
                    assert(tks =~= seq![Tok::Open] + (lt + seq![Tok::Close]));
                    lemma_run_ok_split::<W>(h0, seq![Tok::Open], lt + seq![Tok::Close]);
                    lemma_run_ok_one::<W>(h0, Tok::Open);
                    w.depth_nonneg();
                }
                let ghost hopen = h0.push(Tok::Open);
                let mut cur = match w.enter() {
                    Ok(x) => x,
                    Err(e) => {
                        return Err(e);
                    },
                };
                proof {
                    assert(h0 + seq![Tok::Open] =~= hopen);
                    assert(vs.take(0) =~= Seq::<SExprView>::empty());
                    assert(vs.skip(0) =~= vs);
                    assert(hopen + list_toks(vs.take(0)) =~= hopen);
                    if W::total() && run_ok::<W>(h0, tks) {
                        assert(run_ok::<W>(h0 + seq![Tok::Open], lt + seq![Tok::Close]));
                    }
                }
                let n = v.len();
                let mut i: usize = 0;
                while i < n
                    invariant
                        i <= n,
                        n == v.len(),
                        vs == trees_of(v@),
                        vs.len() == n,
                        forall|j: int| 0 <= j < n ==> vs[j] == #[trigger] v@[j].tree(),
                        lt == list_toks(vs),
                        tks == tree_toks(SExprView::List(vs)),
                        ts == SExprView::List(vs),
                        cur.wf(),
                        cur.hist() == hopen + list_toks(vs.take(i as int)),
                        cur.base() == b0,
                        hopen == h0.push(Tok::Open),
                        depth_of(h0) >= 0,
                        W::total() && run_ok::<W>(h0, tks) ==> run_ok::<W>(
                            cur.hist(),
                            list_toks(vs.skip(i as int)) + seq![Tok::Close],
                        ),
                    decreases n - i,
                {
                    proof {
                        assert(vs.skip(i as int) =~= seq![vs[i as int]] + vs.skip(i + 1));
                        lemma_list_toks_concat(seq![vs[i as int]], vs.skip(i + 1));
                        assert(list_toks(seq![vs[i as int]]) =~= tree_toks(vs[i as int])) by {
                            assert(seq![vs[i as int]].drop_first() =~= Seq::<SExprView>::empty());
                            assert(tree_toks(vs[i as int]) + list_toks(Seq::<SExprView>::empty())
                                =~= tree_toks(vs[i as int]));
                        }
                        assert(list_toks(vs.skip(i as int)) + seq![Tok::Close] =~= tree_toks(
                            vs[i as int],
                        ) + (list_toks(vs.skip(i + 1)) + seq![Tok::Close]));
                        lemma_run_ok_split::<W>(
                            cur.hist(),
                            tree_toks(vs[i as int]),
                            list_toks(vs.skip(i + 1)) + seq![Tok::Close],
                        );
                        assert(decreases_to!(SExprView::List(vs) => vs));
                        assert(decreases_to!(vs => vs[i as int]));
                        assert(decreases_to!(Sexpr::tree(self) => Sexpr::tree(&v@[i as int])));
                    }
                    let cur2 = match v[i].write(cur) {
                        Ok(x) => x,
                        Err(e) => {
                            proof {
                                if W::total() && run_ok::<W>(h0, tks) {
                                    assert(run_ok::<W>(cur.hist(), tree_toks(vs[i as int])));
                                    assert(vs[i as int] == v@[i as int].tree());
                                    assert(false);
                                }
                            }
                            return Err(e);
                        },
                    };
                    cur = cur2;
                    proof {
                        assert(vs.take(i + 1) =~= vs.take(i as int) + seq![vs[i as int]]);
                        lemma_list_toks_concat(vs.take(i as int), seq![vs[i as int]]);
                        assert(list_toks(seq![vs[i as int]]) =~= tree_toks(vs[i as int])) by {
                            assert(seq![vs[i as int]].drop_first() =~= Seq::<SExprView>::empty());
                            assert(tree_toks(vs[i as int]) + list_toks(Seq::<SExprView>::empty())
                                =~= tree_toks(vs[i as int]));
                        }
                        assert(cur.hist() =~= hopen + list_toks(vs.take(i + 1)));
                    }
                    i += 1;
                }
                proof {
                    assert(vs.take(n as int) =~= vs);
                    assert(vs.skip(n as int) =~= Seq::<SExprView>::empty());
                    assert(list_toks(Seq::<SExprView>::empty()) + seq![Tok::Close] =~= seq![
                        Tok::Close,
                    ]);
                    lemma_run_ok_one::<W>(cur.hist(), Tok::Close);
                    crate::render::lemma_depth_concat(hopen, list_toks(vs));
                    lemma_list_depth(vs);
                    assert(depth_of(hopen) == depth_of(h0) + 1) by {
                        assert(hopen.drop_last() =~= h0);
                    }
                    assert(depth_of(cur.hist()) >= 1);
                }
                match cur.leave() {
                    Ok(w2) => {
                        proof {
                            assert(w2.hist() =~= h0 + tks);
                        }
                        Ok(w2)
                    },
                    Err(e) => Err(e),
                }
            },
        }
    }
}

} // verus!
