//! The function definition command:
//! `(define-fun name ((arg sort) ...) result-sort body)`, or its
//! `define-fun-rec` form for a recursive definition.

use vstd::prelude::*;

use crate::functions::FunctionDefinition;
use crate::identifiers::Identifier;
use crate::render::{
    depth_of, lemma_depth_concat, lemma_depth_push, lemma_list_depth, lemma_list_toks_concat,
    lemma_run_ok_one, lemma_run_ok_split, lemma_tree_depth, list_toks, run_ok, tree_toks,
    SExprView, Tok, Write, Writer,
};
use crate::typecheck::{sort_tree, Sort, Term};

verus! {

/// What can go wrong defining a function: the backend refused a write.
#[derive(Debug)]
pub enum Error<WE> {
    WriteError(WE),
}

/// The render tree of one argument: the pair `(identifier sort)`.
pub open spec fn arg_tree(a: (Identifier, Sort)) -> SExprView {
    SExprView::List(seq![a.0.tree(), sort_tree(a.1)])
}

/// The render trees of a run of arguments, in order.
pub open spec fn arg_trees(s: Seq<(Identifier, Sort)>) -> Seq<SExprView>
    decreases s,
{
    if s.len() == 0 {
        Seq::empty()
    } else {
        seq![arg_tree(s[0])] + arg_trees(s.drop_first())
    }
}

pub proof fn lemma_arg_trees(s: Seq<(Identifier, Sort)>)
    ensures
        arg_trees(s).len() == s.len(),
        forall|i: int| 0 <= i < s.len() ==> arg_trees(s)[i] == arg_tree(#[trigger] s[i]),
    decreases s,
{
    if s.len() > 0 {
        lemma_arg_trees(s.drop_first());
        assert forall|i: int|
            0 <= i < s.len() implies arg_trees(s)[i] == arg_tree(#[trigger] s[i]) by {
            if i > 0 {
                assert(s.drop_first()[i - 1] == s[i]);
                assert(arg_trees(s)[i] == arg_trees(s.drop_first())[i - 1]);
            } else {
                assert(arg_trees(s)[0] == arg_tree(s[0]));
            }
        }
    }
}

fn write_arg<W: Writer>(ident: &Identifier, sort: &Sort, w: W) -> (r: Result<W, W::Error>)
    requires
        w.wf(),
    ensures
        r matches Ok(w2) ==> w2.wf() && w2.hist() == w.hist() + tree_toks(
            arg_tree((*ident, *sort)),
        ) && w2.base() == w.base(),
        W::total() && run_ok::<W>(w.hist(), tree_toks(arg_tree((*ident, *sort)))) ==> r is Ok,
{
    let ghost h0 = w.hist();
    let ghost ts = tree_toks(arg_tree((*ident, *sort)));
    let sort_tok = sort.token();
    let ghost st = Tok::Word(sort_tok@);
    proof {
        reveal_with_fuel(list_toks, 4);
        reveal_with_fuel(tree_toks, 3);
        assert(tree_toks(sort_tree(*sort)) =~= seq![st]);
        assert(ts =~= seq![Tok::Open] + (tree_toks(ident.tree()) + (seq![st]
            + seq![Tok::Close]))) by {
            let l2 = seq![ident.tree(), sort_tree(*sort)];
            assert(l2.drop_first() =~= seq![l2[1]]);
            assert(seq![l2[1]].drop_first() =~= Seq::<SExprView>::empty());
            assert(list_toks(seq![l2[1]]) =~= tree_toks(l2[1]));
        }
        lemma_run_ok_split::<W>(
            h0,
            seq![Tok::Open],
            tree_toks(ident.tree()) + (seq![st] + seq![Tok::Close]),
        );
        lemma_run_ok_one::<W>(h0, Tok::Open);
        w.depth_nonneg();
    }
    let ghost h1 = h0.push(Tok::Open);
    let w1 = match w.enter() {
        Ok(x) => x,
        Err(e) => {
            return Err(e);
        },
    };
    proof {
        assert(h0 + seq![Tok::Open] =~= h1);
        lemma_run_ok_split::<W>(h1, tree_toks(ident.tree()), seq![st] + seq![Tok::Close]);
    }
    let ident_expr = ident.to_sexpr();
    let ghost h2 = h1 + tree_toks(ident.tree());
    let w2 = match ident_expr.write(w1) {
        Ok(x) => x,
        Err(e) => {
            return Err(e);
        },
    };
    proof {
        lemma_run_ok_split::<W>(h2, seq![st], seq![Tok::Close]);
        lemma_run_ok_one::<W>(h2, st);
    }
    let ghost h3 = h2.push(st);
    let w3 = match w2.write_word(sort_tok.as_str()) {
        Ok(x) => x,
        Err(e) => {
            return Err(e);
        },
    };
    proof {
        assert(h2 + seq![st] =~= h3);
        lemma_run_ok_one::<W>(h3, Tok::Close);
        lemma_depth_push(h0, Tok::Open);
        lemma_tree_depth(ident.tree());
        lemma_depth_concat(h1, tree_toks(ident.tree()));
        lemma_depth_push(h2, st);
        assert(depth_of(h3) >= 1);
    }
    match w3.leave() {
        Ok(x) => {
            proof {
                assert(x.hist() =~= h0 + ts);
            }
            Ok(x)
        },
        Err(e) => Err(e),
    }
}

#[verifier::loop_isolation(false)]
#[verifier::rlimit(100)]
fn write_args<W: Writer>(args: &Vec<(Identifier, Sort)>, w: W) -> (r: Result<W, W::Error>)
    requires
        w.wf(),
    ensures
        r matches Ok(w2) ==> w2.wf() && w2.hist() == w.hist() + tree_toks(
            SExprView::List(arg_trees(args@)),
        ) && w2.base() == w.base(),
        W::total() && run_ok::<W>(w.hist(), tree_toks(SExprView::List(arg_trees(args@)))) ==> r
            is Ok,
{
    let ghost h0 = w.hist();
    let ghost b0 = w.base();
    let ghost vs = arg_trees(args@);
    let ghost lt = list_toks(vs);
    let ghost ts = tree_toks(SExprView::List(vs));
    proof {
        lemma_arg_trees(args@);
        assert(ts =~= seq![Tok::Open] + (lt + seq![Tok::Close]));
        lemma_run_ok_split::<W>(h0, seq![Tok::Open], lt + seq![Tok::Close]);
        lemma_run_ok_one::<W>(h0, Tok::Open);
        w.depth_nonneg();
    }
    let ghost h1 = h0.push(Tok::Open);
    let mut cur = match w.enter() {
        Ok(x) => x,
        Err(e) => {
            return Err(e);
        },
    };
    proof {
        assert(h0 + seq![Tok::Open] =~= h1);
        assert(vs.take(0) =~= Seq::<SExprView>::empty());
        assert(vs.skip(0) =~= vs);
        assert(h1 + list_toks(vs.take(0)) =~= h1);
    }
    let n = args.len();
    let mut i: usize = 0;
    while i < n
        invariant
            i <= n,
            n == args.len(),
            vs == arg_trees(args@),
            vs.len() == n,
            forall|j: int| 0 <= j < n ==> vs[j] == arg_tree(#[trigger] args@[j]),
            lt == list_toks(vs),
            cur.wf(),
            cur.hist() == h1 + list_toks(vs.take(i as int)),
            cur.base() == b0,
            W::total() && run_ok::<W>(h0, ts) ==> run_ok::<W>(
                cur.hist(),
                list_toks(vs.skip(i as int)) + seq![Tok::Close],
            ),
        decreases n - i,
    {
        proof {
            assert(vs.skip(i as int) =~= seq![vs[i as int]] + vs.skip(i + 1));
            lemma_list_toks_concat(seq![vs[i as int]], vs.skip(i + 1));
            assert(list_toks(seq![vs[i as int]]) =~= tree_toks(vs[i as int])) by {
                assert(seq![vs[i as int]].drop_first() =~= Seq::<SExprView>::empty());
                assert(tree_toks(vs[i as int]) + list_toks(Seq::<SExprView>::empty())
                    =~= tree_toks(vs[i as int]));
            }
            assert(list_toks(vs.skip(i as int)) + seq![Tok::Close] =~= tree_toks(vs[i as int]) + (
            list_toks(vs.skip(i + 1)) + seq![Tok::Close]));
            lemma_run_ok_split::<W>(
                cur.hist(),
                tree_toks(vs[i as int]),
                list_toks(vs.skip(i + 1)) + seq![Tok::Close],
            );
            assert((args@[i as int].0, args@[i as int].1) == args@[i as int]);
        }
        let cur2 = match write_arg(&args[i].0, &args[i].1, cur) {
            Ok(x) => x,
            Err(e) => {
                proof {
                    if W::total() && run_ok::<W>(h0, ts) {
                        assert(run_ok::<W>(cur.hist(), tree_toks(vs[i as int])));
                        assert(false);
                    }
                }
                return Err(e);
            },
        };
        cur = cur2;
        proof {
            assert(vs.take(i + 1) =~= vs.take(i as int) + seq![vs[i as int]]);
            lemma_list_toks_concat(vs.take(i as int), seq![vs[i as int]]);
            assert(list_toks(seq![vs[i as int]]) =~= tree_toks(vs[i as int])) by {
                assert(seq![vs[i as int]].drop_first() =~= Seq::<SExprView>::empty());
                assert(tree_toks(vs[i as int]) + list_toks(Seq::<SExprView>::empty())
                    =~= tree_toks(vs[i as int]));
            }
            assert(cur.hist() =~= h1 + list_toks(vs.take(i + 1)));
        }
        i += 1;
    }
    proof {
        assert(vs.take(n as int) =~= vs);
        assert(vs.skip(n as int) =~= Seq::<SExprView>::empty());
        assert(list_toks(Seq::<SExprView>::empty()) + seq![Tok::Close] =~= seq![Tok::Close]);
        lemma_run_ok_one::<W>(cur.hist(), Tok::Close);
        lemma_list_depth(vs);
        lemma_depth_concat(h1, list_toks(vs));
        lemma_depth_push(h0, Tok::Open);
        assert(depth_of(cur.hist()) >= 1);
    }
    match cur.leave() {
        Ok(x) => {
            proof {
                assert(x.hist() =~= h0 + ts);
            }
            Ok(x)
        },
        Err(e) => Err(e),
    }
}

/// The function definition command over a typed body.
pub struct DefineFun<E: Term> {
    definition: FunctionDefinition<E>,
    is_rec: bool,
}

impl<E: Term> DefineFun<E> {
    /// The definition this command emits.
    pub closed spec fn spec_definition(&self) -> FunctionDefinition<E> {
        self.definition
    }

    /// Whether the definition is emitted in the recursive form.
    pub closed spec fn spec_is_rec(&self) -> bool {
        self.is_rec
    }

    /// The directive's spelling for this form.
    pub open spec fn head_text(&self) -> Seq<char> {
        if self.spec_is_rec() {
            "define-fun-rec"@
        } else {
            "define-fun"@
        }
    }

    /// The render tree: the directive word, the name, the argument list,
    /// the result sort, and the body.
    pub open spec fn tree(&self) -> SExprView {
        SExprView::List(
            seq![
                SExprView::Word(self.head_text()),
                SExprView::Word(self.spec_definition().sig.name@),
                SExprView::List(arg_trees(self.spec_definition().sig.args@)),
                sort_tree(self.spec_definition().sig.return_sort),
                self.spec_definition().body.tree(),
            ],
        )
    }

    /// A function definition command.
    pub fn new(definition: FunctionDefinition<E>, is_rec: bool) -> (r: DefineFun<E>)
        ensures
            r.spec_definition() == definition,
            r.spec_is_rec() == is_rec,
    {
        DefineFun { definition, is_rec }
    }

    /// Drive the writer through the whole definition.
    #[verifier::rlimit(100)]
    pub fn write<W: Writer>(&self, w: W) -> (r: Result<W, Error<W::Error>>)
        requires
            w.wf(),
            self.spec_definition().body.renderable(),
        ensures
            r matches Ok(w2) ==> w2.wf() && w2.hist() == w.hist() + tree_toks(self.tree())
                && w2.base() == w.base(),
            W::total() && run_ok::<W>(w.hist(), tree_toks(self.tree())) ==> r is Ok,
    {
        let ghost h0 = w.hist();
        let ghost ts = tree_toks(self.tree());
        let ghost vs = arg_trees(self.definition.sig.args@);
        let ghost argts = tree_toks(SExprView::List(vs));
        let ghost bodyt = tree_toks(self.definition.body.tree());
        let cmd_tok = if self.is_rec {
            "define-fun-rec"
        } else {
            "define-fun"
        };
        let ghost ct = Tok::Word(self.head_text());
        let ghost nt = Tok::Word(self.definition.sig.name@);
        let ghost rt = Tok::Word(
            crate::render::atom_text(sort_tree(self.definition.sig.return_sort)),
        );
        proof {
            reveal_with_fuel(list_toks, 7);
            reveal_with_fuel(tree_toks, 3);
            assert(tree_toks(SExprView::Word(self.head_text())) =~= seq![ct]);
            assert(tree_toks(SExprView::Word(self.definition.sig.name@)) =~= seq![nt]);
            assert(tree_toks(sort_tree(self.definition.sig.return_sort)) =~= seq![rt]) by {
                match self.definition.sig.return_sort {
                    Sort::Int => {},
                    Sort::Bool => {},
                    Sort::Datatype(_) => {},
                }
            }
            assert(ts =~= seq![Tok::Open] + (seq![ct] + (seq![nt] + (argts + (seq![rt] + (bodyt
                + seq![Tok::Close])))))) by {
                let l5 = seq![
                    SExprView::Word(self.head_text()),
                    SExprView::Word(self.definition.sig.name@),
                    SExprView::List(vs),
                    sort_tree(self.definition.sig.return_sort),
                    self.definition.body.tree(),
                ];
                assert(l5 =~= seq![l5[0]] + (seq![l5[1]] + (seq![l5[2]] + (seq![l5[3]]
                    + seq![l5[4]]))));
                crate::render::lemma_list_toks_cons(
                    l5[0],
                    seq![l5[1]] + (seq![l5[2]] + (seq![l5[3]] + seq![l5[4]])),
                );
                crate::render::lemma_list_toks_cons(
                    l5[1],
                    seq![l5[2]] + (seq![l5[3]] + seq![l5[4]]),
                );
                crate::render::lemma_list_toks_cons(l5[2], seq![l5[3]] + seq![l5[4]]);
                crate::render::lemma_list_toks_cons(l5[3], seq![l5[4]]);
                crate::render::lemma_list_toks_single(l5[4]);
            }
            lemma_run_ok_split::<W>(
                h0,
                seq![Tok::Open],
                seq![ct] + (seq![nt] + (argts + (seq![rt] + (bodyt + seq![Tok::Close])))),
            );
            lemma_run_ok_one::<W>(h0, Tok::Open);
            w.depth_nonneg();
        }
        let ghost h1 = h0.push(Tok::Open);
        let w1 = match w.enter() {
            Ok(x) => x,
            Err(e) => {
                return Err(Error::WriteError(e));
            },
        };
        proof {
            assert(h0 + seq![Tok::Open] =~= h1);
            lemma_run_ok_split::<W>(
                h1,
                seq![ct],
                seq![nt] + (argts + (seq![rt] + (bodyt + seq![Tok::Close]))),
            );
            lemma_run_ok_one::<W>(h1, ct);
        }
        let ghost h2 = h1.push(ct);
        let w2 = match w1.write_word(cmd_tok) {
            Ok(x) => x,
            Err(e) => {
                return Err(Error::WriteError(e));
            },
        };
        proof {
            assert(h1 + seq![ct] =~= h2);
            lemma_run_ok_split::<W>(h2, seq![nt], argts + (seq![rt] + (bodyt + seq![Tok::Close])));
            lemma_run_ok_one::<W>(h2, nt);
        }
        let ghost h3 = h2.push(nt);
        let w3 = match w2.write_word(self.definition.sig.name.as_str()) {
            Ok(x) => x,
            Err(e) => {
                return Err(Error::WriteError(e));
            },
        };
        proof {
            assert(h2 + seq![nt] =~= h3);
            lemma_run_ok_split::<W>(h3, argts, seq![rt] + (bodyt + seq![Tok::Close]));
        }
        let ghost h4 = h3 + argts;
        let w4 = match write_args(&self.definition.sig.args, w3) {
            Ok(x) => x,
            Err(e) => {
                return Err(Error::WriteError(e));
            },
        };
        proof {
            lemma_run_ok_split::<W>(h4, seq![rt], bodyt + seq![Tok::Close]);
            lemma_run_ok_one::<W>(h4, rt);
        }
        let ret_tok = self.definition.sig.return_sort.token();
        let ghost h5 = h4.push(rt);
        let w5 = match w4.write_word(ret_tok.as_str()) {
            Ok(x) => x,
            Err(e) => {
                return Err(Error::WriteError(e));
            },
        };
        proof {
            assert(h4 + seq![rt] =~= h5);
            lemma_run_ok_split::<W>(h5, bodyt, seq![Tok::Close]);
        }
        let ghost h6 = h5 + bodyt;
        let w6 = match self.definition.body.write(w5) {
            Ok(x) => x,
            Err(e) => {
                return Err(Error::WriteError(e));
            },
        };
        proof {
            lemma_run_ok_one::<W>(h6, Tok::Close);
            lemma_depth_push(h0, Tok::Open);
            lemma_depth_push(h1, ct);
            lemma_depth_push(h2, nt);
            lemma_tree_depth(SExprView::List(vs));
            lemma_depth_concat(h3, argts);
            lemma_depth_push(h4, rt);
            lemma_tree_depth(self.definition.body.tree());
            lemma_depth_concat(h5, bodyt);
            assert(depth_of(h6) >= 1);
        }
        match w6.leave() {
            Ok(x) => {
                proof {
                    assert(x.hist() =~= h0 + ts);
                }
                Ok(x)
            },
            Err(e) => Err(Error::WriteError(e)),
        }
    }
}

} // verus!
