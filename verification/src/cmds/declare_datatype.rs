//! The datatype declaration command:
//! `(declare-datatype name (constructor ...))`, each constructor a list
//! of its name and its selector declarations.

use vstd::prelude::*;

use crate::datatypes::{
    constructor_trees, lemma_constructor_trees, lemma_selector_trees, selector_trees, Constructor,
    Datatype, Selector,
};
use crate::render::{
    depth_of, lemma_depth_concat, lemma_depth_push, lemma_list_depth, lemma_list_toks_concat,
    lemma_run_ok_one, lemma_run_ok_split, lemma_tree_depth, list_toks, run_ok, tree_toks,
    SExprView, Tok, Write, Writer,
};

verus! {

/// What can go wrong declaring a datatype: the backend refused a write
/// of the declaration's frame, or of a selector's sort.
#[derive(Debug)]
pub enum Error<WE> {
    WriterError(WE),
    WriteSortError(WE),
}

/// The datatype declaration command over a declared datatype.
pub struct DeclareDatatype(pub Datatype);

fn write_selector<W: Writer>(sel: &Selector, w: W) -> (r: Result<W, Error<W::Error>>)
    requires
        w.wf(),
    ensures
        r matches Ok(w2) ==> w2.wf() && w2.hist() == w.hist() + tree_toks(sel.tree()) && w2.base()
            == w.base(),
        W::total() && run_ok::<W>(w.hist(), tree_toks(sel.tree())) ==> r is Ok,
{
    let ghost h0 = w.hist();
    let ghost ts = tree_toks(sel.tree());
    let name_tok = sel.name.token();
    let sort_tok = sel.sort.token();
    let ghost nt = Tok::Word(name_tok@);
    let ghost st = Tok::Word(sort_tok@);
    proof {
        reveal_with_fuel(list_toks, 4);
        assert(tree_toks(SExprView::Symbol(sel.name@)) =~= seq![nt]);
        assert(tree_toks(crate::typecheck::sort_tree(sel.sort)) =~= seq![st]);
        assert(ts =~= seq![Tok::Open] + (seq![nt] + (seq![st] + seq![Tok::Close]))) by {
            let l2 = seq![
                SExprView::Symbol(sel.name@),
                crate::typecheck::sort_tree(sel.sort),
            ];
            assert(l2.drop_first() =~= seq![l2[1]]);
            assert(seq![l2[1]].drop_first() =~= Seq::<SExprView>::empty());
            assert(list_toks(seq![l2[1]]) =~= tree_toks(l2[1]));
        }
        lemma_run_ok_split::<W>(h0, seq![Tok::Open], seq![nt] + (seq![st] + seq![Tok::Close]));
        lemma_run_ok_one::<W>(h0, Tok::Open);
        w.depth_nonneg();
    }
    let ghost h1 = h0.push(Tok::Open);
    let w1 = match w.enter() {
        Ok(x) => x,
        Err(e) => {
            return Err(Error::WriterError(e));
        },
    };
    proof {
        assert(h0 + seq![Tok::Open] =~= h1);
        lemma_run_ok_split::<W>(h1, seq![nt], seq![st] + seq![Tok::Close]);
        lemma_run_ok_one::<W>(h1, nt);
    }
    let ghost h2 = h1.push(nt);
    let w2 = match w1.write_word(name_tok.as_str()) {
        Ok(x) => x,
        Err(e) => {
            return Err(Error::WriterError(e));
        },
    };
    proof {
        assert(h1 + seq![nt] =~= h2);
        lemma_run_ok_split::<W>(h2, seq![st], seq![Tok::Close]);
        lemma_run_ok_one::<W>(h2, st);
    }
    let ghost h3 = h2.push(st);
    let w3 = match w2.write_word(sort_tok.as_str()) {
        Ok(x) => x,
        Err(e) => {
            return Err(Error::WriteSortError(e));
        },
    };
    proof {
        assert(h2 + seq![st] =~= h3);
        lemma_run_ok_one::<W>(h3, Tok::Close);
        lemma_depth_push(h0, Tok::Open);
        lemma_depth_push(h1, nt);
        lemma_depth_push(h2, st);
        assert(depth_of(h3) >= 1);
    }
    match w3.leave() {
        Ok(x) => {
            proof {
                assert(x.hist() =~= h0 + ts);
                assert(tree_toks(sel.tree()) =~= ts);
            }
            Ok(x)
        },
        Err(e) => Err(Error::WriterError(e)),
    }
}

#[verifier::loop_isolation(false)]
#[verifier::rlimit(100)]
fn write_constructor<W: Writer>(ctor: &Constructor, w: W) -> (r: Result<W, Error<W::Error>>)
    requires
        w.wf(),
    ensures
        r matches Ok(w2) ==> w2.wf() && w2.hist() == w.hist() + tree_toks(ctor.tree())
            && w2.base() == w.base(),
        W::total() && run_ok::<W>(w.hist(), tree_toks(ctor.tree())) ==> r is Ok,
{
    let ghost h0 = w.hist();
    let ghost b0 = w.base();
    let ghost ts = tree_toks(ctor.tree());
    let ghost vs = selector_trees(ctor.selectors@);
    let ghost lt = list_toks(vs);
    let name_tok = ctor.name.token();
    let ghost nt = Tok::Word(name_tok@);
    proof {
        lemma_selector_trees(ctor.selectors@);
        reveal_with_fuel(list_toks, 4);
        reveal_with_fuel(tree_toks, 3);
        assert(tree_toks(SExprView::Symbol(ctor.name@)) =~= seq![nt]);
        assert(list_toks(seq![SExprView::Symbol(ctor.name@)] + vs) =~= seq![nt] + lt) by {
            lemma_list_toks_concat(seq![SExprView::Symbol(ctor.name@)], vs);
            assert(seq![SExprView::Symbol(ctor.name@)].drop_first()
                =~= Seq::<SExprView>::empty());
            assert(list_toks(seq![SExprView::Symbol(ctor.name@)]) =~= seq![nt]);
        }
        assert(ts =~= seq![Tok::Open] + (seq![nt] + (lt + seq![Tok::Close])));
        lemma_run_ok_split::<W>(h0, seq![Tok::Open], seq![nt] + (lt + seq![Tok::Close]));
        lemma_run_ok_one::<W>(h0, Tok::Open);
        w.depth_nonneg();
    }
    let ghost h1 = h0.push(Tok::Open);
    let w1 = match w.enter() {
        Ok(x) => x,
        Err(e) => {
            return Err(Error::WriterError(e));
        },
    };
    proof {
        assert(h0 + seq![Tok::Open] =~= h1);
        lemma_run_ok_split::<W>(h1, seq![nt], lt + seq![Tok::Close]);
        lemma_run_ok_one::<W>(h1, nt);
    }
    let ghost h2 = h1.push(nt);
    let mut cur = match w1.write_word(name_tok.as_str()) {
        Ok(x) => x,
        Err(e) => {
            return Err(Error::WriterError(e));
        },
    };
    proof {
        assert(h1 + seq![nt] =~= h2);
        assert(vs.take(0) =~= Seq::<SExprView>::empty());
        assert(vs.skip(0) =~= vs);
        assert(h2 + list_toks(vs.take(0)) =~= h2);
    }
    let n = ctor.selectors.len();
    let mut i: usize = 0;
    while i < n
        invariant
            i <= n,
            n == ctor.selectors.len(),
            vs == selector_trees(ctor.selectors@),
            vs.len() == n,
            forall|j: int| 0 <= j < n ==> vs[j] == #[trigger] ctor.selectors@[j].tree(),
            lt == list_toks(vs),
            cur.wf(),
            cur.hist() == h2 + list_toks(vs.take(i as int)),
            cur.base() == b0,
            W::total() && run_ok::<W>(h0, ts) ==> run_ok::<W>(
                cur.hist(),
                list_toks(vs.skip(i as int)) + seq![Tok::Close],
            ),
        decreases n - i,
    {
        proof {
            assert(vs.skip(i as int) =~= seq![vs[i as int]] + vs.skip(i + 1));
            lemma_list_toks_concat(seq![vs[i as int]], vs.skip(i + 1));
            assert(list_toks(seq![vs[i as int]]) =~= tree_toks(vs[i as int])) by {
                assert(seq![vs[i as int]].drop_first() =~= Seq::<SExprView>::empty());
                assert(tree_toks(vs[i as int]) + list_toks(Seq::<SExprView>::empty())
                    =~= tree_toks(vs[i as int]));
            }
            assert(list_toks(vs.skip(i as int)) + seq![Tok::Close] =~= tree_toks(vs[i as int]) + (
            list_toks(vs.skip(i + 1)) + seq![Tok::Close]));
            lemma_run_ok_split::<W>(
                cur.hist(),
                tree_toks(vs[i as int]),
                list_toks(vs.skip(i + 1)) + seq![Tok::Close],
            );
        }
        let cur2 = match write_selector(&ctor.selectors[i], cur) {
            Ok(x) => x,
            Err(e) => {
                proof {
                    if W::total() && run_ok::<W>(h0, ts) {
                        assert(run_ok::<W>(cur.hist(), tree_toks(vs[i as int])));
                        assert(false);
                    }
                }
                return Err(e);
            },
        };
        cur = cur2;
        proof {
            assert(vs.take(i + 1) =~= vs.take(i as int) + seq![vs[i as int]]);
            lemma_list_toks_concat(vs.take(i as int), seq![vs[i as int]]);
            assert(list_toks(seq![vs[i as int]]) =~= tree_toks(vs[i as int])) by {
                assert(seq![vs[i as int]].drop_first() =~= Seq::<SExprView>::empty());
                assert(tree_toks(vs[i as int]) + list_toks(Seq::<SExprView>::empty())
                    =~= tree_toks(vs[i as int]));
            }
            assert(cur.hist() =~= h2 + list_toks(vs.take(i + 1)));
        }
        i += 1;
    }
    proof {
        assert(vs.take(n as int) =~= vs);
        assert(vs.skip(n as int) =~= Seq::<SExprView>::empty());
        assert(list_toks(Seq::<SExprView>::empty()) + seq![Tok::Close] =~= seq![Tok::Close]);
        lemma_run_ok_one::<W>(cur.hist(), Tok::Close);
        lemma_depth_push(h0, Tok::Open);
        lemma_depth_push(h1, nt);
        lemma_list_depth(vs);
        lemma_depth_concat(h2, list_toks(vs));
        assert(depth_of(cur.hist()) >= 1);
    }
    match cur.leave() {
        Ok(x) => {
            proof {
                assert(x.hist() =~= h0 + ts);
            }
            Ok(x)
        },
        Err(e) => Err(Error::WriterError(e)),
    }
}

impl DeclareDatatype {
    /// The render tree: the list of the directive word, the datatype's
    /// name, and the list of its constructor declarations.
    pub open spec fn tree(&self) -> SExprView {
        SExprView::List(
            seq![
                SExprView::Word("declare-datatype"@),
                SExprView::Symbol(self.0.name@),
                SExprView::List(constructor_trees(self.0.constructors@)),
            ],
        )
    }

    /// Drive the writer through the whole declaration.
    #[verifier::loop_isolation(false)]
    #[verifier::rlimit(100)]
    pub fn write<W: Writer>(&self, w: W) -> (r: Result<W, Error<W::Error>>)
        requires
            w.wf(),
        ensures
            r matches Ok(w2) ==> w2.wf() && w2.hist() == w.hist() + tree_toks(self.tree())
                && w2.base() == w.base(),
            W::total() && run_ok::<W>(w.hist(), tree_toks(self.tree())) ==> r is Ok,
    {
        let ghost h0 = w.hist();
        let ghost b0 = w.base();
        let ghost ts = tree_toks(self.tree());
        let ghost vs = constructor_trees(self.0.constructors@);
        let ghost lt = list_toks(vs);
        let ghost ctoks = seq![Tok::Open] + (lt + seq![Tok::Close, Tok::Close]);
        let name_tok = self.0.name.token();
        let ghost ct = Tok::Word("declare-datatype"@);
        let ghost nt = Tok::Word(name_tok@);
        proof {
            lemma_constructor_trees(self.0.constructors@);
            reveal_with_fuel(list_toks, 5);
            reveal_with_fuel(tree_toks, 3);
            assert(tree_toks(SExprView::Word("declare-datatype"@)) =~= seq![ct]);
            assert(tree_toks(SExprView::Symbol(self.0.name@)) =~= seq![nt]);
            assert(tree_toks(SExprView::List(vs)) =~= seq![Tok::Open] + lt + seq![Tok::Close]);
            assert(ts =~= seq![Tok::Open] + (seq![ct] + (seq![nt] + ctoks))) by {
                let l3 = seq![
                    SExprView::Word("declare-datatype"@),
                    SExprView::Symbol(self.0.name@),
                    SExprView::List(vs),
                ];
                assert(l3.drop_first() =~= seq![l3[1], l3[2]]);
                assert(seq![l3[1], l3[2]].drop_first() =~= seq![l3[2]]);
                assert(seq![l3[2]].drop_first() =~= Seq::<SExprView>::empty());
                assert(list_toks(seq![l3[2]]) =~= tree_toks(l3[2]));
            }
            lemma_run_ok_split::<W>(h0, seq![Tok::Open], seq![ct] + (seq![nt] + ctoks));
            lemma_run_ok_one::<W>(h0, Tok::Open);
            w.depth_nonneg();
        }
        let ghost h1 = h0.push(Tok::Open);
        let w1 = match w.enter() {
            Ok(x) => x,
            Err(e) => {
                return Err(Error::WriterError(e));
            },
        };
        proof {
            assert(h0 + seq![Tok::Open] =~= h1);
            lemma_run_ok_split::<W>(h1, seq![ct], seq![nt] + ctoks);
            lemma_run_ok_one::<W>(h1, ct);
        }
        let ghost h2 = h1.push(ct);
        let w2 = match w1.write_word("declare-datatype") {
            Ok(x) => x,
            Err(e) => {
                return Err(Error::WriterError(e));
            },
        };
        proof {
            assert(h1 + seq![ct] =~= h2);
            lemma_run_ok_split::<W>(h2, seq![nt], ctoks);
            lemma_run_ok_one::<W>(h2, nt);
        }
        let ghost h3 = h2.push(nt);
        let w3 = match w2.write_word(name_tok.as_str()) {
            Ok(x) => x,
            Err(e) => {
                return Err(Error::WriterError(e));
            },
        };
        proof {
            assert(h2 + seq![nt] =~= h3);
            lemma_run_ok_split::<W>(h3, seq![Tok::Open], lt + seq![Tok::Close, Tok::Close]);
            lemma_run_ok_one::<W>(h3, Tok::Open);
            lemma_depth_push(h0, Tok::Open);
            lemma_depth_push(h1, ct);
            lemma_depth_push(h2, nt);
        }
        let ghost h4 = h3.push(Tok::Open);
        let mut cur = match w3.enter() {
            Ok(x) => x,
            Err(e) => {
                return Err(Error::WriterError(e));
            },
        };
        proof {
            assert(h3 + seq![Tok::Open] =~= h4);
            assert(vs.take(0) =~= Seq::<SExprView>::empty());
            assert(vs.skip(0) =~= vs);
            assert(h4 + list_toks(vs.take(0)) =~= h4);
        }
        let n = self.0.constructors.len();
        let mut i: usize = 0;
        while i < n
            invariant
                i <= n,
                n == self.0.constructors.len(),
                vs == constructor_trees(self.0.constructors@),
                vs.len() == n,
                forall|j: int| 0 <= j < n ==> vs[j] == #[trigger] self.0.constructors@[j].tree(),
                lt == list_toks(vs),
                cur.wf(),
                cur.hist() == h4 + list_toks(vs.take(i as int)),
                cur.base() == b0,
                W::total() && run_ok::<W>(h0, ts) ==> run_ok::<W>(
                    cur.hist(),
                    list_toks(vs.skip(i as int)) + seq![Tok::Close, Tok::Close],
                ),
            decreases n - i,
        {
            proof {
                assert(vs.skip(i as int) =~= seq![vs[i as int]] + vs.skip(i + 1));
                lemma_list_toks_concat(seq![vs[i as int]], vs.skip(i + 1));
                assert(list_toks(seq![vs[i as int]]) =~= tree_toks(vs[i as int])) by {
                    assert(seq![vs[i as int]].drop_first() =~= Seq::<SExprView>::empty());
                    assert(tree_toks(vs[i as int]) + list_toks(Seq::<SExprView>::empty())
                        =~= tree_toks(vs[i as int]));
                }
                assert(list_toks(vs.skip(i as int)) + seq![Tok::Close, Tok::Close] =~= tree_toks(
                    vs[i as int],
                ) + (list_toks(vs.skip(i + 1)) + seq![Tok::Close, Tok::Close]));
                lemma_run_ok_split::<W>(
                    cur.hist(),
                    tree_toks(vs[i as int]),
                    list_toks(vs.skip(i + 1)) + seq![Tok::Close, Tok::Close],
                );
            }
            let cur2 = match write_constructor(&self.0.constructors[i], cur) {
                Ok(x) => x,
                Err(e) => {
                    proof {
                        if W::total() && run_ok::<W>(h0, ts) {
                            assert(run_ok::<W>(cur.hist(), tree_toks(vs[i as int])));
                            assert(false);
                        }
                    }
                    return Err(e);
                },
            };
            cur = cur2;
            proof {
                assert(vs.take(i + 1) =~= vs.take(i as int) + seq![vs[i as int]]);
                lemma_list_toks_concat(vs.take(i as int), seq![vs[i as int]]);
                assert(list_toks(seq![vs[i as int]]) =~= tree_toks(vs[i as int])) by {
                    assert(seq![vs[i as int]].drop_first() =~= Seq::<SExprView>::empty());
                    assert(tree_toks(vs[i as int]) + list_toks(Seq::<SExprView>::empty())
                        =~= tree_toks(vs[i as int]));
                }
                assert(cur.hist() =~= h4 + list_toks(vs.take(i + 1)));
            }
            i += 1;
        }
        proof {
            assert(vs.take(n as int) =~= vs);
            assert(vs.skip(n as int) =~= Seq::<SExprView>::empty());
            assert(list_toks(Seq::<SExprView>::empty()) + seq![Tok::Close, Tok::Close] =~= seq![
                Tok::Close,
                Tok::Close,
            ]);
            assert(seq![Tok::Close, Tok::Close] =~= seq![Tok::Close] + seq![Tok::Close]);
            lemma_run_ok_split::<W>(cur.hist(), seq![Tok::Close], seq![Tok::Close]);
            lemma_run_ok_one::<W>(cur.hist(), Tok::Close);
            lemma_list_depth(vs);
            lemma_depth_concat(h4, list_toks(vs));
            lemma_depth_push(h3, Tok::Open);
            assert(depth_of(cur.hist()) >= 2);
        }
        let ghost h5 = cur.hist().push(Tok::Close);
        let w5 = match cur.leave() {
            Ok(x) => x,
            Err(e) => {
                return Err(Error::WriterError(e));
            },
        };
        proof {
            assert(cur.hist() + seq![Tok::Close] =~= h5);
            lemma_run_ok_one::<W>(h5, Tok::Close);
            lemma_depth_push(cur.hist(), Tok::Close);
        }
        match w5.leave() {
            Ok(x) => {
                proof {
                    assert(x.hist() =~= h0 + ts);
                }
                Ok(x)
            },
            Err(e) => Err(Error::WriterError(e)),
        }
    }
}

} // verus!
