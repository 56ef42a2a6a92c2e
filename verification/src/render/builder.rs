//! The in-memory tree builder: a backend that accumulates a structural
//! value instead of text.
//!
//! The builder's state is a stack of slots, one per open list plus one for
//! the root.  Writing a word fills or extends the innermost slot; closing
//! a list appends the finished list to the enclosing slot, as the single
//! value if that slot was empty or onto its list in progress.  Writing
//! into a slot that already holds a finished atom, or closing a list that
//! received nothing, is an error.

use vstd::prelude::*;

use crate::render::{
    atom_text, clean_list, clean_tree, depth_of, lemma_depth_push, lemma_run_ok_one,
    lemma_run_ok_split, lemma_views_of_push, list_toks, run_ok, sexpr_view, tree_toks, views_of,
    SExpr, SExprView, Tok, Writer,
};

verus! {

/// Structural misuse of the builder: a second write into a slot that
/// already holds a finished atom, or closing a list that received no
/// content.
#[derive(Debug, Clone, Copy, PartialEq, Eq)]
pub enum Error {
    MoreThanOneWriteToSingleWord,
    EmptyLeave,
}

/// Whether a slot can still take part in a write: empty, or a list in
/// progress.
pub open spec fn slot_ok(o: Option<SExprView>) -> bool {
    match o {
        None => true,
        Some(SExprView::List(_)) => true,
        Some(_) => false,
    }
}

/// Whether the builder accepts token `t` in stack state `st`.
pub open spec fn b_legal(st: Seq<Option<SExprView>>, t: Tok) -> bool {
    st.len() >= 1 && match t {
        Tok::Open => slot_ok(st.last()),
        Tok::Word(_) => if st.len() == 1 {
            st.last() is None
        } else {
            slot_ok(st.last())
        },
        Tok::Close => st.len() >= 2 && st.last() is Some,
    }
}

/// One accepted token's effect on the stack of slots.
pub open spec fn bstep(st: Seq<Option<SExprView>>, t: Tok) -> Seq<Option<SExprView>> {
    if !b_legal(st, t) {
        st
    } else {
        match t {
            Tok::Open => st.push(None),
            Tok::Word(w) => if st.len() == 1 {
                st.update(0, Some(SExprView::Word(w)))
            } else {
                match st.last() {
                    None => st.update(
                        st.len() - 1,
                        Some(SExprView::List(seq![SExprView::Word(w)])),
                    ),
                    Some(SExprView::List(l)) => st.update(
                        st.len() - 1,
                        Some(SExprView::List(l.push(SExprView::Word(w)))),
                    ),
                    Some(_) => st,
                }
            },
            Tok::Close => match st.last() {
                Some(v) => {
                    let st2 = st.drop_last();
                    match st2.last() {
                        None => st2.update(st2.len() - 1, Some(v)),
                        Some(SExprView::List(l)) => st2.update(
                            st2.len() - 1,
                            Some(SExprView::List(l.push(v))),
                        ),
                        Some(_) => st2,
                    }
                },
                None => st,
            },
        }
    }
}

/// The stack of slots a token history leaves the builder in.
pub open spec fn bstack(h: Seq<Tok>) -> Seq<Option<SExprView>>
    decreases h.len(),
{
    if h.len() == 0 {
        seq![None]
    } else {
        bstep(bstack(h.drop_last()), h.last())
    }
}

/// The builder's stack invariant: never empty, and while any list is
/// open, every slot is empty or a list in progress.
pub open spec fn b_inv(st: Seq<Option<SExprView>>) -> bool {
    st.len() >= 1 && (st.len() >= 2 ==> forall|i: int| 0 <= i < st.len() ==> slot_ok(#[trigger] st[i]))
}

pub proof fn lemma_bstack_inv(h: Seq<Tok>)
    ensures
        b_inv(bstack(h)),
    decreases h.len(),
{
    if h.len() == 0 {
    } else {
        lemma_bstack_inv(h.drop_last());
        let st = bstack(h.drop_last());
        let t = h.last();
        let st2 = bstep(st, t);
        if b_legal(st, t) {
            match t {
                Tok::Open => {
                    assert forall|i: int| 0 <= i < st2.len() implies slot_ok(#[trigger] st2[i]) by {
                        if i < st.len() {
                            if st.len() >= 2 {
                            } else {
                                assert(i == 0 && slot_ok(st.last()));
                            }
                        }
                    }
                },
                Tok::Word(_) => {
                    if st.len() >= 2 {
                        assert forall|i: int| 0 <= i < st2.len() implies slot_ok(
                            #[trigger] st2[i],
                        ) by {}
                    }
                },
                Tok::Close => {
                    if st2.len() >= 2 {
                        assert forall|i: int| 0 <= i < st2.len() implies slot_ok(
                            #[trigger] st2[i],
                        ) by {}
                    }
                },
            }
        }
    }
}

/// The slot content after one tree is rendered into a slot below the
/// root: a first atom starts the slot's list; a completed list becomes
/// the slot's single value when the slot was empty; either is pushed onto
/// a list already in progress.
pub open spec fn slot_push(acc: Option<SExprView>, t: SExprView) -> Option<SExprView>
    decreases t, 1int,
{
    match acc {
        None => match t {
            SExprView::List(l) => slot_after(None, l),
            _ => Some(SExprView::List(seq![SExprView::Word(atom_text(t))])),
        },
        Some(SExprView::List(pl)) => Some(SExprView::List(pl.push(child_value(t)))),
        Some(_) => acc,
    }
}

/// The value one rendered tree contributes to a list in progress: its
/// token for an atom, its completed slot content for a list.
pub open spec fn child_value(t: SExprView) -> SExprView
    decreases t, 0int,
{
    match t {
        SExprView::List(l) => slot_after(None, l)->Some_0,
        _ => SExprView::Word(atom_text(t)),
    }
}

/// The slot content after a run of sibling trees is rendered, in order.
pub open spec fn slot_after(acc: Option<SExprView>, l: Seq<SExprView>) -> Option<SExprView>
    decreases l, 2int,
{
    if l.len() == 0 {
        acc
    } else {
        slot_after(slot_push(acc, l[0]), l.drop_first())
    }
}

/// The structural value a whole render of the tree leaves in the root
/// slot: the bare word for an atom, the absorbed slot content for a list.
pub open spec fn built_value(t: SExprView) -> Option<SExprView> {
    match t {
        SExprView::List(l) => slot_after(None, l),
        _ => Some(SExprView::Word(atom_text(t))),
    }
}

/// Rendering one tree whose lists are all non-empty is accepted by the
/// builder whenever the innermost slot is writable; it updates that slot
/// as `slot_push` says and leaves the rest of the stack unchanged.
#[verifier::rlimit(100)]
pub proof fn lemma_builder_run(h: Seq<Tok>, t: SExprView)
    requires
        clean_tree(t),
        slot_ok(bstack(h).last()),
        bstack(h).len() == 1 && !(t is List) ==> bstack(h).last() is None,
    ensures
        run_ok::<SExprBuilder>(h, tree_toks(t)),
        bstack(h + tree_toks(t)).len() == bstack(h).len(),
        forall|i: int|
            0 <= i < bstack(h).len() - 1 ==> bstack(h + tree_toks(t))[i] == bstack(h)[i],
        bstack(h + tree_toks(t)).last() is Some,
        bstack(h).len() >= 2 || t is List ==> slot_ok(bstack(h + tree_toks(t)).last()),
        bstack(h).len() >= 2 || t is List ==> bstack(h + tree_toks(t)).last() == slot_push(
            bstack(h).last(),
            t,
        ),
        bstack(h).len() == 1 && !(t is List) ==> bstack(h + tree_toks(t)).last() == Some(
            SExprView::Word(atom_text(t)),
        ),
    decreases t,
{
    lemma_bstack_inv(h);
    let st = bstack(h);
    match t {
        SExprView::List(l) => {
            let ts = tree_toks(t);
            let lt = list_toks(l);
            assert(ts =~= seq![Tok::Open] + (lt + seq![Tok::Close]));
            assert(b_legal(st, Tok::Open));
            assert(h.push(Tok::Open).drop_last() =~= h);
            assert(h.push(Tok::Open).last() == Tok::Open);
            let h1 = h.push(Tok::Open);
            assert(bstack(h1) == st.push(None));
            lemma_builder_run_list(h1, l);
            let h2 = h1 + lt;
            let st2 = bstack(h2);
            assert(st2.len() == st.len() + 1);
            assert(st2.last() is Some && slot_ok(st2.last()));
            assert(b_legal(st2, Tok::Close));
            assert(h2.push(Tok::Close).drop_last() =~= h2);
            assert(h2.push(Tok::Close).last() == Tok::Close);
            assert(bstack(h2.push(Tok::Close)) == bstep(st2, Tok::Close));
            assert(st2.drop_last().last() == st.last()) by {
                assert(bstack(h1 + list_toks(l))[st.len() - 1] == bstack(h1)[st.len() - 1]);
                assert(st.push(None)[st.len() - 1] == st.last());
                assert(st2.drop_last()[st.len() - 1] == st2[st.len() - 1]);
            }
            assert(h + ts =~= h2.push(Tok::Close));
            lemma_run_ok_one::<SExprBuilder>(h, Tok::Open);
            lemma_run_ok_one::<SExprBuilder>(h2, Tok::Close);
            lemma_run_ok_split::<SExprBuilder>(h1, lt, seq![Tok::Close]);
            assert(h1 + (lt + seq![Tok::Close]) =~= (h1 + lt) + seq![Tok::Close]);
            assert(run_ok::<SExprBuilder>(h1, lt + seq![Tok::Close]));
            lemma_run_ok_split::<SExprBuilder>(h, seq![Tok::Open], lt + seq![Tok::Close]);
            assert(h + seq![Tok::Open] =~= h1);
            assert(run_ok::<SExprBuilder>(h, ts));
            let stf = bstack(h + ts);
            assert(stf.len() == st.len());
            assert forall|i: int| 0 <= i < st.len() - 1 implies stf[i] == st[i] by {
                assert(bstack(h1 + list_toks(l))[i] == bstack(h1)[i]);
                assert(st2.drop_last()[i] == st2[i]);
                assert(st2[i] == st.push(None)[i]);
            }
            assert(st2.last() == slot_after(bstack(h1).last(), l));
            assert(bstack(h1).last() == Option::<SExprView>::None) by {
                assert(st.push(None).last() == Option::<SExprView>::None);
            }
            assert(st2.last() == slot_after(Option::<SExprView>::None, l));
            let v = st2.last()->Some_0;
            assert(child_value(t) == v);
            assert(stf.last() == slot_push(st.last(), t)) by {
                match st.last() {
                    None => {
                        assert(slot_push(st.last(), t) == slot_after(
                            Option::<SExprView>::None,
                            l,
                        ));
                    },
                    Some(SExprView::List(pl)) => {
                        assert(slot_push(st.last(), t) == Some(
                            SExprView::List(pl.push(child_value(t))),
                        ));
                    },
                    Some(_) => {
                        assert(false);
                    },
                }
            }
        },
        _ => {
            let tok = Tok::Word(atom_text(t));
            assert(tree_toks(t) =~= seq![tok]);
            assert(b_legal(st, tok));
            lemma_run_ok_one::<SExprBuilder>(h, tok);
            assert(h.push(tok).drop_last() =~= h);
            assert(h.push(tok).last() == tok);
            assert(bstack(h.push(tok)) == bstep(st, tok));
            assert(h + tree_toks(t) =~= h.push(tok));
            let stf = bstack(h + tree_toks(t));
            assert forall|i: int| 0 <= i < st.len() - 1 implies stf[i] == st[i] by {}
            if st.len() >= 2 {
                assert(stf.last() == slot_push(st.last(), t)) by {
                    match st.last() {
                        None => {},
                        Some(SExprView::List(_)) => {},
                        Some(_) => {
                            assert(false);
                        },
                    }
                }
            }
        },
    }
}

/// Rendering a run of sibling trees into a freshly opened list is
/// accepted by the builder and leaves the list slot holding exactly what
/// `slot_after` says.
pub proof fn lemma_builder_run_list(h: Seq<Tok>, l: Seq<SExprView>)
    requires
        clean_list(l),
        bstack(h).len() >= 2,
        slot_ok(bstack(h).last()),
    ensures
        run_ok::<SExprBuilder>(h, list_toks(l)),
        bstack(h + list_toks(l)).len() == bstack(h).len(),
        forall|i: int|
            0 <= i < bstack(h).len() - 1 ==> bstack(h + list_toks(l))[i] == bstack(h)[i],
        slot_ok(bstack(h + list_toks(l)).last()),
        bstack(h + list_toks(l)).last() is Some || (l.len() == 0 && bstack(h + list_toks(l)).last()
            == bstack(h).last()),
        bstack(h + list_toks(l)).last() == slot_after(bstack(h).last(), l),
    decreases l,
{
    if l.len() == 0 {
        assert(h + list_toks(l) =~= h);
        assert(run_ok::<SExprBuilder>(h, list_toks(l)));
    } else {
        assert(clean_tree(l[0]));
        lemma_builder_run(h, l[0]);
        let h1 = h + tree_toks(l[0]);
        assert(clean_list(l.drop_first()));
        lemma_builder_run_list(h1, l.drop_first());
        assert(h + list_toks(l) =~= h1 + list_toks(l.drop_first()));
        lemma_run_ok_split::<SExprBuilder>(h, tree_toks(l[0]), list_toks(l.drop_first()));
        assert(run_ok::<SExprBuilder>(h, tree_toks(l[0]) + list_toks(l.drop_first())));
        assert(list_toks(l) =~= tree_toks(l[0]) + list_toks(l.drop_first()));
        let stf = bstack(h + list_toks(l));
        assert forall|i: int| 0 <= i < bstack(h).len() - 1 implies stf[i] == bstack(h)[i] by {
            assert(bstack(h1 + list_toks(l.drop_first()))[i] == bstack(h1)[i]);
            assert(bstack(h1)[i] == bstack(h)[i]);
        }
        if l.drop_first().len() == 0 {
            assert(bstack(h1).last() is Some);
        }
        assert(bstack(h1).last() == slot_push(bstack(h).last(), l[0]));
        assert(bstack(h + list_toks(l)).last() == slot_after(bstack(h1).last(), l.drop_first()));
    }
}

/// Rendering any tree whose lists are all non-empty through a fresh
/// builder is accepted, and leaves exactly the tree's built value in the
/// root slot.
pub proof fn lemma_builder_accepts(t: SExprView)
    requires
        clean_tree(t),
    ensures
        run_ok::<SExprBuilder>(Seq::<Tok>::empty(), tree_toks(t)),
        bstack(tree_toks(t))[0] == built_value(t),
        built_value(t) is Some,
{
    lemma_builder_run(Seq::<Tok>::empty(), t);
    assert(Seq::<Tok>::empty() + tree_toks(t) =~= tree_toks(t));
    assert(bstack(Seq::<Tok>::empty()) == seq![Option::<SExprView>::None]);
    assert(bstack(tree_toks(t)).last() == bstack(tree_toks(t))[0]);
    match t {
        SExprView::List(l) => {
            assert(slot_push(Option::<SExprView>::None, t) == slot_after(
                Option::<SExprView>::None,
                l,
            ));
        },
        _ => {},
    }
}

/// The ghost content of one slot.
pub open spec fn slot_view(o: Option<SExpr>) -> Option<SExprView> {
    match o {
        None => None,
        Some(e) => Some(sexpr_view(e)),
    }
}

/// The ghost contents of the whole stack, in order.
pub open spec fn slot_views(s: Seq<Option<SExpr>>) -> Seq<Option<SExprView>>
    decreases s,
{
    if s.len() == 0 {
        Seq::empty()
    } else {
        seq![slot_view(s[0])] + slot_views(s.drop_first())
    }
}

pub proof fn lemma_slot_views(s: Seq<Option<SExpr>>)
    ensures
        slot_views(s).len() == s.len(),
        forall|i: int| 0 <= i < s.len() ==> slot_views(s)[i] == slot_view(#[trigger] s[i]),
    decreases s,
{
    if s.len() > 0 {
        lemma_slot_views(s.drop_first());
        assert forall|i: int| 0 <= i < s.len() implies slot_views(s)[i] == slot_view(
            #[trigger] s[i],
        ) by {
            if i > 0 {
                assert(s.drop_first()[i - 1] == s[i]);
                assert(slot_views(s)[i] == slot_views(s.drop_first())[i - 1]);
            }
        }
    }
}

pub proof fn lemma_slot_views_push(s: Seq<Option<SExpr>>, o: Option<SExpr>)
    ensures
        slot_views(s.push(o)) == slot_views(s).push(slot_view(o)),
{
    lemma_slot_views(s);
    lemma_slot_views(s.push(o));
    assert forall|i: int| 0 <= i < s.len() + 1 implies slot_views(s.push(o))[i] == slot_views(
        s,
    ).push(slot_view(o))[i] by {
        assert(slot_views(s.push(o))[i] == slot_view(s.push(o)[i]));
        if i < s.len() {
            assert(s.push(o)[i] == s[i]);
        } else {
            assert(s.push(o)[i] == o);
        }
    }
    assert(slot_views(s.push(o)) =~= slot_views(s).push(slot_view(o)));
}

pub proof fn lemma_slot_views_drop_last(s: Seq<Option<SExpr>>)
    requires
        s.len() >= 1,
    ensures
        slot_views(s.drop_last()) == slot_views(s).drop_last(),
{
    lemma_slot_views(s);
    lemma_slot_views(s.drop_last());
    assert forall|i: int| 0 <= i < s.len() - 1 implies slot_views(s.drop_last())[i] == slot_views(
        s,
    ).drop_last()[i] by {
        assert(s.drop_last()[i] == s[i]);
        assert(slot_views(s.drop_last())[i] == slot_view(s.drop_last()[i]));
    }
    assert(slot_views(s.drop_last()) =~= slot_views(s).drop_last());
}

/// A position of the tree builder: the stack of slots under construction.
pub struct SExprBuilder {
    stack: Vec<Option<SExpr>>,
    hist: Ghost<Seq<Tok>>,
}

impl SExprBuilder {
    /// A fresh builder with one empty root slot.
    pub fn new() -> (r: SExprBuilder)
        ensures
            r.wf(),
            r.hist() == Seq::<Tok>::empty(),
    {
        let mut stack: Vec<Option<SExpr>> = Vec::new();
        stack.push(None);
        let r = SExprBuilder { stack, hist: Ghost(Seq::empty()) };
        proof {
            lemma_slot_views(r.stack@);
            assert(slot_views(r.stack@) =~= bstack(Seq::<Tok>::empty()));
        }
        r
    }

    /// The finished structural value, if the root slot was written.
    pub fn finish(self) -> (r: Option<SExpr>)
        requires
            self.wf(),
            depth_of(self.hist()) == 0,
        ensures
            match bstack(self.hist())[0] {
                None => r is None,
                Some(v) => r matches Some(x) && x@ == v,
            },
    {
        let ghost h = self.hist@;
        let SExprBuilder { stack: mut stack, hist: _ } = self;
        proof {
            lemma_slot_views(stack@);
        }
        let r = stack.pop().unwrap();
        proof {
            assert(bstack(h)[0] == slot_view(r));
        }
        r
    }
}

impl Writer for SExprBuilder {
    type Error = Error;

    closed spec fn hist(&self) -> Seq<Tok> {
        self.hist@
    }

    open spec fn base(&self) -> Seq<char> {
        Seq::empty()
    }

    closed spec fn wf(&self) -> bool {
        slot_views(self.stack@) == bstack(self.hist@) && self.stack@.len() == depth_of(self.hist@)
            + 1 && self.stack@.len() >= 1
    }

    open spec fn ok_at(h: Seq<Tok>, t: Tok) -> bool {
        b_legal(bstack(h), t)
    }

    open spec fn total() -> bool {
        true
    }

    fn enter(self) -> (r: Result<Self, Error>)
        ensures
            r is Err <==> !Self::ok_at(self.hist(), Tok::Open),
            r matches Err(e) ==> e == Error::MoreThanOneWriteToSingleWord,
    {
        let ghost h = self.hist@;
        let SExprBuilder { stack: mut stack, hist: _ } = self;
        proof {
            lemma_slot_views(stack@);
        }
        let top_idx = stack.len() - 1;
        let ok = match &stack[top_idx] {
            None => true,
            Some(SExpr::List(_)) => true,
            Some(_) => false,
        };
        if ok {
            let ghost st0 = stack@;
            proof {
                assert(bstack(h).last() == slot_view(st0.last()));
                assert(slot_ok(bstack(h).last()));
            }
            stack.push(None);
            let r = SExprBuilder { stack, hist: Ghost(h.push(Tok::Open)) };
            proof {
                lemma_depth_push(h, Tok::Open);
                lemma_slot_views_push(st0, None);
                assert(h.push(Tok::Open).drop_last() =~= h);
                assert(h.push(Tok::Open).last() == Tok::Open);
                assert(bstack(h.push(Tok::Open)) == bstep(bstack(h), Tok::Open));
                assert(slot_views(r.stack@) == bstack(h).push(None));
            }
            Ok(r)
        } else {
            proof {
                assert(!slot_ok(bstack(h).last()));
            }
            Err(Error::MoreThanOneWriteToSingleWord)
        }
    }

    fn write_word(self, word: &str) -> (r: Result<Self, Error>)
        ensures
            r is Err <==> !Self::ok_at(self.hist(), Tok::Word(word@)),
            r matches Err(e) ==> e == Error::MoreThanOneWriteToSingleWord,
    {
        let ghost h = self.hist@;
        let SExprBuilder { stack: mut stack, hist: _ } = self;
        proof {
            lemma_slot_views(stack@);
        }
        let ghost st = bstack(h);
        let ghost t = Tok::Word(word@);
        let ghost st0 = stack@;
        proof {
            assert(st.last() == slot_view(st0.last()));
            assert(st.len() == st0.len());
        }
        let depth1 = stack.len() == 1;
        let top = stack.pop().unwrap();
        match top {
            None => {
                let w2 = SExpr::Word(word.to_owned());
                proof {
                    assert(sexpr_view(w2) == SExprView::Word(word@));
                }
                if depth1 {
                    stack.push(Some(w2));
                } else {
                    let mut l: Vec<SExpr> = Vec::new();
                    let ghost l0 = l@;
                    l.push(w2);
                    proof {
                        lemma_views_of_push(l0, w2);
                        assert(l0 =~= Seq::<SExpr>::empty());
                        assert(views_of(Seq::<SExpr>::empty()) =~= Seq::<SExprView>::empty());
                        assert(views_of(l@) =~= seq![SExprView::Word(word@)]);
                    }
                    stack.push(Some(SExpr::List(l)));
                }
                let r = SExprBuilder { stack, hist: Ghost(h.push(t)) };
                proof {
                    lemma_depth_push(h, t);
                    lemma_slot_views_drop_last(st0);
                    lemma_slot_views_push(st0.drop_last(), r.stack@.last());
                    assert(r.stack@ =~= st0.drop_last().push(r.stack@.last()));
                    assert(h.push(t).drop_last() =~= h);
                    assert(h.push(t).last() == t);
                    assert(bstack(h.push(t)) == bstep(st, t));
                    assert(b_legal(st, t));
                    assert(bstep(st, t) =~= st.drop_last().push(slot_view(r.stack@.last())));
                    assert(slot_views(r.stack@) =~= bstep(st, t));
                }
                Ok(r)
            },
            Some(SExpr::List(mut l)) => {
                if depth1 {
                    proof {
                        assert(!b_legal(st, t));
                    }
                    Err(Error::MoreThanOneWriteToSingleWord)
                } else {
                    let ghost l0 = l@;
                    let w2 = SExpr::Word(word.to_owned());
                    proof {
                        assert(sexpr_view(w2) == SExprView::Word(word@));
                    }
                    l.push(w2);
                    proof {
                        lemma_views_of_push(l0, w2);
                        assert(views_of(l@) == views_of(l0).push(SExprView::Word(word@)));
                    }
                    stack.push(Some(SExpr::List(l)));
                    let r = SExprBuilder { stack, hist: Ghost(h.push(t)) };
                    proof {
                        lemma_depth_push(h, t);
                        lemma_slot_views_drop_last(st0);
                        lemma_slot_views_push(st0.drop_last(), r.stack@.last());
                        assert(r.stack@ =~= st0.drop_last().push(r.stack@.last()));
                        assert(h.push(t).drop_last() =~= h);
                        assert(h.push(t).last() == t);
                        assert(bstack(h.push(t)) == bstep(st, t));
                        assert(b_legal(st, t));
                        assert(st.last() == Some(SExprView::List(views_of(l0))));
                        assert(bstep(st, t) =~= st.drop_last().push(
                            slot_view(r.stack@.last()),
                        ));
                        assert(slot_views(r.stack@) =~= bstep(st, t));
                    }
                    Ok(r)
                }
            },
            Some(_) => {
                proof {
                    assert(!b_legal(st, t));
                }
                Err(Error::MoreThanOneWriteToSingleWord)
            },
        }
    }

    fn leave(self) -> (r: Result<Self, Error>)
        ensures
            r is Err <==> !Self::ok_at(self.hist(), Tok::Close),
            r matches Err(e) ==> e == Error::EmptyLeave,
    {
        let ghost h = self.hist@;
        let SExprBuilder { stack: mut stack, hist: _ } = self;
        let ghost st_start = stack@;
        proof {
            lemma_slot_views(st_start);
            lemma_bstack_inv(h);
        }
        let ghost st = bstack(h);
        let top = stack.pop().unwrap();
        match top {
            None => {
                proof {
                    assert(!b_legal(st, Tok::Close));
                }
                Err(Error::EmptyLeave)
            },
            Some(val) => {
                let ghost vv = sexpr_view(val);
                let ghost pv = slot_view(stack@.last());
                let ghost st1p = stack@;
                proof {
                    assert(st.last() == Some(vv));
                    assert(st.len() >= 2);
                    assert(st_start =~= st1p.push(Some(val)));
                    lemma_slot_views_drop_last(st_start);
                    assert(st_start.drop_last() =~= st1p);
                    lemma_slot_views(st1p);
                    assert(st.drop_last() == slot_views(st1p));
                    assert(st.drop_last().last() == pv);
                }
                let parent = stack.pop().unwrap();
                let ghost st1 = stack@;
                let ghost mut newtop: Option<SExpr> = None;
                match parent {
                    None => {
                        proof {
                            assert(pv is None);
                        }
                        stack.push(Some(val));
                        proof {
                            newtop = Some(val);
                            assert(slot_view(Some(val)) == Some(vv));
                        }
                    },
                    Some(SExpr::List(mut l)) => {
                        let ghost l0 = l@;
                        proof {
                            assert(pv == Some(SExprView::List(views_of(l0))));
                        }
                        l.push(val);
                        proof {
                            lemma_views_of_push(l0, val);
                            assert(views_of(l@) == views_of(l0).push(vv));
                        }
                        let ghost lv = views_of(l@);
                        stack.push(Some(SExpr::List(l)));
                        proof {
                            newtop = stack@.last();
                            assert(slot_view(newtop) == Some(SExprView::List(lv)));
                        }
                    },
                    Some(other) => {
                        proof {
                            assert(sexpr_view(other) is List ==> other is List);
                            assert(pv == Some(sexpr_view(other)));
                            assert(st.drop_last()[st.drop_last().len() - 1] == pv);
                            lemma_bstack_inv(h);
                            assert(slot_ok(st[st.len() - 2]));
                            assert(st[st.len() - 2] == st.drop_last().last());
                            assert(false);
                        }
                        unreached()
                    },
                }
                let r = SExprBuilder { stack, hist: Ghost(h.push(Tok::Close)) };
                proof {
                    lemma_depth_push(h, Tok::Close);
                    lemma_slot_views_push(st1, newtop);
                    assert(r.stack@ =~= st1.push(newtop));
                    assert(h.push(Tok::Close).drop_last() =~= h);
                    assert(h.push(Tok::Close).last() == Tok::Close);
                    assert(bstack(h.push(Tok::Close)) == bstep(st, Tok::Close));
                    assert(b_legal(st, Tok::Close));
                    assert(slot_views(st1) == st.drop_last().drop_last()) by {
                        lemma_slot_views_drop_last(st1p);
                        assert(st1p.drop_last() =~= st1);
                    }
                    assert(bstep(st, Tok::Close) =~= st.drop_last().drop_last().push(
                        slot_view(newtop),
                    ));
                    assert(slot_views(r.stack@) =~= bstep(st, Tok::Close));
                }
                Ok(r)
            },
        }
    }

    proof fn depth_nonneg(&self) {
    }
}

} // verus!
