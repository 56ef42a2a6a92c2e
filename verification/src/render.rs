//! The rendering protocol: a backend-agnostic way to emit a nested list
//! structure so that every opened list is closed exactly once and the
//! emitted text has canonical spacing.
//!
//! The protocol is specified through a ghost stream of tokens ([`Tok`]):
//! every operation of a [`Writer`] appends one token to a ghost history,
//! and each backend's observable state is tied to that history by its
//! well-formedness invariant.  The function [`text_of`] says, once and for
//! all backends, which text a token history denotes.

use vstd::prelude::*;

use crate::lexicon::{keyword_text, symbol_text, Keyword, Symbol, SymbolView};
use crate::sexprs::{constant_text, ConstantView, SpecialConstant};

pub mod builder;
pub mod fmt;
pub mod io;

verus! {

/// One step of the rendering protocol: opening a list, closing a list, or
/// emitting one already-formatted word.
pub enum Tok {
    Open,
    Close,
    Word(Seq<char>),
}

/// The characters a single token contributes, separators aside.
pub open spec fn tok_text(t: Tok) -> Seq<char> {
    match t {
        Tok::Open => seq!['('],
        Tok::Close => seq![')'],
        Tok::Word(s) => s,
    }
}

/// Whether the next token is the first at its nesting level, in which case
/// no separating space precedes it.
pub open spec fn first_pending(h: Seq<Tok>) -> bool {
    h.len() == 0 || h.last() is Open
}

/// The separator written before token `t` when the history so far is `h`:
/// one space, except at the start of a list (or of the output) and before
/// a closing parenthesis.
pub open spec fn sep_text(h: Seq<Tok>, t: Tok) -> Seq<char> {
    if first_pending(h) || t is Close {
        Seq::empty()
    } else {
        seq![' ']
    }
}

/// The text denoted by a token history.
pub open spec fn text_of(h: Seq<Tok>) -> Seq<char>
    decreases h.len(),
{
    if h.len() == 0 {
        Seq::empty()
    } else {
        text_of(h.drop_last()) + sep_text(h.drop_last(), h.last()) + tok_text(h.last())
    }
}

/// How many lists the history has opened and not yet closed.
pub open spec fn depth_of(h: Seq<Tok>) -> int
    decreases h.len(),
{
    if h.len() == 0 {
        0
    } else {
        depth_of(h.drop_last()) + match h.last() {
            Tok::Open => 1int,
            Tok::Close => -1int,
            Tok::Word(_) => 0int,
        }
    }
}

pub proof fn lemma_text_push(h: Seq<Tok>, t: Tok)
    ensures
        text_of(h.push(t)) == text_of(h) + sep_text(h, t) + tok_text(t),
{
    assert(h.push(t).drop_last() =~= h);
    assert(h.push(t).last() == t);
}

pub proof fn lemma_depth_push(h: Seq<Tok>, t: Tok)
    ensures
        depth_of(h.push(t)) == depth_of(h) + match t {
            Tok::Open => 1int,
            Tok::Close => -1int,
            Tok::Word(_) => 0int,
        },
{
    assert(h.push(t).drop_last() =~= h);
    assert(h.push(t).last() == t);
}

pub proof fn lemma_depth_concat(a: Seq<Tok>, b: Seq<Tok>)
    ensures
        depth_of(a + b) == depth_of(a) + depth_of(b),
    decreases b.len(),
{
    if b.len() == 0 {
        assert(a + b =~= a);
    } else {
        lemma_depth_concat(a, b.drop_last());
        assert((a + b).drop_last() =~= a + b.drop_last());
        assert((a + b).last() == b.last());
    }
}

/// The tokens of sibling runs concatenate.
pub proof fn lemma_list_toks_concat(a: Seq<SExprView>, b: Seq<SExprView>)
    ensures
        list_toks(a + b) == list_toks(a) + list_toks(b),
    decreases a,
{
    if a.len() == 0 {
        assert(a + b =~= b);
        assert(list_toks(a) + list_toks(b) =~= list_toks(b));
    } else {
        lemma_list_toks_concat(a.drop_first(), b);
        assert((a + b).drop_first() =~= a.drop_first() + b);
        assert((a + b)[0] == a[0]);
        assert(list_toks(a + b) =~= list_toks(a) + list_toks(b));
    }
}

/// The tokens of a single tree as a sibling run.
pub proof fn lemma_list_toks_single(x: SExprView)
    ensures
        list_toks(seq![x]) == tree_toks(x),
{
    reveal_with_fuel(list_toks, 3);
    assert(seq![x].drop_first() =~= Seq::<SExprView>::empty());
    assert(list_toks(seq![x]) =~= tree_toks(x));
}

/// Peeling the first tree off a sibling run.
pub proof fn lemma_list_toks_cons(x: SExprView, rest: Seq<SExprView>)
    ensures
        list_toks(seq![x] + rest) == tree_toks(x) + list_toks(rest),
{
    lemma_list_toks_single(x);
    lemma_list_toks_concat(seq![x], rest);
}

/// The abstraction of a rendering backend while a render is in progress.
///
/// A writer value is a *position*: each operation consumes it and returns
/// the successor position (or the backend's error).  `hist` is the ghost
/// stream of tokens accepted so far; `ok_at` says which token the backend
/// accepts after a given history; a `total` backend fails only on a token
/// that `ok_at` refuses.
pub trait Writer: Sized {
    type Error;

    /// The tokens this position has accepted so far.
    spec fn hist(&self) -> Seq<Tok>;

    /// What the backend holds apart from the render: for a streaming
    /// backend the sink's prior content, empty for the others.  No
    /// operation changes it.
    spec fn base(&self) -> Seq<char>;

    /// The backend's internal invariant tying its state to `hist`.
    spec fn wf(&self) -> bool;

    /// Whether the backend accepts token `t` after history `h`.
    spec fn ok_at(h: Seq<Tok>, t: Tok) -> bool;

    /// Whether the backend fails only on tokens that `ok_at` refuses.
    /// A backend over a fallible sink is not total.
    spec fn total() -> bool;

    /// Open a nested list one level deeper.
    fn enter(self) -> (r: Result<Self, Self::Error>)
        requires
            self.wf(),
        ensures
            r matches Ok(w) ==> w.wf() && w.hist() == self.hist().push(Tok::Open) && w.base()
                == self.base(),
            Self::total() && Self::ok_at(self.hist(), Tok::Open) ==> r is Ok,
    ;

    /// Emit one word at the current position.
    fn write_word(self, word: &str) -> (r: Result<Self, Self::Error>)
        requires
            self.wf(),
        ensures
            r matches Ok(w) ==> w.wf() && w.hist() == self.hist().push(Tok::Word(word@))
                && w.base() == self.base(),
            Self::total() && Self::ok_at(self.hist(), Tok::Word(word@)) ==> r is Ok,
    ;

    /// Close the innermost open list, returning to the enclosing level.
    fn leave(self) -> (r: Result<Self, Self::Error>)
        requires
            self.wf(),
            depth_of(self.hist()) >= 1,
        ensures
            r matches Ok(w) ==> w.wf() && w.hist() == self.hist().push(Tok::Close) && w.base()
                == self.base(),
            Self::total() && Self::ok_at(self.hist(), Tok::Close) ==> r is Ok,
    ;

    /// A well-formed position never has more lists closed than opened.
    proof fn depth_nonneg(&self)
        requires
            self.wf(),
        ensures
            depth_of(self.hist()) >= 0,
    ;
}

/// Whether backend `W` accepts the whole token run `ts` after history `h`.
pub open spec fn run_ok<W: Writer>(h: Seq<Tok>, ts: Seq<Tok>) -> bool {
    forall|i: int| 0 <= i < ts.len() ==> W::ok_at(h + ts.take(i), #[trigger] ts[i])
}

pub proof fn lemma_run_ok_one<W: Writer>(h: Seq<Tok>, t: Tok)
    ensures
        run_ok::<W>(h, seq![t]) <==> W::ok_at(h, t),
{
    let ts = seq![t];
    assert(ts[0] == t);
    assert(h + ts.take(0) =~= h);
    if run_ok::<W>(h, ts) {
        assert(W::ok_at(h + ts.take(0), ts[0]));
        assert(W::ok_at(h, t));
    }
    if W::ok_at(h, t) {
        assert forall|i: int| 0 <= i < ts.len() implies W::ok_at(h + ts.take(i), #[trigger] ts[i]) by {
            assert(i == 0);
            assert(h + ts.take(0) =~= h);
        }
    }
}

// ------------------------------------------------------------------
// Render trees
// ------------------------------------------------------------------

/// The mathematical form of a structural value: what a grammar entity
/// renders as, and what the tree-builder backend accumulates.
pub enum SExprView {
    Constant(ConstantView),
    Symbol(SymbolView),
    Keyword(Seq<char>),
    Word(Seq<char>),
    List(Seq<SExprView>),
}

/// The token text of an atom of the render tree.
pub open spec fn atom_text(t: SExprView) -> Seq<char> {
    match t {
        SExprView::Constant(c) => constant_text(c),
        SExprView::Symbol(s) => symbol_text(s),
        SExprView::Keyword(k) => keyword_text(k),
        SExprView::Word(w) => w,
        SExprView::List(_) => Seq::empty(),
    }
}

/// The tokens a render of the tree feeds to a backend, in order.
pub open spec fn tree_toks(t: SExprView) -> Seq<Tok>
    decreases t,
{
    match t {
        SExprView::List(l) => seq![Tok::Open] + list_toks(l) + seq![Tok::Close],
        _ => seq![Tok::Word(atom_text(t))],
    }
}

/// The tokens of a run of sibling trees, in order.
pub open spec fn list_toks(l: Seq<SExprView>) -> Seq<Tok>
    decreases l,
{
    if l.len() == 0 {
        Seq::empty()
    } else {
        tree_toks(l[0]) + list_toks(l.drop_first())
    }
}

/// The canonical text of a render tree: atoms verbatim, lists between
/// parentheses with exactly one space between siblings.
pub open spec fn tree_text(t: SExprView) -> Seq<char>
    decreases t,
{
    match t {
        SExprView::List(l) => seq!['('] + list_text(l) + seq![')'],
        _ => atom_text(t),
    }
}

/// The texts of sibling trees, joined by single spaces.
pub open spec fn list_text(l: Seq<SExprView>) -> Seq<char>
    decreases l,
{
    if l.len() == 0 {
        Seq::empty()
    } else if l.len() == 1 {
        tree_text(l[0])
    } else {
        tree_text(l[0]) + seq![' '] + list_text(l.drop_first())
    }
}

/// The separator that precedes a whole rendered tree.
pub open spec fn lead_sep(h: Seq<Tok>) -> Seq<char> {
    if first_pending(h) {
        Seq::empty()
    } else {
        seq![' ']
    }
}

/// Whether every list of the tree is non-empty, so that no close follows
/// an open directly.
pub open spec fn clean_tree(t: SExprView) -> bool
    decreases t,
{
    match t {
        SExprView::List(l) => l.len() > 0 && clean_list(l),
        _ => true,
    }
}

pub open spec fn clean_list(l: Seq<SExprView>) -> bool
    decreases l,
{
    if l.len() == 0 {
        true
    } else {
        clean_tree(l[0]) && clean_list(l.drop_first())
    }
}

/// A tree's tokens open exactly as many lists as they close.
pub proof fn lemma_tree_depth(t: SExprView)
    ensures
        depth_of(tree_toks(t)) == 0,
    decreases t,
{
    match t {
        SExprView::List(l) => {
            lemma_list_depth(l);
            let a = seq![Tok::Open] + list_toks(l);
            assert(a =~= Seq::<Tok>::empty().push(Tok::Open) + list_toks(l));
            lemma_depth_push(Seq::<Tok>::empty(), Tok::Open);
            lemma_depth_concat(Seq::<Tok>::empty().push(Tok::Open), list_toks(l));
            assert(tree_toks(t) =~= a.push(Tok::Close));
            lemma_depth_push(a, Tok::Close);
        },
        _ => {
            assert(tree_toks(t) =~= Seq::<Tok>::empty().push(Tok::Word(atom_text(t))));
            lemma_depth_push(Seq::<Tok>::empty(), Tok::Word(atom_text(t)));
        },
    }
}

/// Sibling trees' tokens leave the nesting depth unchanged.
pub proof fn lemma_list_depth(l: Seq<SExprView>)
    ensures
        depth_of(list_toks(l)) == 0,
    decreases l,
{
    if l.len() == 0 {
    } else {
        lemma_tree_depth(l[0]);
        lemma_list_depth(l.drop_first());
        lemma_depth_concat(tree_toks(l[0]), list_toks(l.drop_first()));
    }
}

/// Appending a tree's tokens appends the tree's text, after one leading
/// space unless the position is first at its level.
pub proof fn lemma_tree_render(h: Seq<Tok>, t: SExprView)
    ensures
        text_of(h + tree_toks(t)) == text_of(h) + lead_sep(h) + tree_text(t),
        !first_pending(h + tree_toks(t)),
    decreases t,
{
    match t {
        SExprView::List(l) => {
            let h1 = h.push(Tok::Open);
            lemma_text_push(h, Tok::Open);
            lemma_list_render(h1, l);
            let h2 = h1 + list_toks(l);
            lemma_text_push(h2, Tok::Close);
            assert(h + tree_toks(t) =~= h2.push(Tok::Close));
            assert(sep_text(h2, Tok::Close) =~= Seq::<char>::empty());
            assert(text_of(h2.push(Tok::Close)) =~= text_of(h2) + seq![')']);
            assert(text_of(h1) =~= text_of(h) + lead_sep(h) + seq!['(']);
            assert(text_of(h2) =~= text_of(h1) + (if l.len() == 0 {
                Seq::<char>::empty()
            } else {
                list_text(l)
            }));
            assert(text_of(h + tree_toks(t)) =~= text_of(h) + lead_sep(h) + tree_text(t));
            assert((h + tree_toks(t)).last() == Tok::Close);
        },
        _ => {
            lemma_text_push(h, Tok::Word(atom_text(t)));
            assert(h + tree_toks(t) =~= h.push(Tok::Word(atom_text(t))));
            assert(sep_text(h, Tok::Word(atom_text(t))) =~= lead_sep(h));
            assert((h + tree_toks(t)).last() == Tok::Word(atom_text(t)));
        },
    }
}

/// Appending sibling trees' tokens appends their space-joined texts.
pub proof fn lemma_list_render(h: Seq<Tok>, l: Seq<SExprView>)
    ensures
        text_of(h + list_toks(l)) == text_of(h) + (if l.len() == 0 {
            Seq::<char>::empty()
        } else {
            lead_sep(h) + list_text(l)
        }),
        first_pending(h + list_toks(l)) == (first_pending(h) && l.len() == 0),
    decreases l,
{
    if l.len() == 0 {
        assert(h + list_toks(l) =~= h);
    } else {
        lemma_tree_render(h, l[0]);
        let h1 = h + tree_toks(l[0]);
        lemma_list_render(h1, l.drop_first());
        assert(h + list_toks(l) =~= h1 + list_toks(l.drop_first()));
        if l.len() == 1 {
            assert(l.drop_first().len() == 0);
            assert(text_of(h + list_toks(l)) =~= text_of(h) + lead_sep(h) + list_text(l));
        } else {
            assert(lead_sep(h1) =~= seq![' ']);
            assert(text_of(h + list_toks(l)) =~= text_of(h) + lead_sep(h) + (tree_text(l[0])
                + seq![' '] + list_text(l.drop_first())));
            assert(list_text(l) =~= tree_text(l[0]) + seq![' '] + list_text(l.drop_first()));
        }
    }
}

pub proof fn lemma_run_ok_split<W: Writer>(h: Seq<Tok>, a: Seq<Tok>, b: Seq<Tok>)
    ensures
        run_ok::<W>(h, a + b) <==> (run_ok::<W>(h, a) && run_ok::<W>(h + a, b)),
{
    let ab = a + b;
    if run_ok::<W>(h, ab) {
        assert forall|i: int| 0 <= i < a.len() implies W::ok_at(h + a.take(i), #[trigger] a[i]) by {
            assert(ab.take(i) =~= a.take(i));
            assert(ab[i] == a[i]);
            assert(W::ok_at(h + ab.take(i), ab[i]));
        }
        assert forall|i: int| 0 <= i < b.len() implies W::ok_at((h + a) + b.take(i), #[trigger] b[i]) by {
            let j = a.len() + i;
            assert(ab.take(j) =~= a + b.take(i));
            assert(ab[j] == b[i]);
            assert(W::ok_at(h + ab.take(j), ab[j]));
            assert(h + (a + b.take(i)) =~= (h + a) + b.take(i));
        }
    }
    if run_ok::<W>(h, a) && run_ok::<W>(h + a, b) {
        assert forall|i: int| 0 <= i < ab.len() implies W::ok_at(h + ab.take(i), #[trigger] ab[i]) by {
            if i < a.len() {
                assert(ab.take(i) =~= a.take(i));
                assert(ab[i] == a[i]);
                assert(W::ok_at(h + a.take(i), a[i]));
            } else {
                let j = i - a.len();
                assert(ab.take(i) =~= a + b.take(j));
                assert(ab[i] == b[j]);
                assert(W::ok_at((h + a) + b.take(j), b[j]));
                assert(h + (a + b.take(j)) =~= (h + a) + b.take(j));
            }
        }
    }
}

// ------------------------------------------------------------------
// The render capability and the structural value
// ------------------------------------------------------------------

/// The render capability: an entity that can drive any backend through
/// its whole token run.
///
/// On success the returned position has seen exactly the entity's tokens;
/// a total backend that accepts the run cannot fail.
pub trait Write {
    /// The render tree this entity emits.
    spec fn tree(&self) -> SExprView;

    /// Whether this entity may be rendered at all.
    spec fn renderable(&self) -> bool;

    /// Drive the writer through this entity's token run.
    fn write<W: Writer>(&self, w: W) -> (r: Result<W, W::Error>)
        requires
            w.wf(),
            self.renderable(),
        ensures
            r matches Ok(w2) ==> w2.wf() && w2.hist() == w.hist() + tree_toks(self.tree())
                && w2.base() == w.base(),
            W::total() && run_ok::<W>(w.hist(), tree_toks(self.tree())) ==> r is Ok,
    ;
}

/// Render the list `(head a b)`: one tag word and two entities.
pub fn write_list2<W: Writer, A: Write, B: Write>(head: &str, a: &A, b: &B, w: W) -> (r: Result<
    W,
    W::Error,
>)
    requires
        w.wf(),
        a.renderable(),
        b.renderable(),
    ensures
        r matches Ok(w2) ==> w2.wf() && w2.hist() == w.hist() + tree_toks(
            SExprView::List(seq![SExprView::Word(head@), a.tree(), b.tree()]),
        ) && w2.base() == w.base(),
        W::total() && run_ok::<W>(
            w.hist(),
            tree_toks(SExprView::List(seq![SExprView::Word(head@), a.tree(), b.tree()])),
        ) ==> r is Ok,
{
    let ghost h0 = w.hist();
    let ghost l3 = seq![SExprView::Word(head@), a.tree(), b.tree()];
    let ghost ts = tree_toks(SExprView::List(l3));
    proof {
        reveal_with_fuel(list_toks, 5);
        assert(list_toks(l3) =~= seq![Tok::Word(head@)] + (tree_toks(a.tree()) + tree_toks(
            b.tree(),
        ))) by {
            assert(l3.drop_first() =~= seq![a.tree(), b.tree()]);
            assert(seq![a.tree(), b.tree()].drop_first() =~= seq![b.tree()]);
            assert(seq![b.tree()].drop_first() =~= Seq::<SExprView>::empty());
            assert(list_toks(seq![b.tree()]) =~= tree_toks(b.tree()));
            assert(list_toks(seq![a.tree(), b.tree()]) =~= tree_toks(a.tree()) + tree_toks(
                b.tree(),
            ));
            assert(tree_toks(SExprView::Word(head@)) =~= seq![Tok::Word(head@)]);
        }
        assert(ts =~= seq![Tok::Open] + (seq![Tok::Word(head@)] + (tree_toks(a.tree()) + (
        tree_toks(b.tree()) + seq![Tok::Close]))));
        lemma_run_ok_split::<W>(
            h0,
            seq![Tok::Open],
            seq![Tok::Word(head@)] + (tree_toks(a.tree()) + (tree_toks(b.tree())
                + seq![Tok::Close])),
        );
        lemma_run_ok_one::<W>(h0, Tok::Open);
        w.depth_nonneg();
    }
    let ghost h1 = h0.push(Tok::Open);
    let w1 = match w.enter() {
        Ok(x) => x,
        Err(e) => {
            return Err(e);
        },
    };
    proof {
        assert(h0 + seq![Tok::Open] =~= h1);
        lemma_run_ok_split::<W>(
            h1,
            seq![Tok::Word(head@)],
            tree_toks(a.tree()) + (tree_toks(b.tree()) + seq![Tok::Close]),
        );
        lemma_run_ok_one::<W>(h1, Tok::Word(head@));
    }
    let ghost h2 = h1.push(Tok::Word(head@));
    let w2 = match w1.write_word(head) {
        Ok(x) => x,
        Err(e) => {
            return Err(e);
        },
    };
    proof {
        assert(h1 + seq![Tok::Word(head@)] =~= h2);
        lemma_run_ok_split::<W>(
            h2,
            tree_toks(a.tree()),
            tree_toks(b.tree()) + seq![Tok::Close],
        );
    }
    let ghost h3 = h2 + tree_toks(a.tree());
    let w3 = match a.write(w2) {
        Ok(x) => x,
        Err(e) => {
            return Err(e);
        },
    };
    proof {
        lemma_run_ok_split::<W>(h3, tree_toks(b.tree()), seq![Tok::Close]);
    }
    let ghost h4 = h3 + tree_toks(b.tree());
    let w4 = match b.write(w3) {
        Ok(x) => x,
        Err(e) => {
            return Err(e);
        },
    };
    proof {
        lemma_run_ok_one::<W>(h4, Tok::Close);
        lemma_depth_push(h0, Tok::Open);
        lemma_depth_push(h1, Tok::Word(head@));
        lemma_tree_depth(a.tree());
        lemma_tree_depth(b.tree());
        lemma_depth_concat(h2, tree_toks(a.tree()));
        lemma_depth_concat(h3, tree_toks(b.tree()));
        assert(depth_of(h4) >= 1);
    }
    match w4.leave() {
        Ok(x) => {
            proof {
                assert(x.hist() =~= h0 + ts);
            }
            Ok(x)
        },
        Err(e) => Err(e),
    }
}

/// A structural value: the tree the in-memory backend accumulates, and a
/// tree that can itself be rendered again.
#[derive(Debug)]
pub enum SExpr {
    Constant(SpecialConstant),
    Symbol(Symbol),
    Keyword(Keyword),
    Word(String),
    List(Vec<SExpr>),
}

impl View for SExpr {
    type V = SExprView;

    open spec fn view(&self) -> SExprView {
        sexpr_view(*self)
    }
}

/// The view of a structural value as a render tree.
pub open spec fn sexpr_view(e: SExpr) -> SExprView
    decreases e,
{
    match e {
        SExpr::Constant(c) => SExprView::Constant(c@),
        SExpr::Symbol(s) => SExprView::Symbol(s@),
        SExpr::Keyword(k) => SExprView::Keyword(k@),
        SExpr::Word(w) => SExprView::Word(w@),
        SExpr::List(v) => SExprView::List(views_of(v@)),
    }
}

/// The views of a run of structural values, in order.
pub open spec fn views_of(s: Seq<SExpr>) -> Seq<SExprView>
    decreases s,
{
    if s.len() == 0 {
        Seq::empty()
    } else {
        seq![sexpr_view(s[0])] + views_of(s.drop_first())
    }
}

pub proof fn lemma_views_of(s: Seq<SExpr>)
    ensures
        views_of(s).len() == s.len(),
        forall|i: int| 0 <= i < s.len() ==> views_of(s)[i] == sexpr_view(#[trigger] s[i]),
    decreases s,
{
    if s.len() > 0 {
        lemma_views_of(s.drop_first());
        assert forall|i: int| 0 <= i < s.len() implies views_of(s)[i] == sexpr_view(
            #[trigger] s[i],
        ) by {
            if i > 0 {
                assert(s.drop_first()[i - 1] == s[i]);
                assert(views_of(s)[i] == views_of(s.drop_first())[i - 1]);
            } else {
                assert(views_of(s)[0] == sexpr_view(s[0]));
            }
        }
    }
}

pub proof fn lemma_views_of_push(s: Seq<SExpr>, e: SExpr)
    ensures
        views_of(s.push(e)) == views_of(s).push(sexpr_view(e)),
{
    lemma_views_of(s);
    lemma_views_of(s.push(e));
    assert forall|i: int| 0 <= i < s.len() + 1 implies views_of(s.push(e))[i] == views_of(
        s,
    ).push(sexpr_view(e))[i] by {
        assert(views_of(s.push(e))[i] == sexpr_view(s.push(e)[i]));
        if i < s.len() {
            assert(s.push(e)[i] == s[i]);
        } else {
            assert(s.push(e)[i] == e);
        }
    }
    assert(views_of(s.push(e)) =~= views_of(s).push(sexpr_view(e)));
}

/// Whether the tree is free of keyword atoms, which the structural render
/// refuses.
pub open spec fn no_keyword(t: SExprView) -> bool
    decreases t,
{
    match t {
        SExprView::Keyword(_) => false,
        SExprView::List(l) => no_keyword_list(l),
        _ => true,
    }
}

pub open spec fn no_keyword_list(l: Seq<SExprView>) -> bool
    decreases l,
{
    if l.len() == 0 {
        true
    } else {
        no_keyword(l[0]) && no_keyword_list(l.drop_first())
    }
}

pub proof fn lemma_no_keyword_list(l: Seq<SExprView>)
    requires
        no_keyword_list(l),
    ensures
        forall|i: int| 0 <= i < l.len() ==> no_keyword(#[trigger] l[i]),
    decreases l,
{
    if l.len() > 0 {
        lemma_no_keyword_list(l.drop_first());
        assert forall|i: int| 0 <= i < l.len() implies no_keyword(#[trigger] l[i]) by {
            if i > 0 {
                assert(l.drop_first()[i - 1] == l[i]);
            }
        }
    }
}

impl SExpr {
    /// A word atom with the given text.
    pub fn word(word: &str) -> (r: Self)
        ensures
            r@ == SExprView::Word(word@),
    {
        SExpr::Word(word.to_owned())
    }

    /// A list of the given values.
    pub fn list(list: Vec<SExpr>) -> (r: Self)
        ensures
            r@ == SExprView::List(views_of(list@)),
    {
        SExpr::List(list)
    }
}

impl SExpr {
    /// The canonical text of this value: atoms verbatim, lists between
    /// parentheses with single spaces between siblings.
    pub fn to_text(&self) -> (r: String)
        requires
            no_keyword(self@),
        ensures
            r@ == tree_text(self@),
    {
        let w = fmt::FmtWriter::new();
        let ghost h0 = w.hist();
        proof {
            assert(run_ok::<fmt::FmtWriter>(h0, tree_toks(self@)));
            lemma_tree_render(h0, self@);
            assert(h0 + tree_toks(self@) =~= tree_toks(self@));
            assert(text_of(h0) =~= Seq::<char>::empty());
            assert(lead_sep(h0) =~= Seq::<char>::empty());
        }
        match self.write(w) {
            Ok(w2) => {
                proof {
                    assert(text_of(w2.hist()) =~= tree_text(self@));
                }
                w2.finish()
            },
            Err(_) => {
                proof {
                    assert(false);
                }
                unreached()
            },
        }
    }
}

// ------------------------------------------------------------------
// Parenthesis balance of rendered text
// ------------------------------------------------------------------

/// How many times the character occurs in the text.
pub open spec fn count_char(s: Seq<char>, c: char) -> int
    decreases s.len(),
{
    if s.len() == 0 {
        0
    } else {
        count_char(s.drop_last(), c) + if s.last() == c {
            1int
        } else {
            0int
        }
    }
}

/// Whether the character never occurs in the text.
pub open spec fn char_free(s: Seq<char>, c: char) -> bool {
    forall|i: int| 0 <= i < s.len() ==> s[i] != c
}

/// Whether every prefix of the text has at least as many opening as
/// closing parentheses.
pub open spec fn balanced_prefixes(s: Seq<char>) -> bool {
    forall|i: int|
        0 <= i <= s.len() ==> count_char(#[trigger] s.take(i), '(') >= count_char(s.take(i), ')')
}

/// How many list nodes the tree holds: the number of parenthesis pairs
/// its render carries.
pub open spec fn tree_list_count(t: SExprView) -> int
    decreases t,
{
    match t {
        SExprView::List(l) => 1 + list_list_count(l),
        _ => 0,
    }
}

pub open spec fn list_list_count(l: Seq<SExprView>) -> int
    decreases l,
{
    if l.len() == 0 {
        0
    } else {
        tree_list_count(l[0]) + list_list_count(l.drop_first())
    }
}

/// Whether no atom of the tree holds a parenthesis character, so that
/// every parenthesis of the rendered text is structural.
pub open spec fn atoms_paren_free(t: SExprView) -> bool
    decreases t,
{
    match t {
        SExprView::List(l) => atoms_paren_free_list(l),
        _ => char_free(atom_text(t), '(') && char_free(atom_text(t), ')'),
    }
}

pub open spec fn atoms_paren_free_list(l: Seq<SExprView>) -> bool
    decreases l,
{
    if l.len() == 0 {
        true
    } else {
        atoms_paren_free(l[0]) && atoms_paren_free_list(l.drop_first())
    }
}

pub proof fn lemma_count_concat(a: Seq<char>, b: Seq<char>, c: char)
    ensures
        count_char(a + b, c) == count_char(a, c) + count_char(b, c),
    decreases b.len(),
{
    if b.len() == 0 {
        assert(a + b =~= a);
    } else {
        lemma_count_concat(a, b.drop_last(), c);
        assert((a + b).drop_last() =~= a + b.drop_last());
        assert((a + b).last() == b.last());
    }
}

pub proof fn lemma_count_char_free(s: Seq<char>, c: char)
    requires
        char_free(s, c),
    ensures
        count_char(s, c) == 0,
    decreases s.len(),
{
    if s.len() > 0 {
        assert(char_free(s.drop_last(), c));
        lemma_count_char_free(s.drop_last(), c);
    }
}

pub proof fn lemma_char_free_balanced(s: Seq<char>)
    requires
        char_free(s, '('),
        char_free(s, ')'),
    ensures
        balanced_prefixes(s),
{
    assert forall|i: int|
        0 <= i <= s.len() implies count_char(#[trigger] s.take(i), '(') >= count_char(
        s.take(i),
        ')',
    ) by {
        assert(char_free(s.take(i), '('));
        assert(char_free(s.take(i), ')'));
        lemma_count_char_free(s.take(i), '(');
        lemma_count_char_free(s.take(i), ')');
    }
}

pub proof fn lemma_balanced_concat(a: Seq<char>, b: Seq<char>)
    requires
        balanced_prefixes(a),
        balanced_prefixes(b),
    ensures
        balanced_prefixes(a + b),
{
    assert forall|i: int|
        0 <= i <= (a + b).len() implies count_char(#[trigger] (a + b).take(i), '(') >= count_char(
        (a + b).take(i),
        ')',
    ) by {
        if i <= a.len() {
            assert((a + b).take(i) =~= a.take(i));
        } else {
            let j = i - a.len();
            assert((a + b).take(i) =~= a + b.take(j));
            lemma_count_concat(a, b.take(j), '(');
            lemma_count_concat(a, b.take(j), ')');
            assert(a.take(a.len() as int) =~= a);
            assert(b.take(b.len() as int).len() == b.len());
        }
    }
}

pub proof fn lemma_balanced_close(m: Seq<char>)
    requires
        balanced_prefixes(m),
        count_char(m, '(') >= count_char(m, ')') + 1,
    ensures
        balanced_prefixes(m.push(')')),
{
    let s = m.push(')');
    assert forall|i: int|
        0 <= i <= s.len() implies count_char(#[trigger] s.take(i), '(') >= count_char(
        s.take(i),
        ')',
    ) by {
        if i <= m.len() {
            assert(s.take(i) =~= m.take(i));
        } else {
            assert(s.take(i) =~= m.push(')'));
            assert(m.push(')').drop_last() =~= m);
            assert(m.take(m.len() as int) =~= m);
        }
    }
}

/// The rendered text of a tree whose atoms are free of parentheses has
/// exactly one balanced pair of parentheses for each of its list nodes,
/// and no unmatched parenthesis: every prefix closes no more lists than
/// it has opened, and the whole text closes exactly as many as it opens.
pub proof fn lemma_tree_text_balanced(t: SExprView)
    requires
        atoms_paren_free(t),
    ensures
        count_char(tree_text(t), '(') == tree_list_count(t),
        count_char(tree_text(t), ')') == tree_list_count(t),
        balanced_prefixes(tree_text(t)),
    decreases t,
{
    reveal_with_fuel(count_char, 3);
    match t {
        SExprView::List(l) => {
            lemma_list_text_balanced(l);
            let inner = list_text(l);
            let m = seq!['('] + inner;
            assert(balanced_prefixes(seq!['('])) by {
                assert forall|i: int|
                    0 <= i <= 1 implies count_char(#[trigger] seq!['('].take(i), '(')
                    >= count_char(seq!['('].take(i), ')') by {
                    if i == 0 {
                        assert(seq!['('].take(0) =~= Seq::<char>::empty());
                    } else {
                        assert(seq!['('].take(1) =~= seq!['(']);
                        assert(seq!['('].drop_last() =~= Seq::<char>::empty());
                    }
                }
            }
            lemma_balanced_concat(seq!['('], inner);
            lemma_count_concat(seq!['('], inner, '(');
            lemma_count_concat(seq!['('], inner, ')');
            assert(count_char(seq!['('], '(') == 1) by {
                assert(seq!['('].drop_last() =~= Seq::<char>::empty());
            }
            assert(count_char(seq!['('], ')') == 0) by {
                assert(seq!['('].drop_last() =~= Seq::<char>::empty());
            }
            lemma_balanced_close(m);
            assert(tree_text(t) =~= m.push(')'));
            assert(count_char(m.push(')'), '(') == count_char(m, '(')) by {
                assert(m.push(')').drop_last() =~= m);
            }
            assert(count_char(m.push(')'), ')') == count_char(m, ')') + 1) by {
                assert(m.push(')').drop_last() =~= m);
            }
        },
        _ => {
            lemma_count_char_free(atom_text(t), '(');
            lemma_count_char_free(atom_text(t), ')');
            lemma_char_free_balanced(atom_text(t));
        },
    }
}

pub proof fn lemma_list_text_balanced(l: Seq<SExprView>)
    requires
        atoms_paren_free_list(l),
    ensures
        count_char(list_text(l), '(') == list_list_count(l),
        count_char(list_text(l), ')') == list_list_count(l),
        balanced_prefixes(list_text(l)),
    decreases l,
{
    reveal_with_fuel(count_char, 3);
    reveal_with_fuel(list_list_count, 3);
    if l.len() == 0 {
        assert(balanced_prefixes(Seq::<char>::empty())) by {
            assert forall|i: int|
                0 <= i <= 0 implies count_char(#[trigger] Seq::<char>::empty().take(i), '(')
                >= count_char(Seq::<char>::empty().take(i), ')') by {
                assert(Seq::<char>::empty().take(i) =~= Seq::<char>::empty());
            }
        }
    } else if l.len() == 1 {
        lemma_tree_text_balanced(l[0]);
        assert(list_list_count(l) == tree_list_count(l[0])) by {
            assert(l.drop_first().len() == 0);
        }
    } else {
        lemma_tree_text_balanced(l[0]);
        lemma_list_text_balanced(l.drop_first());
        let a = tree_text(l[0]);
        let sp = seq![' '];
        let b = list_text(l.drop_first());
        assert(balanced_prefixes(sp)) by {
            assert(char_free(sp, '(') && char_free(sp, ')'));
            lemma_char_free_balanced(sp);
        }
        lemma_balanced_concat(a, sp);
        lemma_balanced_concat(a + sp, b);
        lemma_count_concat(a, sp, '(');
        lemma_count_concat(a, sp, ')');
        lemma_count_concat(a + sp, b, '(');
        lemma_count_concat(a + sp, b, ')');
        assert(count_char(sp, '(') == 0 && count_char(sp, ')') == 0) by {
            assert(sp.drop_last() =~= Seq::<char>::empty());
        }
        assert(list_text(l) =~= (a + sp) + b);
    }
}

/// The capability of producing an in-memory structural value directly.
pub trait ToSExpr {
    /// The tree of the produced value.
    spec fn sexpr_tree(&self) -> SExprView;

    /// The entity as a structural value.
    fn to_sexpr(&self) -> (r: SExpr)
        ensures
            r@ == self.sexpr_tree(),
    ;
}

impl Write for SExpr {
    open spec fn tree(&self) -> SExprView {
        self@
    }

    open spec fn renderable(&self) -> bool {
        no_keyword(self@)
    }

    #[verifier::loop_isolation(false)]
    fn write<W: Writer>(&self, w: W) -> (r: Result<W, W::Error>)
        decreases self@,
    {
        let ghost h0 = w.hist();
        let ghost b0 = w.base();
        let ghost ts = tree_toks(self@);
        match self {
            SExpr::Word(word) => {
                proof {
                    lemma_run_ok_one::<W>(h0, Tok::Word(word@));
                }
                match w.write_word(word.as_str()) {
                    Ok(w2) => {
                        proof {
                            assert(w2.hist() =~= h0 + ts);
                        }
                        Ok(w2)
                    },
                    Err(e) => Err(e),
                }
            },
            SExpr::Constant(c) => {
                let tok = c.token();
                proof {
                    lemma_run_ok_one::<W>(h0, Tok::Word(tok@));
                }
                match w.write_word(tok.as_str()) {
                    Ok(w2) => {
                        proof {
                            assert(w2.hist() =~= h0 + ts);
                        }
                        Ok(w2)
                    },
                    Err(e) => Err(e),
                }
            },
            SExpr::Symbol(s) => {
                let tok = s.token();
                proof {
                    lemma_run_ok_one::<W>(h0, Tok::Word(tok@));
                }
                match w.write_word(tok.as_str()) {
                    Ok(w2) => {
                        proof {
                            assert(w2.hist() =~= h0 + ts);
                        }
                        Ok(w2)
                    },
                    Err(e) => Err(e),
                }
            },
            SExpr::Keyword(_) => {
                proof {
                    assert(false);
                }
                unreached()
            },
            SExpr::List(v) => {
                let ghost vs = views_of(v@);
                let ghost lt = list_toks(vs);
                proof {
                    lemma_views_of(v@);
                    lemma_no_keyword_list(vs);
                    assert(ts =~= seq![Tok::Open] + (lt + seq![Tok::Close]));
                    lemma_run_ok_split::<W>(h0, seq![Tok::Open], lt + seq![Tok::Close]);
                    lemma_run_ok_one::<W>(h0, Tok::Open);
                    w.depth_nonneg();
                }
                let ghost hopen = h0.push(Tok::Open);
                let mut cur = match w.enter() {
                    Ok(x) => x,
                    Err(e) => {
                        return Err(e);
                    },
                };
                proof {
                    assert(h0 + seq![Tok::Open] =~= hopen);
                    assert(vs.take(0) =~= Seq::<SExprView>::empty());
                    assert(vs.skip(0) =~= vs);
                    assert(hopen + list_toks(vs.take(0)) =~= hopen);
                    if W::total() && run_ok::<W>(h0, ts) {
                        assert(run_ok::<W>(h0 + seq![Tok::Open], lt + seq![Tok::Close]));
                    }
                }
                let n = v.len();
                let mut i: usize = 0;
                while i < n
                    invariant
                        i <= n,
                        n == v.len(),
                        vs == views_of(v@),
                        vs.len() == n,
                        forall|j: int| 0 <= j < n ==> vs[j] == sexpr_view(#[trigger] v@[j]),
                        no_keyword_list(vs),
                        forall|j: int| 0 <= j < n ==> no_keyword(#[trigger] vs[j]),
                        lt == list_toks(vs),
                        ts == tree_toks(SExprView::List(vs)),
                        self@ == SExprView::List(vs),
                        cur.wf(),
                        cur.hist() == hopen + list_toks(vs.take(i as int)),
                        cur.base() == b0,
                        hopen == h0.push(Tok::Open),
                        depth_of(h0) >= 0,
                        W::total() && run_ok::<W>(h0, ts) ==> run_ok::<W>(
                            cur.hist(),
                            list_toks(vs.skip(i as int)) + seq![Tok::Close],
                        ),
                    decreases n - i,
                {
                    proof {
                        assert(vs.skip(i as int) =~= seq![vs[i as int]] + vs.skip(i + 1));
                        lemma_list_toks_concat(seq![vs[i as int]], vs.skip(i + 1));
                        assert(list_toks(seq![vs[i as int]]) =~= tree_toks(vs[i as int])) by {
                            assert(seq![vs[i as int]].drop_first()
                                =~= Seq::<SExprView>::empty());
                            assert(tree_toks(vs[i as int]) + list_toks(Seq::<SExprView>::empty())
                                =~= tree_toks(vs[i as int]));
                        }
                        assert(list_toks(vs.skip(i as int)) + seq![Tok::Close] =~= tree_toks(
                            vs[i as int],
                        ) + (list_toks(vs.skip(i + 1)) + seq![Tok::Close]));
                        lemma_run_ok_split::<W>(
                            cur.hist(),
                            tree_toks(vs[i as int]),
                            list_toks(vs.skip(i + 1)) + seq![Tok::Close],
                        );
                        assert(self@ == SExprView::List(vs));
                        assert(decreases_to!(SExprView::List(vs) => vs));
                        assert(decreases_to!(vs => vs[i as int]));
                        assert(v@[i as int]@ == vs[i as int]);
                        assert(decreases_to!(self@ => v@[i as int]@));
                    }
                    let cur2 = match v[i].write(cur) {
                        Ok(x) => x,
                        Err(e) => {
                            proof {
                                if W::total() && run_ok::<W>(h0, ts) {
                                    assert(run_ok::<W>(cur.hist(), tree_toks(vs[i as int])));
                                    assert(vs[i as int] == sexpr_view(v@[i as int]));
                                    assert(false);
                                }
                            }
                            return Err(e);
                        },
                    };
                    cur = cur2;
                    proof {
                        assert(vs.take(i + 1) =~= vs.take(i as int) + seq![vs[i as int]]);
                        lemma_list_toks_concat(vs.take(i as int), seq![vs[i as int]]);
                        assert(list_toks(seq![vs[i as int]]) =~= tree_toks(vs[i as int])) by {
                            assert(seq![vs[i as int]].drop_first()
                                =~= Seq::<SExprView>::empty());
                            assert(tree_toks(vs[i as int]) + list_toks(Seq::<SExprView>::empty())
                                =~= tree_toks(vs[i as int]));
                        }
                        assert(cur.hist() =~= hopen + list_toks(vs.take(i + 1)));
                    }
                    i += 1;
                }
                proof {
                    assert(vs.take(n as int) =~= vs);
                    assert(vs.skip(n as int) =~= Seq::<SExprView>::empty());
                    assert(list_toks(Seq::<SExprView>::empty()) + seq![Tok::Close] =~= seq![
                        Tok::Close,
                    ]);
                    lemma_run_ok_one::<W>(cur.hist(), Tok::Close);
                    lemma_depth_concat(hopen, list_toks(vs));
                    lemma_list_depth(vs);
                    assert(depth_of(hopen) == depth_of(h0) + 1) by {
                        assert(hopen.drop_last() =~= h0);
                    }
                    assert(depth_of(cur.hist()) >= 1);
                }
                match cur.leave() {
                    Ok(w2) => {
                        proof {
                            assert(w2.hist() =~= h0 + ts);
                        }
                        Ok(w2)
                    },
                    Err(e) => Err(e),
                }
            },
        }
    }
}

} // verus!
