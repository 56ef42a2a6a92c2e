//! The streaming emitter: a backend that formats tokens exactly as the
//! text emitter does, but sends them to a sink that may refuse any write.

use vstd::prelude::*;

use crate::lexicon::push_char;
use crate::render::{
    depth_of, first_pending, lemma_depth_push, lemma_text_push, text_of, Tok, Writer,
};
use crate::write::Write;

verus! {

/// A position of the streaming emitter: the sink, and whether the next
/// token is the first at the current level.
pub struct IOWriter<S: Write> {
    w: S,
    first: bool,
    base: Ghost<Seq<char>>,
    hist: Ghost<Seq<Tok>>,
}

impl<S: Write> IOWriter<S> {
    /// A fresh emitter over the given sink.
    pub fn new(w: S) -> (r: IOWriter<S>)
        ensures
            r.wf(),
            r.hist() == Seq::<Tok>::empty(),
            r.base() == w.sunk(),
    {
        let r = IOWriter { first: true, base: Ghost(w.sunk()), w, hist: Ghost(Seq::empty()) };
        proof {
            assert(r.w.sunk() =~= r.base@ + text_of(Seq::<Tok>::empty()));
        }
        r
    }

    /// The sink, holding its old content followed by the rendered text.
    pub fn finish(self) -> (r: S)
        requires
            self.wf(),
        ensures
            r.sunk() == self.base() + text_of(self.hist()),
    {
        self.w
    }
}

impl<S: Write> Writer for IOWriter<S> {
    type Error = S::Error;

    closed spec fn hist(&self) -> Seq<Tok> {
        self.hist@
    }

    closed spec fn base(&self) -> Seq<char> {
        self.base@
    }

    closed spec fn wf(&self) -> bool {
        self.w.sunk() == self.base@ + text_of(self.hist@) && self.first == first_pending(
            self.hist@,
        ) && depth_of(self.hist@) >= 0
    }

    open spec fn ok_at(h: Seq<Tok>, t: Tok) -> bool {
        true
    }

    open spec fn total() -> bool {
        S::always_accepts()
    }

    fn enter(self) -> (r: Result<Self, S::Error>) {
        let ghost h = self.hist@;
        let IOWriter { w: mut w, first, base, hist: _ } = self;
        let res = if first {
            w.write_str("(")
        } else {
            w.write_str(" (")
        };
        match res {
            Ok(_) => {
                let r = IOWriter { w, first: true, base, hist: Ghost(h.push(Tok::Open)) };
                proof {
                    lemma_text_push(h, Tok::Open);
                    lemma_depth_push(h, Tok::Open);
                    reveal_strlit("(");
                    reveal_strlit(" (");
                    assert("("@ =~= seq!['(']);
                    assert(" ("@ =~= seq![' ', '(']);
                    assert(r.w.sunk() =~= base@ + text_of(h.push(Tok::Open)));
                }
                Ok(r)
            },
            Err(e) => Err(e),
        }
    }

    fn write_word(self, word: &str) -> (r: Result<Self, S::Error>) {
        let ghost h = self.hist@;
        let IOWriter { w: mut w, first, base, hist: _ } = self;
        let mut tok = String::new();
        if !first {
            push_char(&mut tok, ' ');
        }
        tok.append(word);
        let res = w.write_str(tok.as_str());
        match res {
            Ok(_) => {
                let r = IOWriter { w, first: false, base, hist: Ghost(h.push(Tok::Word(word@))) };
                proof {
                    lemma_text_push(h, Tok::Word(word@));
                    lemma_depth_push(h, Tok::Word(word@));
                    assert(r.w.sunk() =~= base@ + text_of(h.push(Tok::Word(word@))));
                }
                Ok(r)
            },
            Err(e) => Err(e),
        }
    }

    fn leave(self) -> (r: Result<Self, S::Error>) {
        let ghost h = self.hist@;
        let IOWriter { w: mut w, first: _, base, hist: _ } = self;
        let res = w.write_str(")");
        match res {
            Ok(_) => {
                let r = IOWriter { w, first: false, base, hist: Ghost(h.push(Tok::Close)) };
                proof {
                    lemma_text_push(h, Tok::Close);
                    lemma_depth_push(h, Tok::Close);
                    reveal_strlit(")");
                    assert(")"@ =~= seq![')']);
                    assert(r.w.sunk() =~= base@ + text_of(h.push(Tok::Close)));
                }
                Ok(r)
            },
            Err(e) => Err(e),
        }
    }

    proof fn depth_nonneg(&self) {
    }
}

} // verus!
