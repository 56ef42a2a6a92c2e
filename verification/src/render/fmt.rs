//! The incrementally formatted text emitter: a backend that appends the
//! canonical text to an owned string as tokens arrive.

use vstd::prelude::*;

use crate::lexicon::push_char;
use crate::render::{
    depth_of, first_pending, lemma_depth_push, lemma_text_push, text_of, Tok, Writer,
};

verus! {

/// The formatting backend's error type.  The string sink cannot fail, so
/// no value of it is ever produced.
#[derive(Debug, Clone, Copy, PartialEq, Eq)]
pub struct Error;

/// A position of the formatted-text emitter: the text so far and whether
/// the next token is the first at the current level.
pub struct FmtWriter {
    out: String,
    first: bool,
    hist: Ghost<Seq<Tok>>,
}

impl FmtWriter {
    /// A fresh emitter with empty output.
    pub fn new() -> (r: FmtWriter)
        ensures
            r.wf(),
            r.hist() == Seq::<Tok>::empty(),
    {
        let r = FmtWriter { out: String::new(), first: true, hist: Ghost(Seq::empty()) };
        proof {
            assert(r.out@ =~= text_of(Seq::<Tok>::empty()));
        }
        r
    }

    /// The finished text: exactly the text the token history denotes.
    pub fn finish(self) -> (r: String)
        requires
            self.wf(),
        ensures
            r@ == text_of(self.hist()),
    {
        self.out
    }
}

impl Writer for FmtWriter {
    type Error = Error;

    closed spec fn hist(&self) -> Seq<Tok> {
        self.hist@
    }

    open spec fn base(&self) -> Seq<char> {
        Seq::empty()
    }

    closed spec fn wf(&self) -> bool {
        self.out@ == text_of(self.hist@) && self.first == first_pending(self.hist@) && depth_of(
            self.hist@,
        ) >= 0
    }

    open spec fn ok_at(h: Seq<Tok>, t: Tok) -> bool {
        true
    }

    open spec fn total() -> bool {
        true
    }

    fn enter(self) -> (r: Result<Self, Error>) {
        let ghost h = self.hist@;
        let first = self.first;
        let mut out = self.out;
        if !first {
            push_char(&mut out, ' ');
        }
        push_char(&mut out, '(');
        let r = FmtWriter { out, first: true, hist: Ghost(h.push(Tok::Open)) };
        proof {
            lemma_text_push(h, Tok::Open);
            lemma_depth_push(h, Tok::Open);
            assert(r.out@ =~= text_of(h.push(Tok::Open)));
            assert(first_pending(h.push(Tok::Open)));
        }
        Ok(r)
    }

    fn write_word(self, word: &str) -> (r: Result<Self, Error>) {
        let ghost h = self.hist@;
        let first = self.first;
        let mut out = self.out;
        if !first {
            push_char(&mut out, ' ');
        }
        out.append(word);
        let r = FmtWriter { out, first: false, hist: Ghost(h.push(Tok::Word(word@))) };
        proof {
            lemma_text_push(h, Tok::Word(word@));
            lemma_depth_push(h, Tok::Word(word@));
            assert(r.out@ =~= text_of(h.push(Tok::Word(word@))));
            assert(!first_pending(h.push(Tok::Word(word@))));
        }
        Ok(r)
    }

    fn leave(self) -> (r: Result<Self, Error>) {
        let ghost h = self.hist@;
        let mut out = self.out;
        push_char(&mut out, ')');
        let r = FmtWriter { out, first: false, hist: Ghost(h.push(Tok::Close)) };
        proof {
            lemma_text_push(h, Tok::Close);
            lemma_depth_push(h, Tok::Close);
            assert(r.out@ =~= text_of(h.push(Tok::Close)));
            assert(!first_pending(h.push(Tok::Close)));
        }
        Ok(r)
    }

    proof fn depth_nonneg(&self) {
    }
}

} // verus!
