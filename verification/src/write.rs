//! The sink layer: a character sink that rendering streams into, and the
//! atoms' ability to write themselves to any such sink.
//!
//! A sink write can fail at any call; a failed render is abandoned and the
//! caller owns whatever was already written.

use vstd::prelude::*;

use crate::lexicon::{string_const_text, symbol_text, Keyword, StringConstant, Symbol};
use crate::sexprs::{constant_text, SpecialConstant};

verus! {

/// A sink refused a write, as a bounded sink does when full.
#[derive(Debug, Clone, Copy, PartialEq, Eq)]
pub struct Error;

/// A sink of characters.  On success the sink holds exactly the old
/// content followed by the written word; a failed write promises nothing,
/// and the caller discards the sink.
///
/// A sink kind that never refuses a write says so through
/// `always_accepts`, and its writes are then owed success.
pub trait Write {
    type Error;

    /// Whether this kind of sink accepts every write.
    spec fn always_accepts() -> bool;

    /// The characters the sink has accepted so far.
    spec fn sunk(&self) -> Seq<char>;

    /// Append one word to the sink.
    fn write_str(&mut self, word: &str) -> (r: Result<(), Self::Error>)
        ensures
            r is Ok ==> final(self).sunk() == old(self).sunk() + word@,
            Self::always_accepts() ==> r is Ok,
    ;
}

/// A value whose parts can be joined; the success value of a sink write.
pub trait Monoid {
    fn join(self, other: Self) -> Self;
}

impl Monoid for () {
    fn join(self, other: Self) -> Self {
    }
}

/// An unbounded, in-memory sink that never refuses a write.
pub struct Writer {
    out: String,
}

impl Writer {
    /// A fresh, empty sink.
    pub fn new() -> (r: Writer)
        ensures
            r.sunk() == Seq::<char>::empty(),
    {
        Writer { out: String::new() }
    }

    /// Everything the sink accepted, as one string.
    pub fn into_string(self) -> (r: String)
        ensures
            r@ == self.sunk(),
    {
        self.out
    }
}

impl Write for Writer {
    type Error = Error;

    open spec fn always_accepts() -> bool {
        true
    }

    closed spec fn sunk(&self) -> Seq<char> {
        self.out@
    }

    fn write_str(&mut self, word: &str) -> (r: Result<(), Error>)
        ensures
            r is Ok,
    {
        self.out.append(word);
        Ok(())
    }
}

/// An in-memory sink that refuses a write once it would hold more than
/// `limit` characters, for exercising a render's failure path.
pub struct BoundedWriter {
    out: String,
    limit: usize,
}

impl BoundedWriter {
    /// How many characters the sink accepts in all.
    pub closed spec fn spec_limit(&self) -> int {
        self.limit as int
    }

    /// A fresh sink that accepts at most `limit` characters.
    pub fn new(limit: usize) -> (r: BoundedWriter)
        ensures
            r.sunk() == Seq::<char>::empty(),
            r.spec_limit() == limit,
    {
        BoundedWriter { out: String::new(), limit }
    }

    /// Everything the sink accepted, as one string.
    pub fn into_string(self) -> (r: String)
        ensures
            r@ == self.sunk(),
    {
        self.out
    }
}

impl Write for BoundedWriter {
    type Error = Error;

    open spec fn always_accepts() -> bool {
        false
    }

    closed spec fn sunk(&self) -> Seq<char> {
        self.out@
    }

    fn write_str(&mut self, word: &str) -> (r: Result<(), Error>)
        ensures
            r is Ok <==> old(self).sunk().len() + word@.len() <= old(self).spec_limit(),
            r is Err ==> *final(self) == *old(self),
    {
        let held = self.out.as_str().unicode_len();
        let wl = word.unicode_len();
        if held as u128 + wl as u128 > self.limit as u128 {
            Err(Error)
        } else {
            self.out.append(word);
            Ok(())
        }
    }
}

/// The text with every `"` doubled, shared with the lexicon's escaping.
pub fn escape_string(string: &str) -> (r: String)
    ensures
        r@ == crate::lexicon::escape_text(string@),
{
    crate::lexicon::escape_string(string)
}

/// An atom that can write its own token text to any sink.
pub trait Writable {
    /// The token text this atom writes.
    spec fn wtext(&self) -> Seq<char>;

    /// Write the atom's token to the sink.
    fn write_to<W: Write>(&self, w: &mut W) -> (r: Result<(), W::Error>)
        ensures
            r is Ok ==> final(w).sunk() == old(w).sunk() + self.wtext(),
    ;
}

impl Writable for StringConstant {
    open spec fn wtext(&self) -> Seq<char> {
        string_const_text(self@)
    }

    fn write_to<W: Write>(&self, w: &mut W) -> (r: Result<(), W::Error>) {
        let tok = self.token();
        w.write_str(tok.as_str())
    }
}

impl Writable for Symbol {
    open spec fn wtext(&self) -> Seq<char> {
        symbol_text(self@)
    }

    fn write_to<W: Write>(&self, w: &mut W) -> (r: Result<(), W::Error>) {
        let ghost s0 = w.sunk();
        if self.is_quoted() {
            match w.write_str("|") {
                Ok(_) => {},
                Err(e) => {
                    return Err(e);
                },
            }
            match w.write_str(self.symbol()) {
                Ok(_) => {},
                Err(e) => {
                    return Err(e);
                },
            }
            match w.write_str("|") {
                Ok(_) => {},
                Err(e) => {
                    return Err(e);
                },
            }
            proof {
                reveal_strlit("|");
                assert("|"@ =~= seq!['|']);
                assert(w.sunk() =~= s0 + self.wtext());
            }
            Ok(())
        } else {
            let r = w.write_str(self.symbol());
            match r {
                Ok(_) => {
                    proof {
                        assert(w.sunk() =~= s0 + self.wtext());
                    }
                    Ok(())
                },
                Err(e) => Err(e),
            }
        }
    }
}

impl Writable for Keyword {
    open spec fn wtext(&self) -> Seq<char> {
        crate::lexicon::keyword_text(self@)
    }

    fn write_to<W: Write>(&self, w: &mut W) -> (r: Result<(), W::Error>) {
        let ghost s0 = w.sunk();
        match w.write_str(":") {
            Ok(_) => {},
            Err(e) => {
                return Err(e);
            },
        }
        match w.write_str(self.keyword()) {
            Ok(_) => {},
            Err(e) => {
                return Err(e);
            },
        }
        proof {
            reveal_strlit(":");
            assert(":"@ =~= seq![':']);
            assert(w.sunk() =~= s0 + self.wtext());
        }
        Ok(())
    }
}

impl Writable for SpecialConstant {
    open spec fn wtext(&self) -> Seq<char> {
        constant_text(self@)
    }

    fn write_to<W: Write>(&self, w: &mut W) -> (r: Result<(), W::Error>) {
        let tok = self.token();
        w.write_str(tok.as_str())
    }
}

} // verus!
