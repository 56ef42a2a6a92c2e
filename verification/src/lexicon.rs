//! Lexical atoms of the interchange format: string constants, symbols and
//! keywords, with their validation rules and their exact token texts.

use vstd::prelude::*;

use crate::scripts::{command_text, CommandType};

verus! {

/// Relies on String::push: appends exactly the given character.
#[verifier::external_body]
pub fn push_char(s: &mut String, c: char)
    ensures
        final(s)@ == old(s)@.push(c),
{
    s.push(c);
}

/// Character-wise string comparison, proved equivalent to view equality.
pub fn str_eq(a: &str, b: &str) -> (r: bool)
    ensures
        r == (a@ == b@),
{
    let na: usize = a.unicode_len();
    let nb: usize = b.unicode_len();
    if na != nb {
        return false;
    }
    let mut i: usize = 0;
    while i < na
        invariant
            i <= na,
            na == a@.len(),
            na == b@.len(),
            forall|j: int| 0 <= j < i ==> a@[j] == b@[j],
        decreases na - i,
    {
        if a.get_char(i) != b.get_char(i) {
            return false;
        }
        i += 1;
    }
    proof {
        assert(a@ =~= b@);
    }
    true
}

// ------------------------------------------------------------------
// Character classes
// ------------------------------------------------------------------

pub open spec fn char_is_white_space(c: char) -> bool {
    c == '\t' || c == '\r' || c == '\n' || c == ' '
}

/// Whether the character is white space: tab, carriage return, newline
/// or space.
#[verifier::when_used_as_spec(char_is_white_space)]
pub fn is_white_space(c: char) -> (r: bool)
    ensures
        r == char_is_white_space(c),
{
    c == '\t' || c == '\r' || c == '\n' || c == ' '
}

pub open spec fn char_is_printable(c: char) -> bool {
    !(c as u32 <= 0x1f || c as u32 == 0x7f)
}

/// Whether the character is printable: anything but a control character.
#[verifier::when_used_as_spec(char_is_printable)]
pub fn is_printable(c: char) -> (r: bool)
    ensures
        r == char_is_printable(c),
{
    let n = c as u32;
    !(n <= 0x1f || n == 0x7f)
}

pub open spec fn char_is_digit(c: char) -> bool {
    48 <= c as u32 && c as u32 <= 57
}

/// Whether the character is a decimal digit.
#[verifier::when_used_as_spec(char_is_digit)]
pub fn is_digit(c: char) -> (r: bool)
    ensures
        r == char_is_digit(c),
{
    let n = c as u32;
    48 <= n && n <= 57
}

pub open spec fn char_is_letter(c: char) -> bool {
    (65 <= c as u32 && c as u32 <= 90) || (97 <= c as u32 && c as u32 <= 122)
}

/// Whether the character is an unaccented letter.
#[verifier::when_used_as_spec(char_is_letter)]
pub fn is_letter(c: char) -> (r: bool)
    ensures
        r == char_is_letter(c),
{
    let n = c as u32;
    (65 <= n && n <= 90) || (97 <= n && n <= 122)
}

/// The characters other than letters and digits that a simple symbol may use.
pub open spec fn char_is_symbol_punct(c: char) -> bool {
    c == '~' || c == '!' || c == '@' || c == '$' || c == '%' || c == '^' || c == '&' || c == '*'
        || c == '_' || c == '-' || c == '+' || c == '=' || c == '<' || c == '>' || c == '.'
        || c == '?' || c == '/'
}

/// Whether the character is one of the symbol punctuation characters.
#[verifier::when_used_as_spec(char_is_symbol_punct)]
pub fn is_symbol_punct(c: char) -> (r: bool)
    ensures
        r == char_is_symbol_punct(c),
{
    c == '~' || c == '!' || c == '@' || c == '$' || c == '%' || c == '^' || c == '&' || c == '*'
        || c == '_' || c == '-' || c == '+' || c == '=' || c == '<' || c == '>' || c == '.'
        || c == '?' || c == '/'
}

pub open spec fn char_is_symbol_char(c: char) -> bool {
    char_is_letter(c) || char_is_digit(c) || char_is_symbol_punct(c)
}

// ------------------------------------------------------------------
// Token-level predicates
// ------------------------------------------------------------------

pub open spec fn seq_contains_char(s: Seq<char>, c: char) -> bool {
    exists|i: int| 0 <= i < s.len() && s[i] == c
}

/// Whether the string holds the given character.
pub fn contains_char(s: &str, c: char) -> (r: bool)
    ensures
        r == seq_contains_char(s@, c),
{
    let n: usize = s.unicode_len();
    let mut i: usize = 0;
    while i < n
        invariant
            i <= n,
            n == s@.len(),
            forall|j: int| 0 <= j < i ==> s@[j] != c,
        decreases n - i,
    {
        if s.get_char(i) == c {
            return true;
        }
        i += 1;
    }
    false
}

/// The reserved words of the scripting grammar other than the directives.
pub open spec fn is_reserved_seq(s: Seq<char>) -> bool {
    s == "!"@ || s == "BINARY"@ || s == "DECIMAL"@ || s == "HEXADECIMAL"@ || s == "NUMERAL"@
        || s == "STRING"@ || s == "_"@ || s == "as"@ || s == "exists"@ || s == "forall"@
        || s == "let"@ || s == "match"@ || s == "par"@
}

/// Whether the string is a reserved word (a directive's spelling aside).
pub fn is_reserved(s: &str) -> (r: bool)
    ensures
        r == is_reserved_seq(s@),
{
    str_eq(s, "!") || str_eq(s, "BINARY") || str_eq(s, "DECIMAL") || str_eq(s, "HEXADECIMAL")
        || str_eq(s, "NUMERAL") || str_eq(s, "STRING") || str_eq(s, "_") || str_eq(s, "as")
        || str_eq(s, "exists") || str_eq(s, "forall") || str_eq(s, "let") || str_eq(s, "match")
        || str_eq(s, "par")
}

pub open spec fn is_numeral_seq(s: Seq<char>) -> bool {
    s == seq!['0'] || (s.len() > 0 && (forall|i: int|
        0 <= i < s.len() ==> char_is_digit(#[trigger] s[i])) && s[0] != '0')
}

/// Whether the string is a base-10 numeral: `0`, or digits without a
/// leading zero.
pub fn is_numeral(s: &str) -> (r: bool)
    ensures
        r == is_numeral_seq(s@),
{
    let n: usize = s.unicode_len();
    if n == 0 {
        return false;
    }
    if n == 1 && s.get_char(0) == '0' {
        proof {
            assert(s@ =~= seq!['0']);
        }
        return true;
    }
    let mut i: usize = 0;
    while i < n
        invariant
            0 < n == s@.len(),
            i <= n,
            !(s@ == seq!['0']),
            forall|j: int| 0 <= j < i ==> char_is_digit(#[trigger] s@[j]),
            i > 0 ==> s@[0] != '0',
        decreases n - i,
    {
        let c = s.get_char(i);
        if !is_digit(c) {
            return false;
        }
        if i == 0 && c == '0' {
            return false;
        }
        i += 1;
    }
    true
}

pub open spec fn is_simple_symbol_seq(s: Seq<char>) -> bool {
    s.len() > 0 && !char_is_digit(s[0]) && (forall|i: int|
        0 <= i < s.len() ==> char_is_symbol_char(#[trigger] s[i])) && !is_reserved_seq(s)
}

/// Whether the string matches the simple-symbol grammar: a non-empty run of
/// letters, digits and symbol punctuation that does not start with a digit
/// and is not a reserved word.
pub fn is_simple_symbol(s: &str) -> (r: bool)
    ensures
        r == is_simple_symbol_seq(s@),
{
    let n: usize = s.unicode_len();
    if n == 0 {
        return false;
    }
    if is_digit(s.get_char(0)) {
        return false;
    }
    let mut i: usize = 0;
    while i < n
        invariant
            i <= n,
            n == s@.len(),
            forall|j: int| 0 <= j < i ==> char_is_symbol_char(#[trigger] s@[j]),
        decreases n - i,
    {
        let c = s.get_char(i);
        if !(is_letter(c) || is_digit(c) || is_symbol_punct(c)) {
            return false;
        }
        i += 1;
    }
    !is_reserved(s)
}

// ------------------------------------------------------------------
// String constants and escaping
// ------------------------------------------------------------------

/// The text of a string constant with every inner quote doubled.
pub open spec fn escape_text(s: Seq<char>) -> Seq<char>
    decreases s.len(),
{
    if s.len() == 0 {
        Seq::empty()
    } else {
        (if s[0] == '"' {
            seq!['"', '"']
        } else {
            seq![s[0]]
        }) + escape_text(s.skip(1))
    }
}

/// The inverse reading: every doubled quote stands for one quote.
pub open spec fn unescape_text(s: Seq<char>) -> Seq<char>
    decreases s.len(),
{
    if s.len() == 0 {
        Seq::empty()
    } else if s.len() >= 2 && s[0] == '"' && s[1] == '"' {
        seq!['"'] + unescape_text(s.skip(2))
    } else {
        seq![s[0]] + unescape_text(s.skip(1))
    }
}

pub proof fn lemma_escape_push(s: Seq<char>, c: char)
    ensures
        escape_text(s.push(c)) == escape_text(s) + (if c == '"' {
            seq!['"', '"']
        } else {
            seq![c]
        }),
    decreases s.len(),
{
    let tail: Seq<char> = if c == '"' {
        seq!['"', '"']
    } else {
        seq![c]
    };
    if s.len() == 0 {
        assert(s.push(c) =~= seq![c]);
        assert(seq![c].skip(1) =~= Seq::<char>::empty());
        assert(escape_text(Seq::<char>::empty()) =~= Seq::<char>::empty());
        assert(escape_text(seq![c]) =~= tail + escape_text(seq![c].skip(1)));
        assert(escape_text(s.push(c)) =~= escape_text(s) + tail);
    } else {
        lemma_escape_push(s.skip(1), c);
        assert(s.push(c).skip(1) =~= s.skip(1).push(c));
        assert(s.push(c)[0] == s[0]);
        let head: Seq<char> = if s[0] == '"' {
            seq!['"', '"']
        } else {
            seq![s[0]]
        };
        assert(escape_text(s.push(c)) =~= head + escape_text(s.skip(1).push(c)));
        assert(escape_text(s.skip(1).push(c)) =~= escape_text(s.skip(1)) + tail);
        assert(escape_text(s) =~= head + escape_text(s.skip(1)));
        assert(escape_text(s.push(c)) =~= escape_text(s) + tail);
    }
}

/// Escaping then unescaping a string constant's text is the identity.
pub proof fn lemma_escape_unescape(s: Seq<char>)
    requires
        forall|i: int|
            0 <= i < s.len() ==> char_is_printable(#[trigger] s[i]) || char_is_white_space(s[i]),
    ensures
        unescape_text(escape_text(s)) == s,
    decreases s.len(),
{
    if s.len() == 0 {
    } else {
        let rest = s.skip(1);
        assert(forall|i: int|
            0 <= i < rest.len() ==> char_is_printable(#[trigger] rest[i]) || char_is_white_space(
                rest[i],
            ));
        lemma_escape_unescape(rest);
        let e = escape_text(s);
        if s[0] == '"' {
            assert(e =~= seq!['"', '"'] + escape_text(rest));
            assert(e.len() >= 2 && e[0] == '"' && e[1] == '"');
            assert(e.skip(2) =~= escape_text(rest));
            assert(unescape_text(e) =~= seq![s[0]] + rest);
            assert(seq![s[0]] + rest =~= s);
        } else {
            assert(e =~= seq![s[0]] + escape_text(rest));
            assert(e[0] != '"');
            assert(e.skip(1) =~= escape_text(rest));
            assert(unescape_text(e) =~= seq![s[0]] + rest);
            assert(seq![s[0]] + rest =~= s);
        }
    }
}

/// The text with every `"` doubled, as the quoted form of a string
/// constant requires.
pub fn escape_string(string: &str) -> (r: String)
    ensures
        r@ == escape_text(string@),
{
    let n: usize = string.unicode_len();
    let mut out = String::new();
    let mut i: usize = 0;
    while i < n
        invariant
            i <= n,
            n == string@.len(),
            out@ == escape_text(string@.take(i as int)),
        decreases n - i,
    {
        let c = string.get_char(i);
        proof {
            assert(string@.take(i + 1) =~= string@.take(i as int).push(string@[i as int]));
            lemma_escape_push(string@.take(i as int), string@[i as int]);
        }
        push_char(&mut out, c);
        if c == '"' {
            push_char(&mut out, c);
        }
        proof {
            assert(out@ =~= escape_text(string@.take(i + 1)));
        }
        i += 1;
    }
    proof {
        assert(string@.take(n as int) =~= string@);
    }
    out
}

/// The whole token text of a string constant: the escaped text in quotes.
pub open spec fn string_const_text(s: Seq<char>) -> Seq<char> {
    seq!['"'] + escape_text(s) + seq!['"']
}

/// A string constant was built from text outside the printable and white
/// space characters.
#[derive(Debug, Clone)]
pub struct InvalidStringError(String);

impl View for InvalidStringError {
    type V = Seq<char>;

    closed spec fn view(&self) -> Seq<char> {
        self.0@
    }
}

impl InvalidStringError {
    /// The rejected text.
    pub fn text(&self) -> (r: &str)
        ensures
            r@ == self@,
    {
        self.0.as_str()
    }
}

pub open spec fn string_constant_ok(s: Seq<char>) -> bool {
    forall|i: int|
        0 <= i < s.len() ==> char_is_printable(#[trigger] s[i]) || char_is_white_space(s[i])
}

/// A validated string constant: only printable and white space characters.
#[derive(Clone, Debug)]
pub struct StringConstant(String);

impl View for StringConstant {
    type V = Seq<char>;

    closed spec fn view(&self) -> Seq<char> {
        self.0@
    }
}

impl StringConstant {
    /// Validates the text: construction succeeds exactly when every
    /// character is printable or white space.
    pub fn new(string: String) -> (r: Result<Self, InvalidStringError>)
        ensures
            r matches Ok(sc) ==> string_constant_ok(string@) && sc@ == string@,
            r matches Err(e) ==> !string_constant_ok(string@) && e@ == string@,
    {
        let n: usize = string.as_str().unicode_len();
        let mut i: usize = 0;
        let mut all_ok: bool = true;
        while i < n
            invariant
                i <= n,
                n == string@.len(),
                all_ok == (forall|j: int|
                    0 <= j < i ==> char_is_printable(#[trigger] string@[j]) || char_is_white_space(
                        string@[j],
                    )),
            decreases n - i,
        {
            let c = string.as_str().get_char(i);
            if !(is_printable(c) || is_white_space(c)) {
                all_ok = false;
            }
            i += 1;
        }
        if all_ok {
            Ok(StringConstant(string))
        } else {
            Err(InvalidStringError(string))
        }
    }

    /// As `new`, from a borrowed string.
    pub fn new_str(string: &str) -> (r: Result<Self, InvalidStringError>)
        ensures
            r matches Ok(sc) ==> string_constant_ok(string@) && sc@ == string@,
            r matches Err(e) ==> !string_constant_ok(string@) && e@ == string@,
    {
        Self::new(string.to_owned())
    }

    /// As `new`, for text known to be valid.
    pub fn new_expect(string: String, expect_msg: &str) -> (r: Self)
        requires
            string_constant_ok(string@),
        ensures
            r@ == string@,
    {
        match Self::new(string) {
            Ok(sc) => sc,
            Err(_) => unreached(),
        }
    }

    /// As `new_str`, for text known to be valid.
    pub fn new_str_expect(string: &str, expect_msg: &str) -> (r: Self)
        requires
            string_constant_ok(string@),
        ensures
            r@ == string@,
    {
        Self::new_expect(string.to_owned(), expect_msg)
    }

    /// The constant's text, unquoted and unescaped.
    pub fn string_constant(&self) -> (r: &str)
        ensures
            r@ == self@,
    {
        self.0.as_str()
    }

    /// An owned copy of this constant.
    pub fn duplicate(&self) -> (r: StringConstant)
        ensures
            r == *self,
    {
        StringConstant(self.0.clone())
    }

    /// The constant's whole token: the escaped text in quotes.
    pub fn token(&self) -> (r: String)
        ensures
            r@ == string_const_text(self@),
    {
        let mut out = String::new();
        push_char(&mut out, '"');
        let escaped = escape_string(self.0.as_str());
        out.append(escaped.as_str());
        push_char(&mut out, '"');
        proof {
            assert(out@ =~= string_const_text(self@));
        }
        out
    }
}

// ------------------------------------------------------------------
// Symbols
// ------------------------------------------------------------------

/// The mathematical content of a symbol: its text and whether it must be
/// quoted when emitted.
pub struct SymbolView {
    pub text: Seq<char>,
    pub quoted: bool,
}

/// The token text of a symbol: bare, or between pipes when quoted.
pub open spec fn symbol_text(v: SymbolView) -> Seq<char> {
    if v.quoted {
        seq!['|'] + v.text + seq!['|']
    } else {
        v.text
    }
}

/// What symbol construction yields: rejection when the text holds a pipe
/// or a backslash, else the text with the quoted flag derived from the
/// simple-symbol grammar.
pub open spec fn symbol_new_spec(s: Seq<char>) -> Option<SymbolView> {
    if seq_contains_char(s, '|') || seq_contains_char(s, '\\') {
        None
    } else {
        Some(SymbolView { text: s, quoted: !is_simple_symbol_seq(s) })
    }
}

/// A symbol whose text held a pipe or a backslash, which no symbol may.
#[derive(Clone, Debug, PartialEq, Eq)]
pub struct InvalidSymbolError(String);

impl View for InvalidSymbolError {
    type V = Seq<char>;

    closed spec fn view(&self) -> Seq<char> {
        self.0@
    }
}

impl InvalidSymbolError {
    /// The rejected text.
    pub fn text(&self) -> (r: &str)
        ensures
            r@ == self@,
    {
        self.0.as_str()
    }
}

/// A symbol: an identifier-like atom.  The quoted flag is derived at
/// construction and never set independently.
#[derive(Clone, Debug, PartialEq, Eq)]
pub struct Symbol {
    symbol: String,
    is_quoted: bool,
}

impl View for Symbol {
    type V = SymbolView;

    closed spec fn view(&self) -> SymbolView {
        SymbolView { text: self.symbol@, quoted: self.is_quoted }
    }
}

impl Symbol {
    /// Validates the text and derives the quoted flag: construction fails
    /// exactly when the text holds `|` or a backslash.
    pub fn new(symbol: String) -> (r: Result<Symbol, InvalidSymbolError>)
        ensures
            r matches Ok(sym) ==> symbol_new_spec(symbol@) == Some(sym@),
            r matches Err(e) ==> symbol_new_spec(symbol@) is None && e@ == symbol@,
            r is Ok <==> symbol_new_spec(symbol@) is Some,
    {
        if contains_char(symbol.as_str(), '|') || contains_char(symbol.as_str(), '\\') {
            Err(InvalidSymbolError(symbol))
        } else {
            let quoted = !is_simple_symbol(symbol.as_str());
            Ok(Symbol { symbol, is_quoted: quoted })
        }
    }

    /// The symbol's text, without quoting pipes.
    pub fn symbol(&self) -> (r: &str)
        ensures
            r@ == self@.text,
    {
        self.symbol.as_str()
    }

    /// Whether the symbol is emitted between pipes.
    pub fn is_quoted(&self) -> (r: bool)
        ensures
            r == self@.quoted,
    {
        self.is_quoted
    }

    /// An owned copy of this symbol.
    pub fn duplicate(&self) -> (r: Symbol)
        ensures
            r == *self,
    {
        Symbol { symbol: self.symbol.clone(), is_quoted: self.is_quoted }
    }

    /// The symbol's whole token: its text, between pipes when quoted.
    pub fn token(&self) -> (r: String)
        ensures
            r@ == symbol_text(self@),
    {
        if self.is_quoted {
            let mut out = String::new();
            push_char(&mut out, '|');
            out.append(self.symbol.as_str());
            push_char(&mut out, '|');
            proof {
                assert(out@ =~= symbol_text(self@));
            }
            out
        } else {
            self.symbol.clone()
        }
    }
}

/// For every string matching the simple-symbol grammar, the symbol built
/// from it is unquoted and its token renders as the string itself.
pub proof fn lemma_simple_symbol_round_trip(s: Seq<char>)
    requires
        is_simple_symbol_seq(s),
    ensures
        symbol_new_spec(s) matches Some(v) && !v.quoted && symbol_text(v) == s,
{
    if seq_contains_char(s, '|') {
        let i = choose|i: int| 0 <= i < s.len() && s[i] == '|';
        assert(char_is_symbol_char(s[i]));
        assert(false);
    }
    if seq_contains_char(s, '\\') {
        let i = choose|i: int| 0 <= i < s.len() && s[i] == '\\';
        assert(char_is_symbol_char(s[i]));
        assert(false);
    }
}

/// For every non-empty string outside the simple-symbol grammar that holds
/// neither `|` nor a backslash, the symbol built from it is quoted and its
/// token renders as the string between pipes.
pub proof fn lemma_quoted_symbol_round_trip(s: Seq<char>)
    requires
        s.len() > 0,
        !is_simple_symbol_seq(s),
        !seq_contains_char(s, '|'),
        !seq_contains_char(s, '\\'),
    ensures
        symbol_new_spec(s) matches Some(v) && v.quoted && symbol_text(v) == seq!['|'] + s
            + seq!['|'],
{
}

/// A string holding `|` or a backslash is rejected by symbol construction.
pub proof fn lemma_bad_symbol_rejected(s: Seq<char>)
    requires
        seq_contains_char(s, '|') || seq_contains_char(s, '\\'),
    ensures
        symbol_new_spec(s) is None,
{
}

// ------------------------------------------------------------------
// Keywords
// ------------------------------------------------------------------

/// The token text of a keyword: its text after a colon.
pub open spec fn keyword_text(k: Seq<char>) -> Seq<char> {
    seq![':'] + k
}

/// A keyword atom, emitted as `:text`.
#[derive(Clone, Debug)]
pub struct Keyword(String);

impl View for Keyword {
    type V = Seq<char>;

    closed spec fn view(&self) -> Seq<char> {
        self.0@
    }
}

impl Keyword {
    /// A keyword with the given text.
    pub fn new(keyword: String) -> (r: Keyword)
        ensures
            r@ == keyword@,
    {
        Keyword(keyword)
    }

    /// The keyword's text, without the leading colon.
    pub fn keyword(&self) -> (r: &str)
        ensures
            r@ == self@,
    {
        self.0.as_str()
    }

    /// An owned copy of this keyword.
    pub fn duplicate(&self) -> (r: Keyword)
        ensures
            r == *self,
    {
        Keyword(self.0.clone())
    }

    /// The keyword's whole token: a colon then its text.
    pub fn token(&self) -> (r: String)
        ensures
            r@ == keyword_text(self@),
    {
        let mut out = String::new();
        push_char(&mut out, ':');
        out.append(self.0.as_str());
        proof {
            assert(out@ =~= keyword_text(self@));
        }
        out
    }
}

// ------------------------------------------------------------------
// Reserved words
// ------------------------------------------------------------------

/// A reserved word of the scripting grammar, rendered as its fixed
/// spelling.
#[derive(Debug, Clone, Copy)]
pub enum Reserved {
    Binary,
    Decimal,
    Hexadecimal,
    Numeral,
    String,
    Underscore,
    Bang,
    As,
    Let,
    Exists,
    Forall,
    Match,
    Par,
    Command(CommandType),
}

/// The fixed spelling of a reserved word.
pub open spec fn reserved_text(r: Reserved) -> Seq<char> {
    match r {
        Reserved::Binary => "BINARY"@,
        Reserved::Decimal => "DECIMAL"@,
        Reserved::Hexadecimal => "HEXADECIMAL"@,
        Reserved::Numeral => "NUMERAL"@,
        Reserved::String => "STRING"@,
        Reserved::Underscore => "_"@,
        Reserved::Bang => "!"@,
        Reserved::As => "as"@,
        Reserved::Let => "let"@,
        Reserved::Exists => "exists"@,
        Reserved::Forall => "forall"@,
        Reserved::Match => "match"@,
        Reserved::Par => "par"@,
        Reserved::Command(c) => command_text(c),
    }
}

impl Reserved {
    /// The spelling of this reserved word as a token.
    pub fn spelling(&self) -> (r: &'static str)
        ensures
            r@ == reserved_text(*self),
    {
        match self {
            Reserved::Binary => "BINARY",
            Reserved::Decimal => "DECIMAL",
            Reserved::Hexadecimal => "HEXADECIMAL",
            Reserved::Numeral => "NUMERAL",
            Reserved::String => "STRING",
            Reserved::Underscore => "_",
            Reserved::Bang => "!",
            Reserved::As => "as",
            Reserved::Let => "let",
            Reserved::Exists => "exists",
            Reserved::Forall => "forall",
            Reserved::Match => "match",
            Reserved::Par => "par",
            Reserved::Command(c) => c.spelling(),
        }
    }
}

} // verus!
