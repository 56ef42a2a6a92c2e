//! Script commands: the directives a script is made of, each mapping to a
//! fixed-shape list of the interchange grammar.

use vstd::prelude::*;

use crate::lexicon::{
    is_simple_symbol_seq, reserved_text, seq_contains_char, symbol_new_spec, Keyword, Reserved,
    StringConstant, Symbol, SymbolView,
};
use crate::render::{tree_text, SExprView};
use crate::sexprs::{lemma_trees_of, trees_of, ConstantView, Sexpr, SpecialConstant};
use crate::sorts::{lemma_sort_trees, sort_trees, Sort};
use crate::terms::{lemma_sorted_var_trees, lemma_term_trees, sorted_var_trees, term_trees, SortedVar, Term};

verus! {

/// The directive of a command, used both to tag commands and to spell the
/// reserved word that opens the command's list.
#[derive(Debug, Clone, Copy)]
pub enum CommandType {
    Assert,
    CheckSat,
    CheckSatAssuming,
    DeclareConst,
    DeclareDatatype,
    DeclareDatatypes,
    DeclareFun,
    DeclareSort,
    DefineFun,
    DefineFunRec,
    DefineFunsRec,
    DefineSort,
    Echo,
    Exit,
    GetAssertions,
    GetAssignment,
    GetModel,
    GetOption,
    GetProof,
    GetUnsatAssumptions,
    GetUnsatCore,
    GetValue,
    Pop,
    Push,
    Reset,
    ResetAssertions,
    SetLogic,
}

/// The fixed spelling of a directive.
pub open spec fn command_text(c: CommandType) -> Seq<char> {
    match c {
        CommandType::Assert => "assert"@,
        CommandType::CheckSat => "check-sat"@,
        CommandType::CheckSatAssuming => "check-sat-assuming"@,
        CommandType::DeclareConst => "declare-const"@,
        CommandType::DeclareDatatype => "declare-datatype"@,
        CommandType::DeclareDatatypes => "declare-datatypes"@,
        CommandType::DeclareFun => "declare-fun"@,
        CommandType::DeclareSort => "declare-sort"@,
        CommandType::DefineFun => "define-fun"@,
        CommandType::DefineFunRec => "define-fun-rec"@,
        CommandType::DefineFunsRec => "define-funs-rec"@,
        CommandType::DefineSort => "define-sort"@,
        CommandType::Echo => "echo"@,
        CommandType::Exit => "exit"@,
        CommandType::GetAssertions => "get-assertions"@,
        CommandType::GetAssignment => "get-assignment"@,
        CommandType::GetModel => "get-model"@,
        CommandType::GetOption => "get-option"@,
        CommandType::GetProof => "get-proof"@,
        CommandType::GetUnsatAssumptions => "get-unsat-assumptions"@,
        CommandType::GetUnsatCore => "get-unsat-core"@,
        CommandType::GetValue => "get-value"@,
        CommandType::Pop => "pop"@,
        CommandType::Push => "push"@,
        CommandType::Reset => "reset"@,
        CommandType::ResetAssertions => "reset-assertions"@,
        CommandType::SetLogic => "set-logic"@,
    }
}

impl CommandType {
    /// The spelling of this directive as a word.
    pub fn spelling(&self) -> (r: &'static str)
        ensures
            r@ == command_text(*self),
    {
        match self {
            CommandType::Assert => "assert",
            CommandType::CheckSat => "check-sat",
            CommandType::CheckSatAssuming => "check-sat-assuming",
            CommandType::DeclareConst => "declare-const",
            CommandType::DeclareDatatype => "declare-datatype",
            CommandType::DeclareDatatypes => "declare-datatypes",
            CommandType::DeclareFun => "declare-fun",
            CommandType::DeclareSort => "declare-sort",
            CommandType::DefineFun => "define-fun",
            CommandType::DefineFunRec => "define-fun-rec",
            CommandType::DefineFunsRec => "define-funs-rec",
            CommandType::DefineSort => "define-sort",
            CommandType::Echo => "echo",
            CommandType::Exit => "exit",
            CommandType::GetAssertions => "get-assertions",
            CommandType::GetAssignment => "get-assignment",
            CommandType::GetModel => "get-model",
            CommandType::GetOption => "get-option",
            CommandType::GetProof => "get-proof",
            CommandType::GetUnsatAssumptions => "get-unsat-assumptions",
            CommandType::GetUnsatCore => "get-unsat-core",
            CommandType::GetValue => "get-value",
            CommandType::Pop => "pop",
            CommandType::Push => "push",
            CommandType::Reset => "reset",
            CommandType::ResetAssertions => "reset-assertions",
            CommandType::SetLogic => "set-logic",
        }
    }
}

/// A sort declaration: a name and its arity.
#[derive(Debug)]
pub struct SortDec(pub Symbol, pub i64);

impl SortDec {
    /// The render tree: the two-element list of name and arity.
    pub open spec fn tree(&self) -> SExprView {
        SExprView::List(
            seq![SExprView::Symbol(self.0@), SExprView::Constant(ConstantView::Numeral(self.1))],
        )
    }

    /// The grammar expression this declaration denotes.
    pub fn to_sexpr(&self) -> (r: Sexpr)
        ensures
            r.tree() == self.tree(),
    {
        let mut elems: Vec<Sexpr> = Vec::new();
        elems.push(Sexpr::Symbol(self.0.duplicate()));
        elems.push(Sexpr::SpecialConstant(SpecialConstant::Numeral(self.1)));
        let ghost es = elems@;
        let r = Sexpr::Sequence(elems);
        proof {
            lemma_trees_of(es);
            assert(trees_of(es)[0] == es[0].tree());
            assert(trees_of(es)[1] == es[1].tree());
            assert(trees_of(es) =~= seq![
                SExprView::Symbol(self.0@),
                SExprView::Constant(ConstantView::Numeral(self.1)),
            ]);
        }
        r
    }
}

/// A selector declaration: a name and the selected field's sort.
#[derive(Debug)]
pub struct SelectorDec {
    pub name: Symbol,
    pub sort: Sort,
}

impl SelectorDec {
    /// The render tree: the two-element list of name and sort.
    pub open spec fn tree(&self) -> SExprView {
        SExprView::List(seq![SExprView::Symbol(self.name@), self.sort.tree()])
    }

    /// The grammar expression this declaration denotes.
    pub fn to_sexpr(&self) -> (r: Sexpr)
        ensures
            r.tree() == self.tree(),
    {
        let mut elems: Vec<Sexpr> = Vec::new();
        elems.push(Sexpr::Symbol(self.name.duplicate()));
        elems.push(self.sort.to_sexpr());
        let ghost es = elems@;
        let r = Sexpr::Sequence(elems);
        proof {
            lemma_trees_of(es);
            assert(trees_of(es)[0] == es[0].tree());
            assert(trees_of(es)[1] == es[1].tree());
            assert(trees_of(es) =~= seq![SExprView::Symbol(self.name@), self.sort.tree()]);
        }
        r
    }
}

/// The render trees of a run of selector declarations, in order.
pub open spec fn selector_dec_trees(s: Seq<SelectorDec>) -> Seq<SExprView>
    decreases s,
{
    if s.len() == 0 {
        Seq::empty()
    } else {
        seq![s[0].tree()] + selector_dec_trees(s.drop_first())
    }
}

pub proof fn lemma_selector_dec_trees(s: Seq<SelectorDec>)
    ensures
        selector_dec_trees(s).len() == s.len(),
        forall|i: int| 0 <= i < s.len() ==> selector_dec_trees(s)[i] == #[trigger] s[i].tree(),
    decreases s,
{
    if s.len() > 0 {
        lemma_selector_dec_trees(s.drop_first());
        assert forall|i: int|
            0 <= i < s.len() implies selector_dec_trees(s)[i] == #[trigger] s[i].tree() by {
            if i > 0 {
                assert(s.drop_first()[i - 1] == s[i]);
                assert(selector_dec_trees(s)[i] == selector_dec_trees(s.drop_first())[i - 1]);
            } else {
                assert(selector_dec_trees(s)[0] == s[0].tree());
            }
        }
    }
}

/// A constructor declaration: a name and its selector declarations.
#[derive(Debug)]
pub struct ConstructorDec {
    pub name: Symbol,
    pub selectors: Vec<SelectorDec>,
}

impl ConstructorDec {
    /// The render tree: the list of the name followed by the selectors.
    pub open spec fn tree(&self) -> SExprView {
        SExprView::List(seq![SExprView::Symbol(self.name@)] + selector_dec_trees(self.selectors@))
    }

    /// The grammar expression this declaration denotes.
    #[verifier::loop_isolation(false)]
    pub fn to_sexpr(&self) -> (r: Sexpr)
        ensures
            r.tree() == self.tree(),
    {
        let mut elems: Vec<Sexpr> = Vec::new();
        elems.push(Sexpr::Symbol(self.name.duplicate()));
        let n = self.selectors.len();
        let mut i: usize = 0;
        while i < n
            invariant
                i <= n,
                elems@.len() == 1 + i,
                elems@[0].tree() == SExprView::Symbol(self.name@),
                forall|j: int|
                    0 <= j < i ==> #[trigger] elems@[1 + j].tree() == self.selectors@[j].tree(),
            decreases n - i,
        {
            elems.push(self.selectors[i].to_sexpr());
            i += 1;
        }
        let ghost es = elems@;
        let r = Sexpr::Sequence(elems);
        proof {
            lemma_trees_of(es);
            lemma_selector_dec_trees(self.selectors@);
            let target = seq![SExprView::Symbol(self.name@)] + selector_dec_trees(
                self.selectors@,
            );
            assert forall|k: int| 0 <= k < es.len() implies trees_of(es)[k] == target[k] by {
                if k >= 1 {
                    let j = k - 1;
                    assert(es[1 + j].tree() == self.selectors@[j].tree());
                }
            }
            assert(trees_of(es) =~= target);
        }
        r
    }
}

/// The render trees of a run of constructor declarations, in order.
pub open spec fn constructor_dec_trees(s: Seq<ConstructorDec>) -> Seq<SExprView>
    decreases s,
{
    if s.len() == 0 {
        Seq::empty()
    } else {
        seq![s[0].tree()] + constructor_dec_trees(s.drop_first())
    }
}

pub proof fn lemma_constructor_dec_trees(s: Seq<ConstructorDec>)
    ensures
        constructor_dec_trees(s).len() == s.len(),
        forall|i: int| 0 <= i < s.len() ==> constructor_dec_trees(s)[i] == #[trigger] s[i].tree(),
    decreases s,
{
    if s.len() > 0 {
        lemma_constructor_dec_trees(s.drop_first());
        assert forall|i: int|
            0 <= i < s.len() implies constructor_dec_trees(s)[i] == #[trigger] s[i].tree() by {
            if i > 0 {
                assert(s.drop_first()[i - 1] == s[i]);
                assert(constructor_dec_trees(s)[i] == constructor_dec_trees(s.drop_first())[i
                    - 1]);
            } else {
                assert(constructor_dec_trees(s)[0] == s[0].tree());
            }
        }
    }
}

/// A datatype declaration body: the constructor declarations.  Sort
/// parameters are not supported; a declaration always renders as the
/// plain list of its constructors.
#[derive(Debug)]
pub struct DatatypeDec {
    par: Vec<Symbol>,
    constructors: Vec<ConstructorDec>,
}

impl DatatypeDec {
    /// The declaration's sort parameters; always empty.
    pub closed spec fn spec_par(&self) -> Seq<Symbol> {
        self.par@
    }

    /// The declaration's constructors, in order.
    pub closed spec fn ctors(&self) -> Seq<ConstructorDec> {
        self.constructors@
    }

    /// The render tree: the list of the constructor declarations.
    pub open spec fn tree(&self) -> SExprView {
        SExprView::List(constructor_dec_trees(self.ctors()))
    }

    /// A datatype declaration body from its constructors.
    pub fn new(constructors: Vec<ConstructorDec>) -> (r: DatatypeDec)
        ensures
            r.ctors() == constructors@,
            r.spec_par().len() == 0,
    {
        DatatypeDec { par: Vec::new(), constructors }
    }

    /// The grammar expression this declaration denotes.
    #[verifier::loop_isolation(false)]
    pub fn to_sexpr(&self) -> (r: Sexpr)
        ensures
            r.tree() == self.tree(),
    {
        let mut elems: Vec<Sexpr> = Vec::new();
        let n = self.constructors.len();
        let mut i: usize = 0;
        while i < n
            invariant
                i <= n,
                elems@.len() == i,
                forall|j: int|
                    0 <= j < i ==> #[trigger] elems@[j].tree() == self.ctors()[j].tree(),
            decreases n - i,
        {
            elems.push(self.constructors[i].to_sexpr());
            i += 1;
        }
        let ghost es = elems@;
        let r = Sexpr::Sequence(elems);
        proof {
            lemma_trees_of(es);
            lemma_constructor_dec_trees(self.ctors());
            assert forall|k: int|
                0 <= k < es.len() implies trees_of(es)[k] == constructor_dec_trees(
                self.ctors(),
            )[k] by {
                assert(trees_of(es)[k] == es[k].tree());
            }
            assert(trees_of(es) =~= constructor_dec_trees(self.ctors()));
        }
        r
    }
}

/// A function declaration header: name, sorted arguments, result sort.
#[derive(Debug)]
pub struct FunctionDec {
    name: Symbol,
    args: Vec<SortedVar>,
    sort: Sort,
}

impl FunctionDec {
    /// The declaration's name.
    pub closed spec fn fname(&self) -> SymbolView {
        self.name@
    }

    /// The declaration's arguments, in order.
    pub closed spec fn fargs(&self) -> Seq<SortedVar> {
        self.args@
    }

    /// The declaration's result sort.
    pub closed spec fn fsort(&self) -> Sort {
        self.sort
    }

    /// The render tree: the three-element list of name, argument list and
    /// result sort.
    pub open spec fn tree(&self) -> SExprView {
        SExprView::List(
            seq![
                SExprView::Symbol(self.fname()),
                SExprView::List(sorted_var_trees(self.fargs())),
                self.fsort().tree(),
            ],
        )
    }

    /// A function declaration header.
    pub fn new(name: Symbol, args: Vec<SortedVar>, sort: Sort) -> (r: FunctionDec)
        ensures
            r.fname() == name@,
            r.fargs() == args@,
            r.fsort() == sort,
    {
        FunctionDec { name, args, sort }
    }

    /// The grammar expression this declaration denotes.
    #[verifier::loop_isolation(false)]
    pub fn to_sexpr(&self) -> (r: Sexpr)
        ensures
            r.tree() == self.tree(),
    {
        let mut inner: Vec<Sexpr> = Vec::new();
        let n = self.args.len();
        let mut i: usize = 0;
        while i < n
            invariant
                i <= n,
                inner@.len() == i,
                forall|j: int|
                    0 <= j < i ==> #[trigger] inner@[j].tree() == self.fargs()[j].tree(),
            decreases n - i,
        {
            inner.push(self.args[i].to_sexpr());
            i += 1;
        }
        let ghost ins = inner@;
        let mut elems: Vec<Sexpr> = Vec::new();
        elems.push(Sexpr::Symbol(self.name.duplicate()));
        elems.push(Sexpr::Sequence(inner));
        elems.push(self.sort.to_sexpr());
        let ghost es = elems@;
        let r = Sexpr::Sequence(elems);
        proof {
            lemma_trees_of(es);
            lemma_trees_of(ins);
            lemma_sorted_var_trees(self.fargs());
            assert forall|k: int|
                0 <= k < ins.len() implies trees_of(ins)[k] == sorted_var_trees(
                self.fargs(),
            )[k] by {
                assert(trees_of(ins)[k] == ins[k].tree());
                assert(ins[k].tree() == self.fargs()[k].tree());
            }
            assert(trees_of(ins) =~= sorted_var_trees(self.fargs()));
            assert(trees_of(es)[0] == es[0].tree());
            assert(trees_of(es)[1] == es[1].tree());
            assert(trees_of(es)[2] == es[2].tree());
            assert(trees_of(es) =~= seq![
                SExprView::Symbol(self.fname()),
                SExprView::List(sorted_var_trees(self.fargs())),
                self.fsort().tree(),
            ]);
        }
        r
    }
}

/// A function definition: a declaration header together with the body.
#[derive(Debug)]
pub struct FunctionDef {
    name: Symbol,
    args: Vec<SortedVar>,
    sort: Sort,
    body: Term,
}

impl FunctionDef {
    /// The definition's name.
    pub closed spec fn fname(&self) -> SymbolView {
        self.name@
    }

    /// The definition's arguments, in order.
    pub closed spec fn fargs(&self) -> Seq<SortedVar> {
        self.args@
    }

    /// The definition's result sort.
    pub closed spec fn fsort(&self) -> Sort {
        self.sort
    }

    /// The definition's body.
    pub closed spec fn fbody(&self) -> Term {
        self.body
    }

    /// The render trees of the definition's four parts, in order: name,
    /// argument list, result sort, body.
    pub open spec fn trees(&self) -> Seq<SExprView> {
        seq![
            SExprView::Symbol(self.fname()),
            SExprView::List(sorted_var_trees(self.fargs())),
            self.fsort().tree(),
            self.fbody().tree(),
        ]
    }

    /// A function definition.
    pub fn new(name: Symbol, args: Vec<SortedVar>, sort: Sort, body: Term) -> (r: FunctionDef)
        ensures
            r.fname() == name@,
            r.fargs() == args@,
            r.fsort() == sort,
            r.fbody() == body,
    {
        FunctionDef { name, args, sort, body }
    }

    /// The definition's four parts as grammar expressions.
    #[verifier::loop_isolation(false)]
    pub fn to_sexprs(&self) -> (r: Vec<Sexpr>)
        ensures
            trees_of(r@) == self.trees(),
    {
        let mut inner: Vec<Sexpr> = Vec::new();
        let n = self.args.len();
        let mut i: usize = 0;
        while i < n
            invariant
                i <= n,
                inner@.len() == i,
                forall|j: int|
                    0 <= j < i ==> #[trigger] inner@[j].tree() == self.fargs()[j].tree(),
            decreases n - i,
        {
            inner.push(self.args[i].to_sexpr());
            i += 1;
        }
        let ghost ins = inner@;
        let mut elems: Vec<Sexpr> = Vec::new();
        elems.push(Sexpr::Symbol(self.name.duplicate()));
        elems.push(Sexpr::Sequence(inner));
        elems.push(self.sort.to_sexpr());
        elems.push(self.body.to_sexpr());
        proof {
            lemma_trees_of(elems@);
            lemma_trees_of(ins);
            lemma_sorted_var_trees(self.fargs());
            assert forall|k: int|
                0 <= k < ins.len() implies trees_of(ins)[k] == sorted_var_trees(
                self.fargs(),
            )[k] by {
                assert(trees_of(ins)[k] == ins[k].tree());
                assert(ins[k].tree() == self.fargs()[k].tree());
            }
            assert(trees_of(ins) =~= sorted_var_trees(self.fargs()));
            assert(trees_of(elems@)[0] == elems@[0].tree());
            assert(trees_of(elems@)[1] == elems@[1].tree());
            assert(trees_of(elems@)[2] == elems@[2].tree());
            assert(trees_of(elems@)[3] == elems@[3].tree());
            assert(trees_of(elems@) =~= self.trees());
        }
        elems
    }
}

/// A propositional literal for check-sat-assuming: a symbol, possibly
/// negated through a `not` application.
#[derive(Debug)]
pub struct PropLiteral {
    negate: bool,
    symbol: Symbol,
}

/// The `not` symbol is a plain simple symbol.
pub proof fn lemma_not_symbol()
    ensures
        symbol_new_spec("not"@) == Some(SymbolView { text: "not"@, quoted: false }),
{
    reveal_strlit("not");
    reveal_strlit("!");
    reveal_strlit("BINARY");
    reveal_strlit("DECIMAL");
    reveal_strlit("HEXADECIMAL");
    reveal_strlit("NUMERAL");
    reveal_strlit("STRING");
    reveal_strlit("_");
    reveal_strlit("as");
    reveal_strlit("exists");
    reveal_strlit("forall");
    reveal_strlit("let");
    reveal_strlit("match");
    reveal_strlit("par");
    let s = "not"@;
    assert(s.len() == 3);
    assert(!seq_contains_char(s, '|')) by {
        assert forall|i: int| 0 <= i < s.len() implies s[i] != '|' by {}
    }
    assert(!seq_contains_char(s, '\\')) by {
        assert forall|i: int| 0 <= i < s.len() implies s[i] != '\\' by {}
    }
    assert(is_simple_symbol_seq(s)) by {
        assert forall|i: int|
            0 <= i < s.len() implies crate::lexicon::char_is_symbol_char(#[trigger] s[i]) by {}
        assert(s[0] == 'n');
        assert("let"@[0] == 'l');
        assert("par"@[0] == 'p');
        assert(s != "let"@);
        assert(s != "par"@);
        assert(!crate::lexicon::is_reserved_seq(s));
    }
}

impl PropLiteral {
    /// Whether the literal is negated.
    pub closed spec fn neg(&self) -> bool {
        self.negate
    }

    /// The literal's symbol.
    pub closed spec fn sym(&self) -> SymbolView {
        self.symbol@
    }

    /// The render tree: the bare symbol, or `(not symbol)`.
    pub open spec fn tree(&self) -> SExprView {
        if self.neg() {
            SExprView::List(
                seq![
                    SExprView::Symbol(SymbolView { text: "not"@, quoted: false }),
                    SExprView::Symbol(self.sym()),
                ],
            )
        } else {
            SExprView::Symbol(self.sym())
        }
    }

    /// A propositional literal.
    pub fn new(negate: bool, symbol: Symbol) -> (r: PropLiteral)
        ensures
            r.neg() == negate,
            r.sym() == symbol@,
    {
        PropLiteral { negate, symbol }
    }

    /// The grammar expression this literal denotes.
    pub fn to_sexpr(&self) -> (r: Sexpr)
        ensures
            r.tree() == self.tree(),
    {
        if self.negate {
            proof {
                lemma_not_symbol();
            }
            let not_sym = match Symbol::new(String::from_str("not")) {
                Ok(sym) => sym,
                Err(_) => unreached(),
            };
            let mut elems: Vec<Sexpr> = Vec::new();
            elems.push(Sexpr::Symbol(not_sym));
            elems.push(Sexpr::Symbol(self.symbol.duplicate()));
            let ghost es = elems@;
            let r = Sexpr::Sequence(elems);
            proof {
                lemma_trees_of(es);
                assert(trees_of(es)[0] == es[0].tree());
                assert(trees_of(es)[1] == es[1].tree());
                assert(trees_of(es) =~= seq![
                    SExprView::Symbol(SymbolView { text: "not"@, quoted: false }),
                    SExprView::Symbol(self.sym()),
                ]);
            }
            r
        } else {
            Sexpr::Symbol(self.symbol.duplicate())
        }
    }
}

/// The render trees of a run of propositional literals, in order.
pub open spec fn prop_literal_trees(s: Seq<PropLiteral>) -> Seq<SExprView>
    decreases s,
{
    if s.len() == 0 {
        Seq::empty()
    } else {
        seq![s[0].tree()] + prop_literal_trees(s.drop_first())
    }
}

pub proof fn lemma_prop_literal_trees(s: Seq<PropLiteral>)
    ensures
        prop_literal_trees(s).len() == s.len(),
        forall|i: int| 0 <= i < s.len() ==> prop_literal_trees(s)[i] == #[trigger] s[i].tree(),
    decreases s,
{
    if s.len() > 0 {
        lemma_prop_literal_trees(s.drop_first());
        assert forall|i: int|
            0 <= i < s.len() implies prop_literal_trees(s)[i] == #[trigger] s[i].tree() by {
            if i > 0 {
                assert(s.drop_first()[i - 1] == s[i]);
                assert(prop_literal_trees(s)[i] == prop_literal_trees(s.drop_first())[i - 1]);
            } else {
                assert(prop_literal_trees(s)[0] == s[0].tree());
            }
        }
    }
}

/// The render trees of a run of symbols, in order.
pub open spec fn symbol_trees(s: Seq<Symbol>) -> Seq<SExprView>
    decreases s,
{
    if s.len() == 0 {
        Seq::empty()
    } else {
        seq![SExprView::Symbol(s[0]@)] + symbol_trees(s.drop_first())
    }
}

pub proof fn lemma_symbol_trees(s: Seq<Symbol>)
    ensures
        symbol_trees(s).len() == s.len(),
        forall|i: int|
            0 <= i < s.len() ==> symbol_trees(s)[i] == SExprView::Symbol(#[trigger] s[i]@),
    decreases s,
{
    if s.len() > 0 {
        lemma_symbol_trees(s.drop_first());
        assert forall|i: int|
            0 <= i < s.len() implies symbol_trees(s)[i] == SExprView::Symbol(
            #[trigger] s[i]@,
        ) by {
            if i > 0 {
                assert(s.drop_first()[i - 1] == s[i]);
                assert(symbol_trees(s)[i] == symbol_trees(s.drop_first())[i - 1]);
            } else {
                assert(symbol_trees(s)[0] == SExprView::Symbol(s[0]@));
            }
        }
    }
}

/// The render trees of the sort-declaration halves of paired datatype
/// declarations, in order.
pub open spec fn pair_sort_dec_trees(s: Seq<(SortDec, DatatypeDec)>) -> Seq<SExprView>
    decreases s,
{
    if s.len() == 0 {
        Seq::empty()
    } else {
        seq![s[0].0.tree()] + pair_sort_dec_trees(s.drop_first())
    }
}

/// The render trees of the datatype-declaration halves, in order.
pub open spec fn pair_datatype_dec_trees(s: Seq<(SortDec, DatatypeDec)>) -> Seq<SExprView>
    decreases s,
{
    if s.len() == 0 {
        Seq::empty()
    } else {
        seq![s[0].1.tree()] + pair_datatype_dec_trees(s.drop_first())
    }
}

pub proof fn lemma_pair_datatype_trees(s: Seq<(SortDec, DatatypeDec)>)
    ensures
        pair_sort_dec_trees(s).len() == s.len(),
        pair_datatype_dec_trees(s).len() == s.len(),
        forall|i: int| 0 <= i < s.len() ==> pair_sort_dec_trees(s)[i] == (#[trigger] s[i]).0.tree(),
        forall|i: int|
            0 <= i < s.len() ==> pair_datatype_dec_trees(s)[i] == (#[trigger] s[i]).1.tree(),
    decreases s,
{
    if s.len() > 0 {
        lemma_pair_datatype_trees(s.drop_first());
        assert forall|i: int|
            0 <= i < s.len() implies pair_sort_dec_trees(s)[i] == (#[trigger] s[i]).0.tree()
            && pair_datatype_dec_trees(s)[i] == s[i].1.tree() by {
            if i > 0 {
                assert(s.drop_first()[i - 1] == s[i]);
                assert(pair_sort_dec_trees(s)[i] == pair_sort_dec_trees(s.drop_first())[i - 1]);
                assert(pair_datatype_dec_trees(s)[i] == pair_datatype_dec_trees(s.drop_first())[i
                    - 1]);
            } else {
                assert(pair_sort_dec_trees(s)[0] == s[0].0.tree());
                assert(pair_datatype_dec_trees(s)[0] == s[0].1.tree());
            }
        }
    }
}

/// The render trees of the declaration halves of paired recursive
/// function definitions, in order.
pub open spec fn pair_fun_dec_trees(s: Seq<(FunctionDec, Term)>) -> Seq<SExprView>
    decreases s,
{
    if s.len() == 0 {
        Seq::empty()
    } else {
        seq![s[0].0.tree()] + pair_fun_dec_trees(s.drop_first())
    }
}

/// The render trees of the body halves, in order.
pub open spec fn pair_body_trees(s: Seq<(FunctionDec, Term)>) -> Seq<SExprView>
    decreases s,
{
    if s.len() == 0 {
        Seq::empty()
    } else {
        seq![s[0].1.tree()] + pair_body_trees(s.drop_first())
    }
}

pub proof fn lemma_pair_fun_trees(s: Seq<(FunctionDec, Term)>)
    ensures
        pair_fun_dec_trees(s).len() == s.len(),
        pair_body_trees(s).len() == s.len(),
        forall|i: int| 0 <= i < s.len() ==> pair_fun_dec_trees(s)[i] == (#[trigger] s[i]).0.tree(),
        forall|i: int| 0 <= i < s.len() ==> pair_body_trees(s)[i] == (#[trigger] s[i]).1.tree(),
    decreases s,
{
    if s.len() > 0 {
        lemma_pair_fun_trees(s.drop_first());
        assert forall|i: int|
            0 <= i < s.len() implies pair_fun_dec_trees(s)[i] == (#[trigger] s[i]).0.tree()
            && pair_body_trees(s)[i] == s[i].1.tree() by {
            if i > 0 {
                assert(s.drop_first()[i - 1] == s[i]);
                assert(pair_fun_dec_trees(s)[i] == pair_fun_dec_trees(s.drop_first())[i - 1]);
                assert(pair_body_trees(s)[i] == pair_body_trees(s.drop_first())[i - 1]);
            } else {
                assert(pair_fun_dec_trees(s)[0] == s[0].0.tree());
                assert(pair_body_trees(s)[0] == s[0].1.tree());
            }
        }
    }
}

/// The head word of a command's list.
pub open spec fn head_tree(c: CommandType) -> SExprView {
    SExprView::Word(command_text(c))
}

/// A script command: one directive with its payload.
#[derive(Debug)]
pub enum Command {
    Assert(Term),
    CheckSat,
    CheckSatAssuming(Vec<PropLiteral>),
    DeclareConst(Symbol, Sort),
    DeclareDatatype(Symbol, DatatypeDec),
    DeclareDatatypes(Vec<(SortDec, DatatypeDec)>),
    DeclareFun(Symbol, Vec<Sort>, Sort),
    DeclareSort(Symbol, i64),
    DefineFun(FunctionDef),
    DefineFunRec(FunctionDef),
    DefineFunsRec(Vec<(FunctionDec, Term)>),
    DefineSort(Symbol, Vec<Symbol>, Sort),
    Echo(StringConstant),
    Exit,
    GetAssertions,
    GetAssignment,
    GetModel,
    GetOption(Keyword),
    GetProof,
    GetUnsatAssumptions,
    GetUnsatCore,
    GetValue(Vec<Term>),
    Pop(i64),
    Push(i64),
    Reset,
    ResetAssertions,
    SetLogic(Symbol),
}

impl Command {
    /// The directive this command carries.
    pub open spec fn ctype(&self) -> CommandType {
        match self {
            Command::Assert(_) => CommandType::Assert,
            Command::CheckSat => CommandType::CheckSat,
            Command::CheckSatAssuming(_) => CommandType::CheckSatAssuming,
            Command::DeclareConst(_, _) => CommandType::DeclareConst,
            Command::DeclareDatatype(_, _) => CommandType::DeclareDatatype,
            Command::DeclareDatatypes(_) => CommandType::DeclareDatatypes,
            Command::DeclareFun(_, _, _) => CommandType::DeclareFun,
            Command::DeclareSort(_, _) => CommandType::DeclareSort,
            Command::DefineFun(_) => CommandType::DefineFun,
            Command::DefineFunRec(_) => CommandType::DefineFunRec,
            Command::DefineFunsRec(_) => CommandType::DefineFunsRec,
            Command::DefineSort(_, _, _) => CommandType::DefineSort,
            Command::Echo(_) => CommandType::Echo,
            Command::Exit => CommandType::Exit,
            Command::GetAssertions => CommandType::GetAssertions,
            Command::GetAssignment => CommandType::GetAssignment,
            Command::GetModel => CommandType::GetModel,
            Command::GetOption(_) => CommandType::GetOption,
            Command::GetProof => CommandType::GetProof,
            Command::GetUnsatAssumptions => CommandType::GetUnsatAssumptions,
            Command::GetUnsatCore => CommandType::GetUnsatCore,
            Command::GetValue(_) => CommandType::GetValue,
            Command::Pop(_) => CommandType::Pop,
            Command::Push(_) => CommandType::Push,
            Command::Reset => CommandType::Reset,
            Command::ResetAssertions => CommandType::ResetAssertions,
            Command::SetLogic(_) => CommandType::SetLogic,
        }
    }

    /// The directive this command carries.
    pub fn command_type(&self) -> (r: CommandType)
        ensures
            r == self.ctype(),
    {
        match self {
            Command::Assert(_) => CommandType::Assert,
            Command::CheckSat => CommandType::CheckSat,
            Command::CheckSatAssuming(_) => CommandType::CheckSatAssuming,
            Command::DeclareConst(_, _) => CommandType::DeclareConst,
            Command::DeclareDatatype(_, _) => CommandType::DeclareDatatype,
            Command::DeclareDatatypes(_) => CommandType::DeclareDatatypes,
            Command::DeclareFun(_, _, _) => CommandType::DeclareFun,
            Command::DeclareSort(_, _) => CommandType::DeclareSort,
            Command::DefineFun(_) => CommandType::DefineFun,
            Command::DefineFunRec(_) => CommandType::DefineFunRec,
            Command::DefineFunsRec(_) => CommandType::DefineFunsRec,
            Command::DefineSort(_, _, _) => CommandType::DefineSort,
            Command::Echo(_) => CommandType::Echo,
            Command::Exit => CommandType::Exit,
            Command::GetAssertions => CommandType::GetAssertions,
            Command::GetAssignment => CommandType::GetAssignment,
            Command::GetModel => CommandType::GetModel,
            Command::GetOption(_) => CommandType::GetOption,
            Command::GetProof => CommandType::GetProof,
            Command::GetUnsatAssumptions => CommandType::GetUnsatAssumptions,
            Command::GetUnsatCore => CommandType::GetUnsatCore,
            Command::GetValue(_) => CommandType::GetValue,
            Command::Pop(_) => CommandType::Pop,
            Command::Push(_) => CommandType::Push,
            Command::Reset => CommandType::Reset,
            Command::ResetAssertions => CommandType::ResetAssertions,
            Command::SetLogic(_) => CommandType::SetLogic,
        }
    }

    /// The render tree of this command: the directive's word followed by
    /// the payload in its fixed order.
    pub open spec fn tree(&self) -> SExprView {
        let head = head_tree(self.ctype());
        match self {
            Command::Assert(t) => SExprView::List(seq![head, t.tree()]),
            Command::CheckSatAssuming(props) => SExprView::List(
                seq![head, SExprView::List(prop_literal_trees(props@))],
            ),
            Command::DeclareConst(name, sort) => SExprView::List(
                seq![head, SExprView::Symbol(name@), sort.tree()],
            ),
            Command::DeclareDatatype(name, dd) => SExprView::List(
                seq![head, SExprView::Symbol(name@), dd.tree()],
            ),
            Command::DeclareDatatypes(entries) => SExprView::List(
                seq![
                    head,
                    SExprView::List(pair_sort_dec_trees(entries@)),
                    SExprView::List(pair_datatype_dec_trees(entries@)),
                ],
            ),
            Command::DeclareFun(name, arg_sorts, ret) => SExprView::List(
                seq![
                    head,
                    SExprView::Symbol(name@),
                    SExprView::List(sort_trees(arg_sorts@)),
                    ret.tree(),
                ],
            ),
            Command::DeclareSort(name, num) => SExprView::List(
                seq![
                    head,
                    SExprView::Symbol(name@),
                    SExprView::Constant(ConstantView::Numeral(*num)),
                ],
            ),
            Command::DefineFun(fd) => SExprView::List(seq![head] + fd.trees()),
            Command::DefineFunRec(fd) => SExprView::List(seq![head] + fd.trees()),
            Command::DefineFunsRec(entries) => SExprView::List(
                seq![
                    head,
                    SExprView::List(pair_fun_dec_trees(entries@)),
                    SExprView::List(pair_body_trees(entries@)),
                ],
            ),
            Command::DefineSort(name, syms, sort) => SExprView::List(
                seq![
                    head,
                    SExprView::Symbol(name@),
                    SExprView::List(symbol_trees(syms@)),
                    sort.tree(),
                ],
            ),
            Command::Echo(sc) => SExprView::List(
                seq![head, SExprView::Constant(ConstantView::Str(sc@))],
            ),
            Command::GetOption(kw) => SExprView::List(seq![head, SExprView::Keyword(kw@)]),
            Command::GetValue(terms) => SExprView::List(
                seq![head, SExprView::List(term_trees(terms@))],
            ),
            Command::Pop(num) => SExprView::List(
                seq![head, SExprView::Constant(ConstantView::Numeral(*num))],
            ),
            Command::Push(num) => SExprView::List(
                seq![head, SExprView::Constant(ConstantView::Numeral(*num))],
            ),
            Command::SetLogic(sym) => SExprView::List(seq![head, SExprView::Symbol(sym@)]),
            _ => SExprView::List(seq![head]),
        }
    }

    /// The grammar expression this command denotes.
    #[verifier::loop_isolation(false)]
    pub fn to_sexpr(&self) -> (r: Sexpr)
        ensures
            r.tree() == self.tree(),
    {
        let head = Sexpr::Reserved(Reserved::Command(self.command_type()));
        proof {
            assert(head.tree() == head_tree(self.ctype()));
        }
        match self {
            Command::Assert(t) => {
                let mut elems: Vec<Sexpr> = Vec::new();
                elems.push(head);
                elems.push(t.to_sexpr());
                let ghost es = elems@;
                let r = Sexpr::Sequence(elems);
                proof {
                    lemma_trees_of(es);
                    assert(trees_of(es)[0] == es[0].tree());
                    assert(trees_of(es)[1] == es[1].tree());
                    assert(trees_of(es) =~= seq![head_tree(self.ctype()), t.tree()]);
                }
                r
            },
            Command::CheckSatAssuming(props) => {
                let mut inner: Vec<Sexpr> = Vec::new();
                let n = props.len();
                let mut i: usize = 0;
                while i < n
                    invariant
                        i <= n,
                        inner@.len() == i,
                        forall|j: int|
                            0 <= j < i ==> #[trigger] inner@[j].tree() == props@[j].tree(),
                    decreases n - i,
                {
                    inner.push(props[i].to_sexpr());
                    i += 1;
                }
                let ghost ins = inner@;
                let mut elems: Vec<Sexpr> = Vec::new();
                elems.push(head);
                elems.push(Sexpr::Sequence(inner));
                let ghost es = elems@;
                let r = Sexpr::Sequence(elems);
                proof {
                    lemma_trees_of(es);
                    lemma_trees_of(ins);
                    lemma_prop_literal_trees(props@);
                    assert forall|k: int|
                        0 <= k < ins.len() implies trees_of(ins)[k] == prop_literal_trees(
                        props@,
                    )[k] by {
                        assert(trees_of(ins)[k] == ins[k].tree());
                        assert(ins[k].tree() == props@[k].tree());
                    }
                    assert(trees_of(ins) =~= prop_literal_trees(props@));
                    assert(trees_of(es)[0] == es[0].tree());
                    assert(trees_of(es)[1] == es[1].tree());
                    assert(trees_of(es) =~= seq![
                        head_tree(self.ctype()),
                        SExprView::List(prop_literal_trees(props@)),
                    ]);
                }
                r
            },
            Command::DeclareConst(name, sort) => {
                let mut elems: Vec<Sexpr> = Vec::new();
                elems.push(head);
                elems.push(Sexpr::Symbol(name.duplicate()));
                elems.push(sort.to_sexpr());
                let ghost es = elems@;
                let r = Sexpr::Sequence(elems);
                proof {
                    lemma_trees_of(es);
                    assert(trees_of(es)[0] == es[0].tree());
                    assert(trees_of(es)[1] == es[1].tree());
                    assert(trees_of(es)[2] == es[2].tree());
                    assert(trees_of(es) =~= seq![
                        head_tree(self.ctype()),
                        SExprView::Symbol(name@),
                        sort.tree(),
                    ]);
                }
                r
            },
            Command::DeclareDatatype(name, dd) => {
                let mut elems: Vec<Sexpr> = Vec::new();
                elems.push(head);
                elems.push(Sexpr::Symbol(name.duplicate()));
                elems.push(dd.to_sexpr());
                let ghost es = elems@;
                let r = Sexpr::Sequence(elems);
                proof {
                    lemma_trees_of(es);
                    assert(trees_of(es)[0] == es[0].tree());
                    assert(trees_of(es)[1] == es[1].tree());
                    assert(trees_of(es)[2] == es[2].tree());
                    assert(trees_of(es) =~= seq![
                        head_tree(self.ctype()),
                        SExprView::Symbol(name@),
                        dd.tree(),
                    ]);
                }
                r
            },
            Command::DeclareDatatypes(entries) => {
                let mut sds: Vec<Sexpr> = Vec::new();
                let mut dds: Vec<Sexpr> = Vec::new();
                let n = entries.len();
                let mut i: usize = 0;
                while i < n
                    invariant
                        i <= n,
                        sds@.len() == i,
                        dds@.len() == i,
                        forall|j: int|
                            0 <= j < i ==> #[trigger] sds@[j].tree() == entries@[j].0.tree(),
                        forall|j: int|
                            0 <= j < i ==> #[trigger] dds@[j].tree() == entries@[j].1.tree(),
                    decreases n - i,
                {
                    sds.push(entries[i].0.to_sexpr());
                    dds.push(entries[i].1.to_sexpr());
                    i += 1;
                }
                let ghost sdss = sds@;
                let ghost ddss = dds@;
                let mut elems: Vec<Sexpr> = Vec::new();
                elems.push(head);
                elems.push(Sexpr::Sequence(sds));
                elems.push(Sexpr::Sequence(dds));
                let ghost es = elems@;
                let r = Sexpr::Sequence(elems);
                proof {
                    lemma_trees_of(es);
                    lemma_trees_of(sdss);
                    lemma_trees_of(ddss);
                    lemma_pair_datatype_trees(entries@);
                    assert forall|k: int|
                        0 <= k < sdss.len() implies trees_of(sdss)[k] == pair_sort_dec_trees(
                        entries@,
                    )[k] by {
                        assert(trees_of(sdss)[k] == sdss[k].tree());
                        assert(sdss[k].tree() == entries@[k].0.tree());
                    }
                    assert(trees_of(sdss) =~= pair_sort_dec_trees(entries@));
                    assert forall|k: int|
                        0 <= k < ddss.len() implies trees_of(ddss)[k] == pair_datatype_dec_trees(
                        entries@,
                    )[k] by {
                        assert(trees_of(ddss)[k] == ddss[k].tree());
                        assert(ddss[k].tree() == entries@[k].1.tree());
                    }
                    assert(trees_of(ddss) =~= pair_datatype_dec_trees(entries@));
                    assert(trees_of(es)[0] == es[0].tree());
                    assert(trees_of(es)[1] == es[1].tree());
                    assert(trees_of(es)[2] == es[2].tree());
                    assert(trees_of(es) =~= seq![
                        head_tree(self.ctype()),
                        SExprView::List(pair_sort_dec_trees(entries@)),
                        SExprView::List(pair_datatype_dec_trees(entries@)),
                    ]);
                }
                r
            },
            Command::DeclareFun(name, arg_sorts, ret) => {
                let mut inner: Vec<Sexpr> = Vec::new();
                let n = arg_sorts.len();
                let mut i: usize = 0;
                while i < n
                    invariant
                        i <= n,
                        inner@.len() == i,
                        forall|j: int|
                            0 <= j < i ==> #[trigger] inner@[j].tree() == arg_sorts@[j].tree(),
                    decreases n - i,
                {
                    inner.push(arg_sorts[i].to_sexpr());
                    i += 1;
                }
                let ghost ins = inner@;
                let mut elems: Vec<Sexpr> = Vec::new();
                elems.push(head);
                elems.push(Sexpr::Symbol(name.duplicate()));
                elems.push(Sexpr::Sequence(inner));
                elems.push(ret.to_sexpr());
                let ghost es = elems@;
                let r = Sexpr::Sequence(elems);
                proof {
                    lemma_trees_of(es);
                    lemma_trees_of(ins);
                    lemma_sort_trees(arg_sorts@);
                    assert forall|k: int|
                        0 <= k < ins.len() implies trees_of(ins)[k] == sort_trees(
                        arg_sorts@,
                    )[k] by {
                        assert(trees_of(ins)[k] == ins[k].tree());
                        assert(ins[k].tree() == arg_sorts@[k].tree());
                    }
                    assert(trees_of(ins) =~= sort_trees(arg_sorts@));
                    assert(trees_of(es)[0] == es[0].tree());
                    assert(trees_of(es)[1] == es[1].tree());
                    assert(trees_of(es)[2] == es[2].tree());
                    assert(trees_of(es)[3] == es[3].tree());
                    assert(trees_of(es) =~= seq![
                        head_tree(self.ctype()),
                        SExprView::Symbol(name@),
                        SExprView::List(sort_trees(arg_sorts@)),
                        ret.tree(),
                    ]);
                }
                r
            },
            Command::DeclareSort(name, num) => {
                let mut elems: Vec<Sexpr> = Vec::new();
                elems.push(head);
                elems.push(Sexpr::Symbol(name.duplicate()));
                elems.push(Sexpr::SpecialConstant(SpecialConstant::Numeral(*num)));
                let ghost es = elems@;
                let r = Sexpr::Sequence(elems);
                proof {
                    lemma_trees_of(es);
                    assert(trees_of(es)[0] == es[0].tree());
                    assert(trees_of(es)[1] == es[1].tree());
                    assert(trees_of(es)[2] == es[2].tree());
                    assert(trees_of(es) =~= seq![
                        head_tree(self.ctype()),
                        SExprView::Symbol(name@),
                        SExprView::Constant(ConstantView::Numeral(*num)),
                    ]);
                }
                r
            },
            Command::DefineFun(fd) => {
                let mut elems = fd.to_sexprs();
                let ghost ps = elems@;
                elems.insert(0, head);
                let ghost es = elems@;
                let r = Sexpr::Sequence(elems);
                proof {
                    lemma_trees_of(ps);
                    lemma_trees_of(es);
                    assert(es =~= seq![Sexpr::Reserved(Reserved::Command(self.ctype()))] + ps);
                    let target = seq![head_tree(self.ctype())] + fd.trees();
                    assert forall|j: int| 0 <= j < es.len() implies trees_of(es)[j] == target[j] by {
                        assert(trees_of(es)[j] == es[j].tree());
                        if j >= 1 {
                            assert(es[j] == ps[j - 1]);
                            assert(trees_of(ps)[j - 1] == ps[j - 1].tree());
                        }
                    }
                    assert(trees_of(es) =~= target);
                }
                r
            },
            Command::DefineFunRec(fd) => {
                let mut elems = fd.to_sexprs();
                let ghost ps = elems@;
                elems.insert(0, head);
                let ghost es = elems@;
                let r = Sexpr::Sequence(elems);
                proof {
                    lemma_trees_of(ps);
                    lemma_trees_of(es);
                    assert(es =~= seq![Sexpr::Reserved(Reserved::Command(self.ctype()))] + ps);
                    let target = seq![head_tree(self.ctype())] + fd.trees();
                    assert forall|j: int| 0 <= j < es.len() implies trees_of(es)[j] == target[j] by {
                        assert(trees_of(es)[j] == es[j].tree());
                        if j >= 1 {
                            assert(es[j] == ps[j - 1]);
                            assert(trees_of(ps)[j - 1] == ps[j - 1].tree());
                        }
                    }
                    assert(trees_of(es) =~= target);
                }
                r
            },
            Command::DefineFunsRec(entries) => {
                let mut fds: Vec<Sexpr> = Vec::new();
                let mut bodies: Vec<Sexpr> = Vec::new();
                let n = entries.len();
                let mut i: usize = 0;
                while i < n
                    invariant
                        i <= n,
                        fds@.len() == i,
                        bodies@.len() == i,
                        forall|j: int|
                            0 <= j < i ==> #[trigger] fds@[j].tree() == entries@[j].0.tree(),
                        forall|j: int|
                            0 <= j < i ==> #[trigger] bodies@[j].tree() == entries@[j].1.tree(),
                    decreases n - i,
                {
                    fds.push(entries[i].0.to_sexpr());
                    bodies.push(entries[i].1.to_sexpr());
                    i += 1;
                }
                let ghost fdss = fds@;
                let ghost bss = bodies@;
                let mut elems: Vec<Sexpr> = Vec::new();
                elems.push(head);
                elems.push(Sexpr::Sequence(fds));
                elems.push(Sexpr::Sequence(bodies));
                let ghost es = elems@;
                let r = Sexpr::Sequence(elems);
                proof {
                    lemma_trees_of(es);
                    lemma_trees_of(fdss);
                    lemma_trees_of(bss);
                    lemma_pair_fun_trees(entries@);
                    assert forall|k: int|
                        0 <= k < fdss.len() implies trees_of(fdss)[k] == pair_fun_dec_trees(
                        entries@,
                    )[k] by {
                        assert(trees_of(fdss)[k] == fdss[k].tree());
                        assert(fdss[k].tree() == entries@[k].0.tree());
                    }
                    assert(trees_of(fdss) =~= pair_fun_dec_trees(entries@));
                    assert forall|k: int|
                        0 <= k < bss.len() implies trees_of(bss)[k] == pair_body_trees(
                        entries@,
                    )[k] by {
                        assert(trees_of(bss)[k] == bss[k].tree());
                        assert(bss[k].tree() == entries@[k].1.tree());
                    }
                    assert(trees_of(bss) =~= pair_body_trees(entries@));
                    assert(trees_of(es)[0] == es[0].tree());
                    assert(trees_of(es)[1] == es[1].tree());
                    assert(trees_of(es)[2] == es[2].tree());
                    assert(trees_of(es) =~= seq![
                        head_tree(self.ctype()),
                        SExprView::List(pair_fun_dec_trees(entries@)),
                        SExprView::List(pair_body_trees(entries@)),
                    ]);
                }
                r
            },
            Command::DefineSort(name, syms, sort) => {
                let mut inner: Vec<Sexpr> = Vec::new();
                let n = syms.len();
                let mut i: usize = 0;
                while i < n
                    invariant
                        i <= n,
                        inner@.len() == i,
                        forall|j: int|
                            0 <= j < i ==> #[trigger] inner@[j].tree() == SExprView::Symbol(
                                syms@[j]@,
                            ),
                    decreases n - i,
                {
                    inner.push(Sexpr::Symbol(syms[i].duplicate()));
                    i += 1;
                }
                let ghost ins = inner@;
                let mut elems: Vec<Sexpr> = Vec::new();
                elems.push(head);
                elems.push(Sexpr::Symbol(name.duplicate()));
                elems.push(Sexpr::Sequence(inner));
                elems.push(sort.to_sexpr());
                let ghost es = elems@;
                let r = Sexpr::Sequence(elems);
                proof {
                    lemma_trees_of(es);
                    lemma_trees_of(ins);
                    lemma_symbol_trees(syms@);
                    assert forall|k: int|
                        0 <= k < ins.len() implies trees_of(ins)[k] == symbol_trees(syms@)[k] by {
                        assert(trees_of(ins)[k] == ins[k].tree());
                        assert(ins[k].tree() == SExprView::Symbol(syms@[k]@));
                    }
                    assert(trees_of(ins) =~= symbol_trees(syms@));
                    assert(trees_of(es)[0] == es[0].tree());
                    assert(trees_of(es)[1] == es[1].tree());
                    assert(trees_of(es)[2] == es[2].tree());
                    assert(trees_of(es)[3] == es[3].tree());
                    assert(trees_of(es) =~= seq![
                        head_tree(self.ctype()),
                        SExprView::Symbol(name@),
                        SExprView::List(symbol_trees(syms@)),
                        sort.tree(),
                    ]);
                }
                r
            },
            Command::Echo(sc) => {
                let mut elems: Vec<Sexpr> = Vec::new();
                elems.push(head);
                elems.push(Sexpr::SpecialConstant(SpecialConstant::String(sc.duplicate())));
                let ghost es = elems@;
                let r = Sexpr::Sequence(elems);
                proof {
                    lemma_trees_of(es);
                    assert(trees_of(es)[0] == es[0].tree());
                    assert(trees_of(es)[1] == es[1].tree());
                    assert(trees_of(es) =~= seq![
                        head_tree(self.ctype()),
                        SExprView::Constant(ConstantView::Str(sc@)),
                    ]);
                }
                r
            },
            Command::GetOption(kw) => {
                let mut elems: Vec<Sexpr> = Vec::new();
                elems.push(head);
                elems.push(Sexpr::Keyword(kw.duplicate()));
                let ghost es = elems@;
                let r = Sexpr::Sequence(elems);
                proof {
                    lemma_trees_of(es);
                    assert(trees_of(es)[0] == es[0].tree());
                    assert(trees_of(es)[1] == es[1].tree());
                    assert(trees_of(es) =~= seq![
                        head_tree(self.ctype()),
                        SExprView::Keyword(kw@),
                    ]);
                }
                r
            },
            Command::GetValue(terms) => {
                let mut inner: Vec<Sexpr> = Vec::new();
                let n = terms.len();
                let mut i: usize = 0;
                while i < n
                    invariant
                        i <= n,
                        inner@.len() == i,
                        forall|j: int|
                            0 <= j < i ==> #[trigger] inner@[j].tree() == terms@[j].tree(),
                    decreases n - i,
                {
                    inner.push(terms[i].to_sexpr());
                    i += 1;
                }
                let ghost ins = inner@;
                let mut elems: Vec<Sexpr> = Vec::new();
                elems.push(head);
                elems.push(Sexpr::Sequence(inner));
                let ghost es = elems@;
                let r = Sexpr::Sequence(elems);
                proof {
                    lemma_trees_of(es);
                    lemma_trees_of(ins);
                    lemma_term_trees(terms@);
                    assert forall|k: int|
                        0 <= k < ins.len() implies trees_of(ins)[k] == term_trees(terms@)[k] by {
                        assert(trees_of(ins)[k] == ins[k].tree());
                        assert(ins[k].tree() == terms@[k].tree());
                    }
                    assert(trees_of(ins) =~= term_trees(terms@));
                    assert(trees_of(es)[0] == es[0].tree());
                    assert(trees_of(es)[1] == es[1].tree());
                    assert(trees_of(es) =~= seq![
                        head_tree(self.ctype()),
                        SExprView::List(term_trees(terms@)),
                    ]);
                }
                r
            },
            Command::Pop(num) => {
                let mut elems: Vec<Sexpr> = Vec::new();
                elems.push(head);
                elems.push(Sexpr::SpecialConstant(SpecialConstant::Numeral(*num)));
                let ghost es = elems@;
                let r = Sexpr::Sequence(elems);
                proof {
                    lemma_trees_of(es);
                    assert(trees_of(es)[0] == es[0].tree());
                    assert(trees_of(es)[1] == es[1].tree());
                    assert(trees_of(es) =~= seq![
                        head_tree(self.ctype()),
                        SExprView::Constant(ConstantView::Numeral(*num)),
                    ]);
                }
                r
            },
            Command::Push(num) => {
                let mut elems: Vec<Sexpr> = Vec::new();
                elems.push(head);
                elems.push(Sexpr::SpecialConstant(SpecialConstant::Numeral(*num)));
                let ghost es = elems@;
                let r = Sexpr::Sequence(elems);
                proof {
                    lemma_trees_of(es);
                    assert(trees_of(es)[0] == es[0].tree());
                    assert(trees_of(es)[1] == es[1].tree());
                    assert(trees_of(es) =~= seq![
                        head_tree(self.ctype()),
                        SExprView::Constant(ConstantView::Numeral(*num)),
                    ]);
                }
                r
            },
            Command::SetLogic(sym) => {
                let mut elems: Vec<Sexpr> = Vec::new();
                elems.push(head);
                elems.push(Sexpr::Symbol(sym.duplicate()));
                let ghost es = elems@;
                let r = Sexpr::Sequence(elems);
                proof {
                    lemma_trees_of(es);
                    assert(trees_of(es)[0] == es[0].tree());
                    assert(trees_of(es)[1] == es[1].tree());
                    assert(trees_of(es) =~= seq![
                        head_tree(self.ctype()),
                        SExprView::Symbol(sym@),
                    ]);
                }
                r
            },
            _ => {
                let mut elems: Vec<Sexpr> = Vec::new();
                elems.push(head);
                let ghost es = elems@;
                let r = Sexpr::Sequence(elems);
                proof {
                    lemma_trees_of(es);
                    assert(trees_of(es)[0] == es[0].tree());
                    assert(trees_of(es) =~= seq![head_tree(self.ctype())]);
                }
                r
            },
        }
    }

    /// The canonical text of this command.
    pub fn to_text(&self) -> (r: String)
        ensures
            r@ == tree_text(self.tree()),
    {
        self.to_sexpr().to_text()
    }
}

/// A script: an ordered run of commands.
#[derive(Debug)]
pub struct Script(pub Vec<Command>);

} // verus!
