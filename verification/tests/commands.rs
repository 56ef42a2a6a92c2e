use smtlib::identifiers::{Identifier, Index};
use smtlib::lexicon::{Keyword, StringConstant, Symbol};
use smtlib::scripts::{
    Command, ConstructorDec, DatatypeDec, FunctionDef, PropLiteral, SelectorDec, SortDec,
};
use smtlib::sorts::Sort;
use smtlib::terms::{QualifiedIdentifier, SortedVar, Term, VarBinding};
use smtlib::sexprs::SpecialConstant;

fn sym(s: &str) -> Symbol {
    Symbol::new(s.to_string()).unwrap()
}

fn plain_sort(s: &str) -> Sort {
    Sort::new(Identifier::new(sym(s), vec![]), vec![])
}

fn var(s: &str) -> Term {
    Term::QualifiedIdentifier(QualifiedIdentifier::new(
        Identifier::new(sym(s), vec![]),
        None,
    ))
}

#[test]
fn indexed_identifier_renders() {
    let id = Identifier::new(sym("extract"), vec![Index::Numeral(31), Index::Numeral(0)]);
    assert_eq!(id.to_text(), "(_ extract 31 0)");
}

#[test]
fn bare_identifier_renders() {
    let id = Identifier::new(sym("x"), vec![]);
    assert_eq!(id.to_text(), "x");
}

#[test]
fn sort_application_renders() {
    let arr = Sort::new(
        Identifier::new(sym("Array"), vec![]),
        vec![plain_sort("Int"), plain_sort("Bool")],
    );
    assert_eq!(arr.to_text(), "(Array Int Bool)");
}

#[test]
fn qualified_identifier_renders() {
    let qi = QualifiedIdentifier::new(Identifier::new(sym("nil"), vec![]), Some(plain_sort("L")));
    assert_eq!(qi.to_text(), "(as nil L)");
}

#[test]
fn let_term_renders() {
    let t = Term::Let(
        vec![VarBinding(sym("x"), Term::SpecialConstant(SpecialConstant::Numeral(1)))],
        Box::new(var("x")),
    );
    assert_eq!(t.to_text(), "(let ((x 1)) x)");
}

#[test]
fn forall_term_renders() {
    let t = Term::Forall(
        vec![SortedVar(sym("x"), plain_sort("Int"))],
        Box::new(Term::Application(
            QualifiedIdentifier::new(Identifier::new(sym("p"), vec![]), None),
            vec![var("x")],
        )),
    );
    assert_eq!(t.to_text(), "(forall ((x Int)) (p x))");
}

#[test]
fn nullary_commands_render() {
    assert_eq!(Command::CheckSat.to_text(), "(check-sat)");
    assert_eq!(Command::Exit.to_text(), "(exit)");
    assert_eq!(Command::GetModel.to_text(), "(get-model)");
    assert_eq!(Command::ResetAssertions.to_text(), "(reset-assertions)");
}

#[test]
fn push_pop_render() {
    assert_eq!(Command::Push(2).to_text(), "(push 2)");
    assert_eq!(Command::Pop(1).to_text(), "(pop 1)");
}

#[test]
fn echo_renders_quoted() {
    let c = Command::Echo(StringConstant::new("he said \"hi\"".to_string()).unwrap());
    assert_eq!(c.to_text(), "(echo \"he said \"\"hi\"\"\")");
}

#[test]
fn get_option_renders_keyword() {
    let c = Command::GetOption(Keyword::new("produce-models".to_string()));
    assert_eq!(c.to_text(), "(get-option :produce-models)");
}

#[test]
fn set_logic_renders() {
    assert_eq!(Command::SetLogic(sym("QF_LIA")).to_text(), "(set-logic QF_LIA)");
}

#[test]
fn declare_const_command_renders() {
    let c = Command::DeclareConst(sym("x"), plain_sort("Int"));
    assert_eq!(c.to_text(), "(declare-const x Int)");
}

#[test]
fn declare_fun_command_renders() {
    let c = Command::DeclareFun(sym("f"), vec![plain_sort("Int"), plain_sort("Bool")], plain_sort("Int"));
    assert_eq!(c.to_text(), "(declare-fun f (Int Bool) Int)");
}

#[test]
fn declare_sort_command_renders() {
    assert_eq!(Command::DeclareSort(sym("S"), 2).to_text(), "(declare-sort S 2)");
}

#[test]
fn datatype_declaration_renders() {
    let dd = DatatypeDec::new(vec![ConstructorDec {
        name: sym("mkNewSort"),
        selectors: vec![SelectorDec { name: sym("NewSort-i"), sort: plain_sort("Int") }],
    }]);
    let c = Command::DeclareDatatype(sym("NewSort"), dd);
    assert_eq!(c.to_text(), "(declare-datatype NewSort ((mkNewSort (NewSort-i Int))))");
}

#[test]
fn datatypes_declaration_renders_parallel_lists() {
    let mk = |name: &str, field: &str| {
        DatatypeDec::new(vec![ConstructorDec {
            name: sym(name),
            selectors: vec![SelectorDec { name: sym(field), sort: plain_sort("Int") }],
        }])
    };
    let c = Command::DeclareDatatypes(vec![
        (SortDec(sym("A"), 0), mk("mkA", "a1")),
        (SortDec(sym("B"), 0), mk("mkB", "b1")),
    ]);
    assert_eq!(
        c.to_text(),
        "(declare-datatypes ((A 0) (B 0)) (((mkA (a1 Int))) ((mkB (b1 Int)))))"
    );
}

#[test]
fn define_fun_command_renders() {
    let fd = FunctionDef::new(
        sym("inc"),
        vec![SortedVar(sym("x"), plain_sort("Int"))],
        plain_sort("Int"),
        Term::Application(
            QualifiedIdentifier::new(Identifier::new(sym("+"), vec![]), None),
            vec![var("x"), Term::SpecialConstant(SpecialConstant::Numeral(1))],
        ),
    );
    let c = Command::DefineFun(fd);
    assert_eq!(c.to_text(), "(define-fun inc ((x Int)) Int (+ x 1))");
}

#[test]
fn check_sat_assuming_renders_literals() {
    let c = Command::CheckSatAssuming(vec![
        PropLiteral::new(false, sym("p")),
        PropLiteral::new(true, sym("q")),
    ]);
    assert_eq!(c.to_text(), "(check-sat-assuming (p (not q)))");
}

#[test]
fn get_value_renders_terms() {
    let c = Command::GetValue(vec![var("x"), var("y")]);
    assert_eq!(c.to_text(), "(get-value (x y))");
}

#[test]
fn define_sort_renders() {
    let c = Command::DefineSort(sym("Pair"), vec![sym("X")], plain_sort("X"));
    assert_eq!(c.to_text(), "(define-sort Pair (X) X)");
}

#[test]
fn assert_command_renders_term() {
    let t = Term::Application(
        QualifiedIdentifier::new(Identifier::new(sym(">"), vec![]), None),
        vec![var("x"), Term::SpecialConstant(SpecialConstant::Numeral(0))],
    );
    assert_eq!(Command::Assert(t).to_text(), "(assert (> x 0))");
}
