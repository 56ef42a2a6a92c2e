use smtlib::cmds::assertion::{Assert, Error};
use smtlib::cmds::declare_const::DeclareConst;
use smtlib::cmds::declare_datatype::DeclareDatatype;
use smtlib::cmds::define_fun::DefineFun;
use smtlib::datatypes::{Constructor, Datatype, Selector};
use smtlib::exprs::boolean;
use smtlib::exprs::integer;
use smtlib::exprs::integer::Add2;
use smtlib::exprs::boolean::Eq2;
use smtlib::functions::{FunctionDefinition, FunctionSignature};
use smtlib::identifiers::Identifier;
use smtlib::lexicon::Symbol;
use smtlib::cmds::declare_datatype::Error as DdError;
use smtlib::cmds::define_fun::Error as DfError;
use smtlib::render::fmt::FmtWriter;
use smtlib::render::io::IOWriter;
use smtlib::render::ToSExpr;
use smtlib::typecheck::{Sort, Term};
use smtlib::exprs::integer::WriteError;
use smtlib::write::{BoundedWriter, Writer as SinkWriter};

fn sym(s: &str) -> Symbol {
    Symbol::new(s.to_string()).unwrap()
}

#[test]
fn literal_sorts() {
    assert_eq!(integer::Literal(3).sort(), Sort::Int);
    assert_eq!(boolean::Literal(true).sort(), Sort::Bool);
    assert!(integer::Literal(3).typecheck().is_ok());
    assert!(boolean::Literal(false).typecheck().is_ok());
}

#[test]
fn sort_equality_is_structural() {
    assert_eq!(Sort::Int, Sort::Int);
    assert_ne!(Sort::Int, Sort::Bool);
    let dt = |name: &str| {
        Sort::Datatype(Datatype { name: sym(name), constructors: vec![] })
    };
    assert_eq!(dt("S"), dt("S"));
    assert_ne!(dt("S"), dt("T"));
}

#[test]
fn add_of_int_and_bool_fails_typecheck() {
    let e = Add2(integer::Literal(1), boolean::Literal(true));
    let err = e.typecheck().unwrap_err();
    assert_eq!(err.left().0, 1);
    assert!(err.right().0);
}

#[test]
fn add_of_ints_typechecks() {
    let e = Add2(integer::Literal(1), integer::Literal(2));
    assert!(e.typecheck().is_ok());
    assert_eq!(e.sort(), Sort::Int);
}

#[test]
fn eq_of_mismatched_sorts_fails_typecheck() {
    let e = Eq2(integer::Literal(1), boolean::Literal(true));
    let err = e.typecheck().unwrap_err();
    assert_eq!(err.left().0, 1);
    assert!(err.right().0);
    assert!(Eq2(integer::Literal(1), integer::Literal(2)).typecheck().is_ok());
}

#[test]
fn assert_of_integer_literal_is_not_boolean() {
    let cmd = Assert(integer::Literal(9));
    match cmd.write(FmtWriter::new()) {
        Err(Error::NotBoolExpr(se)) => {
            assert_eq!(se.expr().0, 9);
            assert_eq!(*se.expect_sort(), Sort::Bool);
        },
        _ => panic!("expected a sort violation"),
    }
}

#[test]
fn assert_equation_end_to_end() {
    let cmd = Assert(Eq2(
        Add2(integer::Literal(9), integer::Literal(16)),
        integer::Literal(25),
    ));
    let w = cmd.write(FmtWriter::new()).unwrap();
    assert_eq!(w.finish(), "(assert (= (+ 9 16) 25))");
}

#[test]
fn declare_const_typed_renders() {
    let cmd = DeclareConst { ident: Identifier::new(sym("x"), vec![]), sort: Sort::Int };
    let w = cmd.write(FmtWriter::new()).unwrap();
    assert_eq!(w.finish(), "(declare-const x Int)");
}

#[test]
fn declare_datatype_typed_renders() {
    let cmd = DeclareDatatype(Datatype {
        name: sym("NewSort"),
        constructors: vec![Constructor {
            name: sym("mkNewSort"),
            selectors: vec![Selector { name: sym("NewSort-i"), sort: Sort::Int }],
        }],
    });
    let w = cmd.write(FmtWriter::new()).unwrap();
    assert_eq!(w.finish(), "(declare-datatype NewSort ((mkNewSort (NewSort-i Int))))");
}

#[test]
fn define_fun_typed_renders() {
    let def = FunctionDefinition {
        sig: FunctionSignature {
            name: "always7".to_string(),
            args: vec![(Identifier::new(sym("x"), vec![]), Sort::Int)],
            return_sort: Sort::Int,
        },
        body: integer::Literal(7),
    };
    let w = DefineFun::new(def, false).write(FmtWriter::new()).unwrap();
    assert_eq!(w.finish(), "(define-fun always7 ((x Int)) Int 7)");
}

#[test]
fn define_fun_rec_spelling() {
    let def = FunctionDefinition {
        sig: FunctionSignature { name: "f".to_string(), args: vec![], return_sort: Sort::Bool },
        body: boolean::Literal(true),
    };
    let w = DefineFun::new(def, true).write(FmtWriter::new()).unwrap();
    assert_eq!(w.finish(), "(define-fun-rec f () Bool true)");
}

#[test]
fn typed_terms_to_structural_value() {
    let e = Add2(integer::Literal(1), integer::Literal(2));
    let tree = e.to_sexpr();
    assert_eq!(tree.to_text(), "(+ 1 2)");
    assert_eq!(boolean::Literal(false).to_sexpr().to_text(), "false");
    assert_eq!(boolean::Literal(true).to_symbol().token(), "true");
}

#[test]
fn assert_frame_write_failure_is_write_error() {
    let cmd = Assert(boolean::Literal(true));
    match cmd.write(IOWriter::new(BoundedWriter::new(3))) {
        Err(Error::WriteError(_)) => {},
        _ => panic!("expected the frame write to fail"),
    }
}

#[test]
fn assert_term_write_failure_is_write_expr_error() {
    let cmd = Assert(boolean::Literal(true));
    match cmd.write(IOWriter::new(BoundedWriter::new(7))) {
        Err(Error::WriteExprError(_)) => {},
        _ => panic!("expected the term write to fail"),
    }
}

#[test]
fn declare_datatype_write_failures_name_the_failing_part() {
    let cmd = || DeclareDatatype(Datatype {
        name: sym("NewSort"),
        constructors: vec![Constructor {
            name: sym("mkNewSort"),
            selectors: vec![Selector { name: sym("NewSort-i"), sort: Sort::Int }],
        }],
    });
    match cmd().write(IOWriter::new(BoundedWriter::new(3))) {
        Err(DdError::WriterError(_)) => {},
        _ => panic!("expected the frame write to fail"),
    }
    match cmd().write(IOWriter::new(BoundedWriter::new(50))) {
        Err(DdError::WriteSortError(_)) => {},
        _ => panic!("expected the selector sort write to fail"),
    }
}

#[test]
fn define_fun_write_failure_is_write_error() {
    let def = FunctionDefinition {
        sig: FunctionSignature { name: "f".to_string(), args: vec![], return_sort: Sort::Bool },
        body: boolean::Literal(true),
    };
    match DefineFun::new(def, false).write(IOWriter::new(BoundedWriter::new(2))) {
        Err(DfError::WriteError(_)) => {},
        _ => panic!("expected the write to fail"),
    }
}

#[test]
fn assert_equation_streams_exact() {
    let cmd = Assert(Eq2(
        Add2(integer::Literal(9), integer::Literal(16)),
        integer::Literal(25),
    ));
    let w = cmd.write(IOWriter::new(SinkWriter::new())).unwrap();
    assert_eq!(w.finish().into_string(), "(assert (= (+ 9 16) 25))");
}

#[test]
fn declare_datatype_streams_exact() {
    let cmd = DeclareDatatype(Datatype {
        name: sym("NewSort"),
        constructors: vec![Constructor {
            name: sym("mkNewSort"),
            selectors: vec![Selector { name: sym("NewSort-i"), sort: Sort::Int }],
        }],
    });
    let w = cmd.write(IOWriter::new(SinkWriter::new())).unwrap();
    assert_eq!(
        w.finish().into_string(),
        "(declare-datatype NewSort ((mkNewSort (NewSort-i Int))))"
    );
}

#[test]
fn add_write_failures_name_the_failing_operand() {
    // Rendering (+ 1 2) costs 1, 2, 4, 6 and 7 characters after each token.
    let e = Add2(integer::Literal(1), integer::Literal(2));
    match e.write(IOWriter::new(BoundedWriter::new(1))) {
        Err(WriteError::WriteError(_)) => {},
        _ => panic!("expected the frame write to fail"),
    }
    match e.write(IOWriter::new(BoundedWriter::new(2))) {
        Err(WriteError::WriteLeftTermError(_)) => {},
        _ => panic!("expected the left operand write to fail"),
    }
    match e.write(IOWriter::new(BoundedWriter::new(4))) {
        Err(WriteError::WriteRightTermError(_)) => {},
        _ => panic!("expected the right operand write to fail"),
    }
    match e.write(IOWriter::new(BoundedWriter::new(6))) {
        Err(WriteError::WriteError(_)) => {},
        _ => panic!("expected the closing write to fail"),
    }
}

#[test]
fn eq_write_failures_name_the_failing_operand() {
    let e = Eq2(boolean::Literal(true), boolean::Literal(false));
    match e.write(IOWriter::new(BoundedWriter::new(2))) {
        Err(WriteError::WriteLeftTermError(_)) => {},
        _ => panic!("expected the left operand write to fail"),
    }
    match e.write(IOWriter::new(BoundedWriter::new(7))) {
        Err(WriteError::WriteRightTermError(_)) => {},
        _ => panic!("expected the right operand write to fail"),
    }
}
