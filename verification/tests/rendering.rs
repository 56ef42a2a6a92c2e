use smtlib::render::builder::{Error, SExprBuilder};
use smtlib::render::fmt::FmtWriter;
use smtlib::render::io::IOWriter;
use smtlib::render::{SExpr, Write, Writer};
use smtlib::write::{BoundedWriter, Writer as SinkWriter, Writable};
use smtlib::lexicon::{Keyword, Symbol};
use smtlib::sexprs::SpecialConstant;

#[test]
fn atom_to_text() {
    assert_eq!(SExpr::word("hello").to_text(), "hello");
}

#[test]
fn list_to_text_spacing() {
    let inner = SExpr::list(vec![SExpr::word("b"), SExpr::word("c")]);
    let e = SExpr::list(vec![SExpr::word("a"), inner, SExpr::word("d")]);
    assert_eq!(e.to_text(), "(a (b c) d)");
}

#[test]
fn empty_list_to_text() {
    assert_eq!(SExpr::list(vec![]).to_text(), "()");
}

#[test]
fn constant_and_symbol_atoms_render() {
    let e = SExpr::list(vec![
        SExpr::Constant(SpecialConstant::Numeral(-3)),
        SExpr::Symbol(Symbol::new("x y".to_string()).unwrap()),
    ]);
    assert_eq!(e.to_text(), "(-3 |x y|)");
}

#[test]
fn fmt_writer_incremental() {
    let w = FmtWriter::new();
    let w = w.enter().unwrap();
    let w = w.write_word("check-sat").unwrap();
    let w = w.leave().unwrap();
    assert_eq!(w.finish(), "(check-sat)");
}

#[test]
fn builder_produces_structural_value() {
    let b = SExprBuilder::new();
    let b = b.enter().unwrap();
    let b = b.write_word("a").unwrap();
    let b = b.write_word("b").unwrap();
    let b = b.leave().unwrap();
    let tree = b.finish().unwrap();
    assert_eq!(tree.to_text(), "(a b)");
}

#[test]
fn builder_first_list_child_becomes_slot_value() {
    // Closing a list into an empty slot makes it the slot's single value:
    // a leading nested list is absorbed by the enclosing slot.
    let b = SExprBuilder::new();
    let b = b.enter().unwrap();
    let b = b.enter().unwrap();
    let b = b.write_word("a").unwrap();
    let b = b.leave().unwrap();
    let b = b.write_word("b").unwrap();
    let b = b.leave().unwrap();
    let tree = b.finish().unwrap();
    assert_eq!(tree.to_text(), "(a b)");
}

#[test]
fn builder_atom_then_enter_fails() {
    let b = SExprBuilder::new();
    let b = b.write_word("x").unwrap();
    match b.enter() {
        Err(err) => assert!(matches!(err, Error::MoreThanOneWriteToSingleWord)),
        Ok(_) => panic!("writing over a finished atom must fail"),
    }
}

#[test]
fn builder_empty_leave_fails() {
    let b = SExprBuilder::new();
    let b = b.enter().unwrap();
    match b.leave() {
        Err(err) => assert!(matches!(err, Error::EmptyLeave)),
        Ok(_) => panic!("closing an empty list must fail"),
    }
}

#[test]
fn builder_empty_finish_is_none() {
    let b = SExprBuilder::new();
    assert!(b.finish().is_none());
}

#[test]
fn io_writer_streams_to_sink() {
    let sink = SinkWriter::new();
    let w = IOWriter::new(sink);
    let w = w.enter().unwrap();
    let w = w.write_word("assert").unwrap();
    let w = w.write_word("true").unwrap();
    let w = w.leave().unwrap();
    let sink = w.finish();
    assert_eq!(sink.into_string(), "(assert true)");
}

#[test]
fn bounded_sink_aborts_render() {
    let sink = BoundedWriter::new(3);
    let w = IOWriter::new(sink);
    let w = w.enter().unwrap();
    let w = w.write_word("ab").unwrap();
    // The next token would exceed the sink's capacity.
    assert!(w.write_word("cd").is_err());
}

#[test]
fn writable_atoms_write_their_tokens() {
    let mut sink = SinkWriter::new();
    let sym = Symbol::new("pipe me".to_string()).unwrap();
    sym.write_to(&mut sink).unwrap();
    Keyword::new("status".to_string()).write_to(&mut sink).unwrap();
    SpecialConstant::Numeral(7).write_to(&mut sink).unwrap();
    assert_eq!(sink.into_string(), "|pipe me|:status7");
}

#[test]
fn same_render_on_every_backend() {
    let e = SExpr::list(vec![
        SExpr::word("declare-const"),
        SExpr::word("x"),
        SExpr::word("Int"),
    ]);
    let text = e.to_text();

    let w = e.write(FmtWriter::new()).unwrap();
    assert_eq!(w.finish(), text);

    let w = e.write(IOWriter::new(SinkWriter::new())).unwrap();
    assert_eq!(w.finish().into_string(), text);

    let b = e.write(SExprBuilder::new()).unwrap();
    let rebuilt = b.finish().unwrap();
    assert_eq!(rebuilt.to_text(), text);
}
