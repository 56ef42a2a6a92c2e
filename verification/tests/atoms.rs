use smtlib::add;
use smtlib::lexicon::{is_numeral, is_simple_symbol, escape_string, Keyword, StringConstant, Symbol};
use smtlib::numerals::numeral_string;

#[test]
fn it_works() {
    let result = add(2, 2);
    assert_eq!(result, 4);
}

#[test]
fn foo() {
}

#[test]
fn simple_symbol_round_trip() {
    let sym = Symbol::new("abc-DEF~?.9".to_string()).unwrap();
    assert!(!sym.is_quoted());
    assert_eq!(sym.symbol(), "abc-DEF~?.9");
    assert_eq!(sym.token(), "abc-DEF~?.9");
}

#[test]
fn quoted_symbol_round_trip() {
    let sym = Symbol::new("hello world".to_string()).unwrap();
    assert!(sym.is_quoted());
    assert_eq!(sym.symbol(), "hello world");
    assert_eq!(sym.token(), "|hello world|");
}

#[test]
fn reserved_word_symbol_is_quoted() {
    let sym = Symbol::new("let".to_string()).unwrap();
    assert!(sym.is_quoted());
    assert_eq!(sym.token(), "|let|");
}

#[test]
fn empty_symbol_is_quoted() {
    let sym = Symbol::new(String::new()).unwrap();
    assert!(sym.is_quoted());
    assert_eq!(sym.token(), "||");
}

#[test]
fn pipe_symbol_rejected() {
    let err = Symbol::new("a|b".to_string()).unwrap_err();
    assert_eq!(err.text(), "a|b");
    assert!(Symbol::new("a\\b".to_string()).is_err());
}

#[test]
fn simple_symbol_predicate() {
    assert!(is_simple_symbol("abc"));
    assert!(is_simple_symbol("a+b/c"));
    assert!(!is_simple_symbol(""));
    assert!(!is_simple_symbol("1abc"));
    assert!(!is_simple_symbol("let"));
    assert!(!is_simple_symbol("has space"));
    assert!(is_simple_symbol("let0"));
}

#[test]
fn numeral_predicate() {
    assert!(is_numeral("0"));
    assert!(is_numeral("123"));
    assert!(!is_numeral(""));
    assert!(!is_numeral("01"));
    assert!(!is_numeral("1a"));
}

#[test]
fn string_constant_escaping() {
    let sc = StringConstant::new("say \"hi\"".to_string()).unwrap();
    assert_eq!(sc.string_constant(), "say \"hi\"");
    assert_eq!(sc.token(), "\"say \"\"hi\"\"\"");
    assert_eq!(escape_string("a\"b"), "a\"\"b");
    assert_eq!(escape_string("plain"), "plain");
}

#[test]
fn string_constant_rejects_control_characters() {
    let err = StringConstant::new("bad\u{1}text".to_string()).unwrap_err();
    assert_eq!(err.text(), "bad\u{1}text");
    assert!(StringConstant::new_str("tab\tand newline\n are fine").is_ok());
}

#[test]
fn keyword_token() {
    let kw = Keyword::new("produce-models".to_string());
    assert_eq!(kw.keyword(), "produce-models");
    assert_eq!(kw.token(), ":produce-models");
}

#[test]
fn numeral_rendering() {
    assert_eq!(numeral_string(0), "0");
    assert_eq!(numeral_string(42), "42");
    assert_eq!(numeral_string(-7), "-7");
    assert_eq!(numeral_string(i64::MIN), "-9223372036854775808");
    assert_eq!(numeral_string(i64::MAX), "9223372036854775807");
}
