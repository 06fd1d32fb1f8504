use sexp_core::ast::{Ast, Error, State, Token};
use sexp_core::env::Env;
use sexp_core::lexer::Lexer;
use sexp_core::parser::read;

#[test]
fn search_walks_the_chain() {
    let mut e = Env::new();
    let f0 = e.push_frame(None);
    e.insert(f0, String::from("a"), Ast::integer(1));
    let f1 = e.push_frame(Some(f0));

    assert_eq!(e.search(f1, "a").unwrap(), Ast::integer(1));

    e.insert(f1, String::from("a"), Ast::integer(2));
    assert_eq!(e.search(f1, "a").unwrap(), Ast::integer(2));
    assert_eq!(e.search(f0, "a").unwrap(), Ast::integer(1));

    assert_eq!(
        e.search(f1, "b").err().unwrap(),
        Error::EvalError(String::from("'b' not found"))
    );
}

#[test]
fn insert_replaces_in_place() {
    let mut e = Env::new();
    let f0 = e.push_frame(None);
    e.insert(f0, String::from("x"), Ast::integer(1));
    e.insert(f0, String::from("y"), Ast::integer(2));
    e.insert(f0, String::from("x"), Ast::integer(3));
    assert_eq!(e.search(f0, "x").unwrap(), Ast::integer(3));
    assert_eq!(e.search(f0, "y").unwrap(), Ast::integer(2));
}

#[test]
fn error_messages() {
    let e = Error::TransitionError('s', String::from("1337"), State::Num);
    assert_eq!(
        e.message(),
        String::from("transition error `Unexpected character: s, buffer: 1337, state: Num`")
    );

    let e = Error::TokenTerminationError(State::Dot);
    assert_eq!(
        e.message(),
        String::from("token termination error `Non terminating state: Dot`")
    );

    assert_eq!(Error::Unbalanced.message(), String::from("unbalanced parens"));
    assert_eq!(Error::EOF.message(), String::from("eof while parsing a string"));
    assert_eq!(
        Error::EvalError(String::from("'x' not found")).message(),
        String::from("'x' not found")
    );
}

#[test]
fn empty_inputs() {
    let t = Lexer::new();
    assert_eq!(t.tokenize("").unwrap(), Vec::<Token>::new());

    let t = Lexer::new();
    assert_eq!(t.tokenize("   ;; only a comment").unwrap(), Vec::<Token>::new());

    // a closing quote at end of input leaves nothing buffered, so an empty
    // string there is silently dropped and the reader yields its default
    let empty_string_at_eof = read(String::from("\"\"")).unwrap();
    assert_eq!(empty_string_at_eof, Ast::default());

    let t = Lexer::new();
    assert_eq!(
        t.tokenize("\"\" ").unwrap(),
        vec![Token::String(String::from(""))]
    );
}
