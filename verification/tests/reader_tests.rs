use sexp_core::ast::{Ast, Error};
use sexp_core::lexer::Lexer;
use sexp_core::parser::{parse, read};

#[test]
fn macro_with_meta() {
    let lex = Lexer::new();
    let tokens = lex
        .tokenize("^{yolo swag} (+ '1 3 ^{300 bucks} [420  ^{top kek} (+ 1 322)] 3 7) ")
        .unwrap();
    let ast_top: Vec<Ast> = parse(tokens).unwrap();
    assert_eq!(
        ast_top,
        vec![Ast::parens(vec![
            Ast::symbol(String::from("with-meta")),
            Ast::parens(vec![
                Ast::symbol(String::from("+")),
                // the quote mark is no terminator, so `'1` is one symbol
                Ast::symbol(String::from("'1")),
                Ast::integer(3),
                Ast::parens(vec![
                    Ast::symbol(String::from("with-meta")),
                    Ast::brackets(vec![
                        Ast::integer(420),
                        Ast::parens(vec![
                            Ast::symbol(String::from("with-meta")),
                            Ast::parens(vec![
                                Ast::symbol(String::from("+")),
                                Ast::integer(1),
                                Ast::integer(322)
                            ]),
                            Ast::braces(vec![
                                Ast::symbol(String::from("top")),
                                Ast::symbol(String::from("kek"))
                            ]),
                        ]),
                    ]),
                    Ast::braces(vec![
                        Ast::integer(300),
                        Ast::symbol(String::from("bucks"))
                    ]),
                ]),
                Ast::integer(3),
                Ast::integer(7),
            ]),
            Ast::braces(vec![
                Ast::symbol(String::from("yolo")),
                Ast::symbol(String::from("swag"))
            ]),
        ])]
    );
}

#[test]
fn with_meta_order() {
    let ast = read(String::from("^{yolo swag} (+ 1 3)")).unwrap();
    assert_eq!(
        ast,
        Ast::parens(vec![
            Ast::symbol(String::from("with-meta")),
            Ast::parens(vec![
                Ast::symbol(String::from("+")),
                Ast::integer(1),
                Ast::integer(3),
            ]),
            Ast::braces(vec![
                Ast::symbol(String::from("yolo")),
                Ast::symbol(String::from("swag")),
            ]),
        ])
    );
}

#[test]
fn unbalanced_kinds() {
    let err = read(String::from("(1 2]")).err().unwrap();
    assert_eq!(err, Error::Unbalanced);

    let err = read(String::from("(1 2")).err().unwrap();
    assert_eq!(err, Error::Unbalanced);

    let err = read(String::from("1 2)")).err().unwrap();
    assert_eq!(err, Error::Unbalanced);
}

#[test]
fn read_surfaces_lexer_failures_as_eof() {
    let err = read(String::from("1337.")).err().unwrap();
    assert_eq!(err, Error::EOF);

    let err = read(String::from("\"lol\"kek\"")).err().unwrap();
    assert_eq!(err, Error::EOF);
}

#[test]
fn read_keeps_last_form() {
    let ast = read(String::from("1 2 3")).unwrap();
    assert_eq!(ast, Ast::integer(3));

    let empty = read(String::from("")).unwrap();
    assert_eq!(empty, Ast::symbol(String::from("")));
    assert_eq!(empty, Ast::default());
}

#[test]
fn simple_reader_macros() {
    let ast = read(String::from("' a")).unwrap();
    assert_eq!(
        ast,
        Ast::parens(vec![
            Ast::symbol(String::from("quote")),
            Ast::symbol(String::from("a")),
        ])
    );

    let ast = read(String::from("` ( ~ b ~@ c @ d )")).unwrap();
    assert_eq!(
        ast,
        Ast::parens(vec![
            Ast::symbol(String::from("quasiquote")),
            Ast::parens(vec![
                Ast::parens(vec![
                    Ast::symbol(String::from("unquote")),
                    Ast::symbol(String::from("b")),
                ]),
                Ast::parens(vec![
                    Ast::symbol(String::from("splice-unquote")),
                    Ast::symbol(String::from("c")),
                ]),
                Ast::parens(vec![
                    Ast::symbol(String::from("deref")),
                    Ast::symbol(String::from("d")),
                ]),
            ]),
        ])
    );
}
