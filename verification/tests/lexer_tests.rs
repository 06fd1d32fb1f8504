use sexp_core::ast::{Error, State, Token};
use sexp_core::dec::Dec;
use sexp_core::lexer::{is_whitespace, Lexer};

#[test]
fn lexer_tokenize_int() {
    let t = Lexer::new();
    let tokens = t.tokenize("1337 420 -322").unwrap();
    assert_eq!(
        tokens,
        vec![Token::Int(1337), Token::Int(420), Token::Int(-322)]
    );

    let t_bad = Lexer::new();
    let err = t_bad.tokenize("1337s").err().unwrap();
    assert_eq!(
        err,
        Error::TransitionError('s', String::from("1337"), State::Num)
    );
}

#[test]
fn tokenize_float() {
    let t = Lexer::new();
    let tokens = t.tokenize("1337.44 420.33 -322.0  ,   ").unwrap();
    assert_eq!(
        tokens,
        vec![
            Token::Float(Dec::from_parts(133744, 2)),
            Token::Float(Dec::from_parts(42033, 2)),
            Token::Float(Dec::from_parts(-3220, 1)),
        ]
    );

    let t_bad = Lexer::new();
    let err = t_bad.tokenize("1337.").err().unwrap();
    assert_eq!(err, Error::TokenTerminationError(State::Dot));

    let t_bad2 = Lexer::new();
    let err = t_bad2.tokenize("1337.a").err().unwrap();
    assert_eq!(
        err,
        Error::TransitionError('a', String::from("1337."), State::Dot)
    );
}

#[test]
fn tokenize_symbol() {
    let t = Lexer::new();
    let tokens = t.tokenize("true false - ----").unwrap();
    assert_eq!(
        tokens,
        vec![
            Token::Symbol(String::from("true")),
            Token::Symbol(String::from("false")),
            Token::Symbol(String::from("-")),
            Token::Symbol(String::from("----")),
        ]
    );

    let t_bad = Lexer::new();
    let err = t_bad.tokenize("lol\"kek").err().unwrap();
    assert_eq!(
        err,
        Error::TransitionError('"', String::from("lol"), State::Symbol)
    );
}

#[test]
fn tokenize_string() {
    let t = Lexer::new();
    let tokens = t
        .tokenize("\"\" \" \" \"yolo swag()() hihihe \\\" win\" \"nailed it\"")
        .unwrap();
    assert_eq!(
        tokens,
        vec![
            Token::String(String::from("")),
            Token::String(String::from(" ")),
            Token::String(String::from("yolo swag()() hihihe \\\" win")),
            Token::String(String::from("nailed it")),
        ]
    );

    let t_bad = Lexer::new();
    let err = t_bad.tokenize("\"lol\"kek\"").err().unwrap();
    assert_eq!(
        err,
        Error::TransitionError('k', String::from("lol"), State::StringClose)
    );
}

#[test]
fn tokenize_sexp() {
    let t = Lexer::new();
    let tokens = t
        .tokenize("(println [1 2 3] \"hey lisp\" (* (+ 1 2.02 3) 420))")
        .unwrap();

    assert_eq!(
        tokens,
        vec![
            Token::LeftParen,
            Token::Symbol(String::from("println")),
            Token::LeftBracket,
            Token::Int(1),
            Token::Int(2),
            Token::Int(3),
            Token::RightBracket,
            Token::String(String::from("hey lisp")),
            Token::LeftParen,
            Token::Symbol(String::from("*")),
            Token::LeftParen,
            Token::Symbol(String::from("+")),
            Token::Int(1),
            Token::Float(Dec::from_parts(202, 2)),
            Token::Int(3),
            Token::RightParen,
            Token::Int(420),
            Token::RightParen,
            Token::RightParen,
        ]
    );
}

#[test]
fn comments() {
    let t = Lexer::new();
    let tokens = t
        .tokenize("(+ 1 2 3 ;; Comment here (println yolo swag)")
        .unwrap();

    assert_eq!(
        tokens,
        vec![
            Token::LeftParen,
            Token::Symbol(String::from("+")),
            Token::Int(1),
            Token::Int(2),
            Token::Int(3),
        ]
    );
}

#[test]
fn whitespace_kinds() {
    assert!(is_whitespace(' '));
    assert!(is_whitespace('\n'));
    assert!(is_whitespace('\t'));
    assert!(is_whitespace(','));
    assert!(!is_whitespace('a'));
    assert!(!is_whitespace('('));
}

#[test]
fn integer_bounds() {
    let t = Lexer::new();
    let tokens = t.tokenize("2147483647 -2147483648").unwrap();
    assert_eq!(tokens, vec![Token::Int(2147483647), Token::Int(-2147483648)]);

    let t_bad = Lexer::new();
    let err = t_bad.tokenize("2147483648").err().unwrap();
    assert_eq!(
        err,
        Error::TransitionError('8', String::from("214748364"), State::Num)
    );
}

#[test]
fn minus_and_escape() {
    let t = Lexer::new();
    let tokens = t.tokenize("-7 -x \"a\\nb\"").unwrap();
    assert_eq!(
        tokens,
        vec![
            Token::Int(-7),
            Token::Symbol(String::from("-x")),
            Token::String(String::from("a\\nb")),
        ]
    );
}
