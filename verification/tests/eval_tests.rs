use sexp_core::ast::{Ast, Builtin, Error};
use sexp_core::dec::Dec;
use sexp_core::eval::eval;
use sexp_core::parser::read;
use sexp_core::printer::print;
use sexp_core::repl::{base_env, repl};

fn dec(mant: i64, scale: u32) -> Dec {
    Dec::from_parts(mant, scale)
}

#[test]
fn let_star_forward_bindings() {
    let mut env = base_env();
    let ast = read(String::from("(let* (x 1 y (+ x 1)) (+ x y))")).unwrap();
    let v = eval(&ast, &mut env, 0).unwrap();
    assert_eq!(v, Ast::float(dec(3, 0)));
}

#[test]
fn def_persists_in_shared_frame() {
    let mut env = base_env();
    let d = read(String::from("(def! x 5)")).unwrap();
    let v = eval(&d, &mut env, 0).unwrap();
    assert_eq!(v, Ast::integer(5));

    let x = read(String::from("x")).unwrap();
    let v2 = eval(&x, &mut env, 0).unwrap();
    assert_eq!(v2, Ast::integer(5));
}

#[test]
fn unbound_symbol_names_itself() {
    let mut env = base_env();
    let ast = read(String::from("treasure")).unwrap();
    let err = eval(&ast, &mut env, 0).err().unwrap();
    assert_eq!(err, Error::EvalError(String::from("'treasure' not found")));
}

#[test]
fn arithmetic_builtins() {
    let mut env = base_env();
    let cases: Vec<(&str, Dec)> = vec![
        ("(+ 1 2)", dec(3, 0)),
        ("(- 1 2)", dec(-1, 0)),
        ("(* 2.5 4)", dec(10, 0)),
        ("(/ 5 2)", dec(25, 1)),
        ("(/ 1 3)", dec(333_333_333_333, 12)),
        ("(+ 1.25 2.75)", dec(4, 0)),
        ("(- 1.5 2.25)", dec(-75, 2)),
    ];
    for (src, want) in cases {
        let ast = read(String::from(src)).unwrap();
        let v = eval(&ast, &mut env, 0).unwrap();
        assert_eq!(v, Ast::float(want), "{}", src);
    }
}

#[test]
fn arithmetic_failures() {
    let mut env = base_env();
    let ast = read(String::from("(/ 1 0)")).unwrap();
    let err = eval(&ast, &mut env, 0).err().unwrap();
    assert_eq!(err, Error::EvalError(String::from("division by zero")));

    let ast = read(String::from("(+ \"a\" 1)")).unwrap();
    let err = eval(&ast, &mut env, 0).err().unwrap();
    assert_eq!(err, Error::EvalError(String::from("not a number")));

    let ast = read(String::from("(+ (1) 2)")).unwrap();
    let err = eval(&ast, &mut env, 0).err().unwrap();
    assert_eq!(err, Error::EvalError(String::from("not a function")));
}

#[test]
fn non_function_operator() {
    let mut env = base_env();
    let ast = read(String::from("(foo 1 2)")).unwrap();
    let err = eval(&ast, &mut env, 0).err().unwrap();
    assert_eq!(err, Error::EvalError(String::from("'foo' not found")));

    let ast = read(String::from("(def! foo 7)")).unwrap();
    eval(&ast, &mut env, 0).unwrap();
    let ast = read(String::from("(foo 1 2)")).unwrap();
    let err = eval(&ast, &mut env, 0).err().unwrap();
    assert_eq!(err, Error::EvalError(String::from("not a function")));
}

#[test]
fn non_paren_lists_evaluate_elements() {
    let mut env = base_env();
    let ast = read(String::from("[(+ 1 2) 7 \"s\"]")).unwrap();
    let v = eval(&ast, &mut env, 0).unwrap();
    assert_eq!(
        v,
        Ast::brackets(vec![
            Ast::float(dec(3, 0)),
            Ast::integer(7),
            Ast::string(String::from("s")),
        ])
    );

    let empty = read(String::from("()")).unwrap();
    let v = eval(&empty, &mut env, 0).unwrap();
    assert_eq!(v, Ast::parens(vec![]));
}

#[test]
fn function_values_are_first_class() {
    let mut env = base_env();
    let plus = read(String::from("+")).unwrap();
    let v = eval(&plus, &mut env, 0).unwrap();
    assert_eq!(v, Ast::function(Builtin::Add));
}

#[test]
fn repl_cycle() {
    let mut env = base_env();
    assert_eq!(repl("(+ 1 2)", &mut env, 0), String::from("3"));
    assert_eq!(repl("(1 2]", &mut env, 0), String::from("unbalanced"));
    assert_eq!(repl("1337.", &mut env, 0), String::from("unbalanced"));
    assert_eq!(repl("nope", &mut env, 0), String::from("'nope' not found"));
    assert_eq!(repl("(def! z 4)", &mut env, 0), String::from("4"));
    assert_eq!(repl("(* z z)", &mut env, 0), String::from("16"));
}

#[test]
fn round_trip_is_stable() {
    let mut env = base_env();
    let sources = vec![
        "(+ 1 2)",
        "(let* (x 2 y 3) (* x y))",
        "[1 2.5 \"a\" {7 3}]",
        "\"hello world\"",
        "-322.0",
        "()",
    ];
    for src in sources {
        let parsed = read(String::from(src)).unwrap();
        let value = eval(&parsed, &mut env, 0).unwrap();
        let first = print(&value);

        let reparsed = read(first.clone()).unwrap();
        let revalue = eval(&reparsed, &mut env, 0).unwrap();
        let second = print(&revalue);
        assert_eq!(first, second, "{}", src);

        let reparsed_again = read(second.clone()).unwrap();
        let revalue_again = eval(&reparsed_again, &mut env, 0).unwrap();
        let third = print(&revalue_again);
        assert_eq!(second, third, "{}", src);
    }
}

#[test]
fn deep_nesting_and_scopes() {
    let mut env = base_env();
    assert_eq!(
        repl("(let* (a 1) (let* (b (+ a 1)) (+ a b)))", &mut env, 0),
        String::from("3")
    );
    // the inner binding shadows without touching the outer frame
    assert_eq!(repl("(def! a 10)", &mut env, 0), String::from("10"));
    assert_eq!(repl("(let* (a 1) a)", &mut env, 0), String::from("1"));
    assert_eq!(repl("a", &mut env, 0), String::from("10"));
}
