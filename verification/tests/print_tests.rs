use sexp_core::ast::{Ast, Builtin};
use sexp_core::dec::Dec;
use sexp_core::printer::print;

#[test]
fn print_leaves() {
    assert_eq!(print(&Ast::integer(42)), String::from("42"));
    assert_eq!(print(&Ast::integer(-7)), String::from("-7"));
    assert_eq!(print(&Ast::integer(0)), String::from("0"));
    assert_eq!(print(&Ast::symbol(String::from("swag"))), String::from("swag"));
    assert_eq!(
        print(&Ast::string(String::from("hey lisp"))),
        String::from("\"hey lisp\"")
    );
    assert_eq!(print(&Ast::function(Builtin::Add)), String::from("#<function>"));
}

#[test]
fn print_decimals() {
    assert_eq!(print(&Ast::float(Dec::from_parts(133744, 2))), String::from("1337.44"));
    assert_eq!(print(&Ast::float(Dec::from_parts(-3220, 1))), String::from("-322"));
    assert_eq!(print(&Ast::float(Dec::from_parts(5, 1))), String::from("0.5"));
    assert_eq!(print(&Ast::float(Dec::from_parts(-5, 2))), String::from("-0.05"));
    assert_eq!(print(&Ast::float(Dec::from_parts(0, 0))), String::from("0"));
}

#[test]
fn print_lists() {
    assert_eq!(print(&Ast::parens(vec![])), String::from("()"));
    assert_eq!(print(&Ast::brackets(vec![])), String::from("[]"));
    assert_eq!(print(&Ast::braces(vec![])), String::from("{}"));
    let inner = Ast::brackets(vec![Ast::integer(1), Ast::integer(2)]);
    let tree = Ast::parens(vec![
        Ast::symbol(String::from("println")),
        inner,
        Ast::string(String::from("x")),
    ]);
    assert_eq!(print(&tree), String::from("(println [1 2] \"x\")"));
}

#[test]
fn decimal_normalization() {
    assert_eq!(Dec::from_parts(-3220, 1), Dec::from_parts(-322, 0));
    assert_eq!(Dec::from_parts(100, 2), Dec::from_parts(1, 0));
    assert_eq!(Dec::from_parts(0, 5), Dec::from_parts(0, 0));
    assert_ne!(Dec::from_parts(15, 1), Dec::from_parts(15, 0));
}

#[test]
fn decimal_arithmetic() {
    let a = Dec::from_parts(15, 1);  // 1.5
    let b = Dec::from_parts(25, 1);  // 2.5
    assert_eq!(a.add(b), Some(Dec::from_parts(4, 0)));
    assert_eq!(a.sub(b), Some(Dec::from_parts(-1, 0)));
    assert_eq!(a.mul(b), Some(Dec::from_parts(375, 2)));
    assert_eq!(a.div(b), Some(Dec::from_parts(6, 1)));
    let zero = Dec::from_parts(0, 0);
    assert_eq!(a.div(zero), None);
}
