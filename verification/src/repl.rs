//! One read/eval/print cycle over a shared top-level environment.
//!
//! The shell around the core owns the environment, seeded by `base_env` with
//! the four arithmetic builtins, and reports error text verbatim; a failed
//! read is reported as unbalanced input, and an evaluation failure by its
//! message.
use vstd::prelude::*;

use crate::ast::{Builtin, Error, ErrorV, State};
use crate::env::{env_wf, Env, FrameV};
use crate::eval::{eval, eval_s};
use crate::parser::{read, read_spec};
use crate::printer::{print, print_s};
use vstd::string::StringExecFns;

verus! {

/// The name of a lexer state, as error text shows it.
pub open spec fn state_name_s(st: State) -> Seq<char> {
    match st {
        State::Init => "Init"@,
        State::Minus => "Minus"@,
        State::Num => "Num"@,
        State::Dot => "Dot"@,
        State::Float => "Float"@,
        State::StringStart => "StringStart"@,
        State::Escape => "Escape"@,
        State::StringClose => "StringClose"@,
        State::Symbol => "Symbol"@,
        State::Comment => "Comment"@,
    }
}

/// The name of a lexer state.
pub fn state_name(st: State) -> (r: &'static str)
    ensures
        r@ == state_name_s(st),
{
    match st {
        State::Init => "Init",
        State::Minus => "Minus",
        State::Num => "Num",
        State::Dot => "Dot",
        State::Float => "Float",
        State::StringStart => "StringStart",
        State::Escape => "Escape",
        State::StringClose => "StringClose",
        State::Symbol => "Symbol",
        State::Comment => "Comment",
    }
}

/// The text of an error, as the shell reports it.
pub open spec fn error_message(e: ErrorV) -> Seq<char> {
    match e {
        ErrorV::TransitionError(c, b, st) => "transition error `Unexpected character: "@ + seq![c]
            + ", buffer: "@ + b + ", state: "@ + state_name_s(st) + "`"@,
        ErrorV::TokenTerminationError(st) => "token termination error `Non terminating state: "@
            + state_name_s(st) + "`"@,
        ErrorV::Unbalanced => "unbalanced parens"@,
        ErrorV::EOF => "eof while parsing a string"@,
        ErrorV::ReaderMacroError => "reader macro error"@,
        ErrorV::EvalError(m) => m,
    }
}

impl Error {
    /// The text of this error.
    pub fn message(&self) -> (r: String)
        ensures
            r@ == error_message(self@),
    {
        match self {
            Error::TransitionError(c, b, st) => {
                let mut m = String::from_str("transition error `Unexpected character: ");
                crate::text::push_char(&mut m, *c);
                m.append(", buffer: ");
                m.append(b.as_str());
                m.append(", state: ");
                m.append(state_name(*st));
                m.append("`");
                proof {
                    assert(m@ =~= error_message(self@));
                }
                m
            },
            Error::TokenTerminationError(st) => {
                let mut m = String::from_str("token termination error `Non terminating state: ");
                m.append(state_name(*st));
                m.append("`");
                proof {
                    assert(m@ =~= error_message(self@));
                }
                m
            },
            Error::Unbalanced => String::from_str("unbalanced parens"),
            Error::EOF => String::from_str("eof while parsing a string"),
            Error::ReaderMacroError => String::from_str("reader macro error"),
            Error::EvalError(m) => m.clone(),
        }
    }
}

/// The one frame that the shell seeds: the four arithmetic builtins.
pub open spec fn base_env_s() -> Seq<FrameV> {
    seq![
        FrameV {
            names: seq!["+"@, "-"@, "*"@, "/"@],
            values: seq![
                crate::ast::SpecAst::Leaf(crate::ast::LeafV::Function(Builtin::Add)),
                crate::ast::SpecAst::Leaf(crate::ast::LeafV::Function(Builtin::Sub)),
                crate::ast::SpecAst::Leaf(crate::ast::LeafV::Function(Builtin::Mul)),
                crate::ast::SpecAst::Leaf(crate::ast::LeafV::Function(Builtin::Div)),
            ],
            parent: None,
        },
    ]
}

/// A fresh top-level environment with the builtin symbols bound in its one
/// frame, which has index zero.
pub fn base_env() -> (r: Env)
    ensures
        r@ == base_env_s(),
        env_wf(r@),
        r@.len() == 1,
{
    let mut env = Env::new();
    let f = env.push_frame(None);
    env.insert(f, String::from_str("+"), crate::ast::Ast::function(Builtin::Add));
    env.insert(f, String::from_str("-"), crate::ast::Ast::function(Builtin::Sub));
    env.insert(f, String::from_str("*"), crate::ast::Ast::function(Builtin::Mul));
    env.insert(f, String::from_str("/"), crate::ast::Ast::function(Builtin::Div));
    proof {
        reveal_with_fuel(crate::env::find_name, 6);
        reveal_strlit("+");
        reveal_strlit("-");
        reveal_strlit("*");
        reveal_strlit("/");
        assert("+"@[0] == '+');
        assert("-"@[0] == '-');
        assert("*"@[0] == '*');
        assert("/"@[0] == '/');
        assert(env@[0].names =~= base_env_s()[0].names);
        assert(env@[0].values =~= base_env_s()[0].values);
        assert(env@[0] =~= base_env_s()[0]);
        assert(env@ =~= base_env_s());
    }
    env
}

/// One read/eval/print cycle: the printed value, the message of an
/// evaluation failure, or the fixed report of a failed read.
pub open spec fn repl_s(s: Seq<char>, env: Seq<FrameV>, f: int) -> (Seq<char>, Seq<FrameV>) {
    match read_spec(s) {
        Err(_) => ("unbalanced"@, env),
        Ok(a) => match eval_s(a, env, f) {
            (Ok(v), e) => (print_s(v), e),
            (Err(er), e) => (error_message(er), e),
        },
    }
}

/// One read/eval/print cycle over the given environment and frame.
pub fn repl(s: &str, env: &mut Env, frame: usize) -> (r: String)
    requires
        env_wf(old(env)@),
        frame < old(env)@.len(),
    ensures
        ({
            let (text, envf) = repl_s(s@, old(env)@, frame as int);
            &&& r@ == text
            &&& final(env)@ == envf
            &&& env_wf(final(env)@)
            &&& frame < final(env)@.len()
        }),
{
    match read(s.to_owned()) {
        Err(_) => String::from_str("unbalanced"),
        Ok(a) => match eval(&a, env, frame) {
            Ok(v) => print(&v),
            Err(e) => e.message(),
        },
    }
}

} // verus!
