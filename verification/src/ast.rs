//! Tokens, syntax trees, function values and the error type of the language.
use vstd::prelude::*;

use crate::dec::{dec_wf, Dec};

verus! {

/// The lexer's states.
#[derive(Debug, PartialEq, Eq, Structural, Clone, Copy)]
pub enum State {
    Init,
    Minus,
    Num,
    Dot,
    Float,
    StringStart,
    Escape,
    StringClose,
    Symbol,
    Comment,
}

/// The delimiter kind that opened a list.
#[derive(Debug, PartialEq, Eq, Structural, Clone, Copy)]
pub enum ListType {
    Parens,
    Brackets,
    Braces,
}

/// One lexeme.
#[derive(Debug, PartialEq, Clone)]
pub enum Token {
    LeftParen,
    RightParen,
    LeftBracket,
    RightBracket,
    LeftBrace,
    RightBrace,
    String(String),
    Int(i32),
    Float(Dec),
    Symbol(String),
}

/// Mathematical value of a token: strings are character sequences.
pub enum TokenV {
    LeftParen,
    RightParen,
    LeftBracket,
    RightBracket,
    LeftBrace,
    RightBrace,
    String(Seq<char>),
    Int(int),
    Float(Dec),
    Symbol(Seq<char>),
}

impl View for Token {
    type V = TokenV;

    open spec fn view(&self) -> TokenV {
        match self {
            Token::LeftParen => TokenV::LeftParen,
            Token::RightParen => TokenV::RightParen,
            Token::LeftBracket => TokenV::LeftBracket,
            Token::RightBracket => TokenV::RightBracket,
            Token::LeftBrace => TokenV::LeftBrace,
            Token::RightBrace => TokenV::RightBrace,
            Token::String(s) => TokenV::String(s@),
            Token::Int(i) => TokenV::Int(*i as int),
            Token::Float(d) => TokenV::Float(*d),
            Token::Symbol(s) => TokenV::Symbol(s@),
        }
    }
}

impl DeepView for Token {
    type V = TokenV;

    open spec fn deep_view(&self) -> TokenV {
        self.view()
    }
}

/// The processing failures, as the pipeline reports them.
#[derive(Debug, PartialEq, Clone)]
pub enum Error {
    /// An invalid character for the lexer's current state, with the buffered
    /// text and the state.
    TransitionError(char, String, State),
    /// A flush was attempted while the lexer was in this non-terminating
    /// state.
    TokenTerminationError(State),
    /// Bracket kinds mismatched, a list was closed that was never opened, or
    /// input ended with an open list.
    Unbalanced,
    /// A lexer failure surfaced through the reader.
    EOF,
    /// Reserved: the reader-macro pass itself never fails.
    ReaderMacroError,
    /// An evaluation failure, with its message.
    EvalError(String),
}

/// Mathematical value of an error.
pub enum ErrorV {
    TransitionError(char, Seq<char>, State),
    TokenTerminationError(State),
    Unbalanced,
    EOF,
    ReaderMacroError,
    EvalError(Seq<char>),
}

impl View for Error {
    type V = ErrorV;

    open spec fn view(&self) -> ErrorV {
        match self {
            Error::TransitionError(c, b, s) => ErrorV::TransitionError(*c, b@, *s),
            Error::TokenTerminationError(s) => ErrorV::TokenTerminationError(*s),
            Error::Unbalanced => ErrorV::Unbalanced,
            Error::EOF => ErrorV::EOF,
            Error::ReaderMacroError => ErrorV::ReaderMacroError,
            Error::EvalError(m) => ErrorV::EvalError(m@),
        }
    }
}

/// The four operations a function value can stand for. Function values are
/// compared by which callable they hold, never by behavior.
#[derive(Debug, PartialEq, Eq, Structural, Clone, Copy)]
pub enum Builtin {
    Add,
    Sub,
    Mul,
    Div,
}

/// A first-class function value: a handle to a callable.
#[derive(Debug, PartialEq, Eq, Structural, Clone, Copy)]
pub struct LFunction {
    pub op: Builtin,
}

impl LFunction {
    pub fn new(op: Builtin) -> (r: LFunction)
        ensures
            r == (LFunction { op }),
    {
        LFunction { op }
    }
}

/// A leaf of the syntax tree.
#[derive(Debug, PartialEq, Clone)]
pub enum AstLeaf {
    Symbol(String),
    Int(i32),
    Float(Dec),
    String(String),
    Function(LFunction),
}

/// A syntax tree: a leaf, or a delimited ordered list of subtrees.
#[derive(Debug)]
pub enum Ast {
    List(AstList),
    Leaf(AstLeaf),
}

/// A list node, remembering which delimiter kind opened it.
#[derive(Debug)]
pub struct AstList {
    pub list_type: ListType,
    pub list: Vec<Ast>,
}

/// Mathematical value of a leaf.
pub enum LeafV {
    Symbol(Seq<char>),
    Int(int),
    Float(Dec),
    String(Seq<char>),
    Function(Builtin),
}

/// Mathematical value of a syntax tree.
#[verifier::ext_equal]
pub enum SpecAst {
    List(ListType, Seq<SpecAst>),
    Leaf(LeafV),
}

pub open spec fn leaf_view(l: AstLeaf) -> LeafV {
    match l {
        AstLeaf::Symbol(s) => LeafV::Symbol(s@),
        AstLeaf::Int(i) => LeafV::Int(i as int),
        AstLeaf::Float(d) => LeafV::Float(d),
        AstLeaf::String(s) => LeafV::String(s@),
        AstLeaf::Function(f) => LeafV::Function(f.op),
    }
}

pub open spec fn ast_view(a: Ast) -> SpecAst
    decreases a,
{
    match a {
        Ast::Leaf(l) => SpecAst::Leaf(leaf_view(l)),
        Ast::List(al) => SpecAst::List(al.list_type, asts_view(al.list@)),
    }
}

/// The views of the elements of an executable list of trees.
pub open spec fn asts_view(s: Seq<Ast>) -> Seq<SpecAst>
    decreases s,
{
    if s.len() == 0 {
        Seq::empty()
    } else {
        asts_view(s.drop_last()).push(ast_view(s.last()))
    }
}

pub broadcast proof fn lemma_asts_view_len(s: Seq<Ast>)
    ensures
        (#[trigger] asts_view(s)).len() == s.len(),
    decreases s.len(),
{
    if s.len() > 0 {
        lemma_asts_view_len(s.drop_last());
    }
}

pub broadcast proof fn lemma_asts_view_index(s: Seq<Ast>, i: int)
    requires
        0 <= i < s.len(),
    ensures
        #[trigger] asts_view(s)[i] == ast_view(s[i]),
    decreases s.len(),
{
    lemma_asts_view_len(s);
    if s.len() > 0 && i < s.len() - 1 {
        lemma_asts_view_index(s.drop_last(), i);
    }
}

pub proof fn lemma_asts_view_push(s: Seq<Ast>, x: Ast)
    ensures
        asts_view(s.push(x)) == asts_view(s).push(ast_view(x)),
{
    assert(s.push(x).drop_last() =~= s);
    assert(s.push(x).last() == x);
}

impl View for Ast {
    type V = SpecAst;

    open spec fn view(&self) -> SpecAst {
        ast_view(*self)
    }
}

/// Every decimal leaf of the tree is normalized and in bounds.
pub open spec fn ast_num_wf(a: SpecAst) -> bool
    decreases a,
{
    match a {
        SpecAst::Leaf(LeafV::Float(d)) => dec_wf(d),
        SpecAst::Leaf(_) => true,
        SpecAst::List(_, xs) => forall|i: int| 0 <= i < xs.len() ==> ast_num_wf(#[trigger] xs[i]),
    }
}

/// Structural equality of two leaves.
pub fn leaf_eq(a: &AstLeaf, b: &AstLeaf) -> (r: bool)
    ensures
        r == (leaf_view(*a) == leaf_view(*b)),
{
    match a {
        AstLeaf::Symbol(x) => match b {
            AstLeaf::Symbol(y) => x.eq(y),
            _ => false,
        },
        AstLeaf::Int(x) => match b {
            AstLeaf::Int(y) => *x == *y,
            _ => false,
        },
        AstLeaf::Float(x) => match b {
            AstLeaf::Float(y) => *x == *y,
            _ => false,
        },
        AstLeaf::String(x) => match b {
            AstLeaf::String(y) => x.eq(y),
            _ => false,
        },
        AstLeaf::Function(x) => match b {
            AstLeaf::Function(y) => *x == *y,
            _ => false,
        },
    }
}

/// Structural equality of two trees.
pub fn ast_eq(a: &Ast, b: &Ast) -> (r: bool)
    ensures
        r == (a@ == b@),
    decreases *a,
{
    broadcast use {lemma_asts_view_len, lemma_asts_view_index};

    match a {
        Ast::Leaf(x) => match b {
            Ast::Leaf(y) => leaf_eq(x, y),
            Ast::List(_) => false,
        },
        Ast::List(xa) => match b {
            Ast::Leaf(_) => false,
            Ast::List(xb) => {
            if xa.list_type != xb.list_type {
                return false;
            }
            if xa.list.len() != xb.list.len() {
                proof {
                    lemma_asts_view_len(xa.list@);
                    lemma_asts_view_len(xb.list@);
                }
                return false;
            }
            let ghost sa = asts_view(xa.list@);
            let ghost sb = asts_view(xb.list@);
            let n = xa.list.len();
            let mut i: usize = 0;
            while i < n
                invariant
                    n == xa.list.len() == xb.list.len(),
                    i <= n,
                    sa == asts_view(xa.list@),
                    sb == asts_view(xb.list@),
                    forall|j: int| 0 <= j < i ==> sa[j] == sb[j],
                    *a == Ast::List(*xa),
                    *b == Ast::List(*xb),
                decreases n - i,
            {
                proof {
                    assert(*xa == a->List_0);
                    assert(decreases_to!(*a => a->List_0));
                    assert(decreases_to!(a->List_0 => a->List_0.list));
                    assert(decreases_to!(a->List_0.list => a->List_0.list@));
                    assert(decreases_to!(a->List_0.list@ => a->List_0.list@[i as int]));
                    lemma_asts_view_index(xa.list@, i as int);
                    lemma_asts_view_index(xb.list@, i as int);
                }
                if !ast_eq(&xa.list[i], &xb.list[i]) {
                    assert(sa[i as int] != sb[i as int]);
                    return false;
                }
                i = i + 1;
            }
            proof {
                lemma_asts_view_len(xa.list@);
                lemma_asts_view_len(xb.list@);
                assert(sa =~= sb);
            }
            true
            },
        },
    }
}

impl PartialEq for Ast {
    fn eq(&self, other: &Ast) -> (r: bool) {
        ast_eq(self, other)
    }
}

impl vstd::std_specs::cmp::PartialEqSpecImpl for Ast {
    open spec fn obeys_eq_spec() -> bool {
        true
    }

    open spec fn eq_spec(&self, other: &Ast) -> bool {
        self@ == other@
    }
}

/// A deep copy of a list of trees.
pub fn copy_asts(v: &Vec<Ast>) -> (r: Vec<Ast>)
    ensures
        asts_view(r@) == asts_view(v@),
    decreases v@,
{
    broadcast use {lemma_asts_view_len, lemma_asts_view_index};

    let mut out: Vec<Ast> = Vec::new();
    let n = v.len();
    let mut i: usize = 0;
    while i < n
        invariant
            n == v.len(),
            i <= n,
            out@.len() == i,
            forall|j: int| 0 <= j < i ==> ast_view(#[trigger] out@[j]) == ast_view(v@[j]),
        decreases n - i,
    {
        proof {
            assert(decreases_to!(v@ => v@[i as int]));
        }
        let x = v[i].duplicate();
        out.push(x);
        i = i + 1;
    }
    proof {
        assert(asts_view(out@) =~= asts_view(v@));
    }
    out
}

impl Default for Ast {
    /// The default tree: an empty-symbol leaf.
    fn default() -> (r: Ast)
        ensures
            r@ == SpecAst::Leaf(LeafV::Symbol(Seq::<char>::empty())),
    {
        Ast::Leaf(AstLeaf::Symbol(String::new()))
    }
}

impl Ast {
    pub fn symbol(s: String) -> (r: Ast)
        ensures
            r@ == SpecAst::Leaf(LeafV::Symbol(s@)),
    {
        Ast::Leaf(AstLeaf::Symbol(s))
    }

    pub fn integer(i: i32) -> (r: Ast)
        ensures
            r@ == SpecAst::Leaf(LeafV::Int(i as int)),
    {
        Ast::Leaf(AstLeaf::Int(i))
    }

    pub fn float(d: Dec) -> (r: Ast)
        ensures
            r@ == SpecAst::Leaf(LeafV::Float(d)),
    {
        Ast::Leaf(AstLeaf::Float(d))
    }

    pub fn string(s: String) -> (r: Ast)
        ensures
            r@ == SpecAst::Leaf(LeafV::String(s@)),
    {
        Ast::Leaf(AstLeaf::String(s))
    }

    pub fn function(op: Builtin) -> (r: Ast)
        ensures
            r@ == SpecAst::Leaf(LeafV::Function(op)),
    {
        Ast::Leaf(AstLeaf::Function(LFunction { op }))
    }

    pub fn parens(sib: Vec<Ast>) -> (r: Ast)
        ensures
            r@ == SpecAst::List(ListType::Parens, asts_view(sib@)),
    {
        Ast::List(AstList { list_type: ListType::Parens, list: sib })
    }

    pub fn braces(sib: Vec<Ast>) -> (r: Ast)
        ensures
            r@ == SpecAst::List(ListType::Braces, asts_view(sib@)),
    {
        Ast::List(AstList { list_type: ListType::Braces, list: sib })
    }

    pub fn brackets(sib: Vec<Ast>) -> (r: Ast)
        ensures
            r@ == SpecAst::List(ListType::Brackets, asts_view(sib@)),
    {
        Ast::List(AstList { list_type: ListType::Brackets, list: sib })
    }

    /// A deep copy of this tree.
    pub fn duplicate(&self) -> (r: Ast)
        ensures
            r@ == self@,
        decreases *self,
    {
        match self {
            Ast::Leaf(l) => Ast::Leaf(
                match l {
                    AstLeaf::Symbol(s) => AstLeaf::Symbol(s.clone()),
                    AstLeaf::Int(i) => AstLeaf::Int(*i),
                    AstLeaf::Float(d) => AstLeaf::Float(*d),
                    AstLeaf::String(s) => AstLeaf::String(s.clone()),
                    AstLeaf::Function(f) => AstLeaf::Function(*f),
                },
            ),
            Ast::List(al) => {
                proof {
                    assert(*al == self->List_0);
                    assert(decreases_to!(*self => self->List_0));
                    assert(decreases_to!(self->List_0 => self->List_0.list));
                    assert(decreases_to!(self->List_0.list => self->List_0.list@));
                }
                Ast::List(AstList { list_type: al.list_type, list: copy_asts(&al.list) })
            },
        }
    }

    /// The function value held by this tree, or the evaluation error that a
    /// non-function callee reports.
    pub fn get_function(&self) -> (r: Result<LFunction, Error>)
        ensures
            match *self {
                Ast::Leaf(AstLeaf::Function(f)) => r == Ok::<LFunction, Error>(f),
                _ => r matches Err(e) && e@ == ErrorV::EvalError("not a function"@),
            },
    {
        if let Ast::Leaf(l) = self {
            if let AstLeaf::Function(lf) = l {
                return Ok(*lf);
            }
        }
        Err(Error::EvalError(String::from_str("not a function")))
    }
}

} // verus!
