//! The reader: tokens to syntax trees.
//!
//! A stack machine tracks the kinds of the open lists and their unfinished
//! parent sequences. Closing a list runs the reader-macro pass over the
//! finished sequence; one more pass runs over the top level at the end.
//! `parse` returns every top-level form; `read` runs the whole front end and
//! keeps the last form.
use vstd::prelude::*;

use crate::ast::{asts_view, lemma_asts_view_index, lemma_asts_view_len,
    lemma_asts_view_push, Ast, AstList,
    Error, ErrorV, ListType, SpecAst, LeafV, Token, TokenV};
use crate::lexer::{lex_spec, Lexer};
use crate::macros::{apply, expand_all};

verus! {

/// The parser's state: the kinds of the open lists, their unfinished parent
/// sequences, and the sequence being built.
#[verifier::ext_equal]
pub struct ParseSt {
    pub kinds: Seq<ListType>,
    pub parents: Seq<Seq<SpecAst>>,
    pub current: Seq<SpecAst>,
}

pub open spec fn parse_init() -> ParseSt {
    ParseSt { kinds: Seq::empty(), parents: Seq::empty(), current: Seq::empty() }
}

/// The list kind that an opening bracket token implies.
pub open spec fn spec_get_list_type(t: TokenV) -> Option<ListType> {
    match t {
        TokenV::LeftParen => Some(ListType::Parens),
        TokenV::LeftBrace => Some(ListType::Braces),
        TokenV::LeftBracket => Some(ListType::Brackets),
        _ => None,
    }
}

/// Does this closing token close a list of the given kind?
pub open spec fn spec_does_terminate(t: TokenV, list_type: ListType) -> bool {
    match t {
        TokenV::RightParen => list_type is Parens,
        TokenV::RightBrace => list_type is Braces,
        TokenV::RightBracket => list_type is Brackets,
        _ => false,
    }
}

/// One token of the stack machine.
pub open spec fn parse_step(st: ParseSt, t: TokenV) -> Result<ParseSt, ErrorV> {
    match t {
        TokenV::String(x) => Ok(
            ParseSt { current: st.current.push(SpecAst::Leaf(LeafV::String(x))), ..st },
        ),
        TokenV::Int(x) => Ok(
            ParseSt { current: st.current.push(SpecAst::Leaf(LeafV::Int(x))), ..st },
        ),
        TokenV::Float(x) => Ok(
            ParseSt { current: st.current.push(SpecAst::Leaf(LeafV::Float(x))), ..st },
        ),
        TokenV::Symbol(x) => Ok(
            ParseSt { current: st.current.push(SpecAst::Leaf(LeafV::Symbol(x))), ..st },
        ),
        TokenV::LeftParen | TokenV::LeftBrace | TokenV::LeftBracket => Ok(
            ParseSt {
                kinds: st.kinds.push(spec_get_list_type(t)->Some_0),
                parents: st.parents.push(st.current),
                current: Seq::empty(),
            },
        ),
        TokenV::RightParen | TokenV::RightBrace | TokenV::RightBracket => {
            if st.kinds.len() == 0 {
                Err(ErrorV::Unbalanced)
            } else {
                let kind = st.kinds.last();
                let parent = st.parents.last();
                if !spec_does_terminate(t, kind) {
                    Err(ErrorV::Unbalanced)
                } else {
                    Ok(
                        ParseSt {
                            kinds: st.kinds.drop_last(),
                            parents: st.parents.drop_last(),
                            current: parent.push(
                                SpecAst::List(kind, expand_all(st.current)),
                            ),
                        },
                    )
                }
            }
        },
    }
}

/// Run the machine over the remaining tokens.
pub open spec fn parse_run(ts: Seq<TokenV>, st: ParseSt) -> Result<ParseSt, ErrorV>
    decreases ts.len(),
{
    if ts.len() == 0 {
        Ok(st)
    } else {
        match parse_step(st, ts[0]) {
            Err(e) => Err(e),
            Ok(st1) => parse_run(ts.drop_first(), st1),
        }
    }
}

/// The whole parse: the top-level forms of the token stream, reader macros
/// applied, or `Unbalanced`.
pub open spec fn parse_spec(ts: Seq<TokenV>) -> Result<Seq<SpecAst>, ErrorV> {
    match parse_run(ts, parse_init()) {
        Err(e) => Err(e),
        Ok(st) => if st.kinds.len() == 0 {
            Ok(expand_all(st.current))
        } else {
            Err(ErrorV::Unbalanced)
        },
    }
}

/// The whole front end: lex, parse, macro-expand; the last top-level form,
/// a lexer failure surfacing as `EOF`, and an empty input giving the default
/// empty-symbol leaf.
pub open spec fn read_spec(s: Seq<char>) -> Result<SpecAst, ErrorV> {
    match lex_spec(s) {
        Err(_) => Err(ErrorV::EOF),
        Ok(ts) => match parse_spec(ts) {
            Err(e) => Err(e),
            Ok(forms) => if forms.len() == 0 {
                Ok(SpecAst::Leaf(LeafV::Symbol(Seq::empty())))
            } else {
                Ok(forms.last())
            },
        },
    }
}

/// The list kind of an opening bracket token.
pub fn get_list_type(lex: &Token) -> (r: Option<ListType>)
    ensures
        r == spec_get_list_type(lex@),
{
    match lex {
        Token::LeftParen => Some(ListType::Parens),
        Token::LeftBrace => Some(ListType::Braces),
        Token::LeftBracket => Some(ListType::Brackets),
        _ => None,
    }
}

/// Does this closing token close a list of the given kind?
pub fn does_terminate(lex: &Token, list_type: ListType) -> (r: bool)
    ensures
        r == spec_does_terminate(lex@, list_type),
{
    match lex {
        Token::RightParen => list_type == ListType::Parens,
        Token::RightBrace => list_type == ListType::Braces,
        Token::RightBracket => list_type == ListType::Brackets,
        _ => false,
    }
}

/// The views of a stack of unfinished sequences.
pub open spec fn parents_view(s: Seq<Vec<Ast>>) -> Seq<Seq<SpecAst>> {
    Seq::new(s.len(), |i: int| asts_view(s[i]@))
}

/// The parser: every top-level form of the token stream, exactly as
/// `parse_spec` gives it.
pub fn parse(lexemes: Vec<Token>) -> (r: Result<Vec<Ast>, Error>)
    ensures
        match r {
            Ok(v) => parse_spec(lexemes.deep_view()) == Ok::<Seq<SpecAst>, ErrorV>(asts_view(v@)),
            Err(e) => parse_spec(lexemes.deep_view()) == Err::<Seq<SpecAst>, ErrorV>(e@),
        },
{
    let ghost all = lexemes.deep_view();
    let mut stack_parens: Vec<ListType> = Vec::new();
    let mut stack_lists: Vec<Vec<Ast>> = Vec::new();
    let mut current_list: Vec<Ast> = Vec::new();
    proof {
        assert((ParseSt {
            kinds: stack_parens@,
            parents: parents_view(stack_lists@),
            current: asts_view(current_list@),
        }) =~= parse_init());
        assert(all.skip(0) =~= all);
    }
    let n = lexemes.len();
    let mut i: usize = 0;
    while i < n
        invariant
            n == lexemes@.len(),
            all == lexemes.deep_view(),
            i <= n,
            stack_parens.len() == stack_lists.len(),
            parse_run(all, parse_init()) == parse_run(
                all.skip(i as int),
                ParseSt {
                    kinds: stack_parens@,
                    parents: parents_view(stack_lists@),
                    current: asts_view(current_list@),
                },
            ),
        decreases n - i,
    {
        let ghost st0 = ParseSt {
            kinds: stack_parens@,
            parents: parents_view(stack_lists@),
            current: asts_view(current_list@),
        };
        let ghost ts0 = all.skip(i as int);
        let l = &lexemes[i];
        proof {
            assert(ts0.drop_first() =~= all.skip(i as int + 1));
            assert(ts0[0] == l@);
        }
        match l {
            Token::String(x) => {
                let ghost c0 = current_list@;
                current_list.push(Ast::string(x.clone()));
                proof {
                    lemma_asts_view_push(c0, current_list@.last());
                    assert((ParseSt {
                        kinds: stack_parens@,
                        parents: parents_view(stack_lists@),
                        current: asts_view(current_list@),
                    }) =~= parse_step(st0, ts0[0])->Ok_0);
                }
            },
            Token::Int(x) => {
                let ghost c0 = current_list@;
                current_list.push(Ast::integer(*x));
                proof {
                    lemma_asts_view_push(c0, current_list@.last());
                    assert((ParseSt {
                        kinds: stack_parens@,
                        parents: parents_view(stack_lists@),
                        current: asts_view(current_list@),
                    }) =~= parse_step(st0, ts0[0])->Ok_0);
                }
            },
            Token::Float(x) => {
                let ghost c0 = current_list@;
                current_list.push(Ast::float(*x));
                proof {
                    lemma_asts_view_push(c0, current_list@.last());
                    assert((ParseSt {
                        kinds: stack_parens@,
                        parents: parents_view(stack_lists@),
                        current: asts_view(current_list@),
                    }) =~= parse_step(st0, ts0[0])->Ok_0);
                }
            },
            Token::Symbol(x) => {
                let ghost c0 = current_list@;
                current_list.push(Ast::symbol(x.clone()));
                proof {
                    lemma_asts_view_push(c0, current_list@.last());
                    assert((ParseSt {
                        kinds: stack_parens@,
                        parents: parents_view(stack_lists@),
                        current: asts_view(current_list@),
                    }) =~= parse_step(st0, ts0[0])->Ok_0);
                }
            },
            Token::LeftParen | Token::LeftBrace | Token::LeftBracket => {
                let k = match get_list_type(l) {
                    Some(k) => k,
                    None => ListType::Parens,  // the token is an opening bracket
                };
                stack_parens.push(k);
                let finished = current_list;
                current_list = Vec::new();
                stack_lists.push(finished);
                proof {
                    assert(parents_view(stack_lists@) =~= st0.parents.push(st0.current));
                    assert(asts_view(current_list@) =~= Seq::<SpecAst>::empty());
                    let st1 = ParseSt {
                        kinds: stack_parens@,
                        parents: parents_view(stack_lists@),
                        current: asts_view(current_list@),
                    };
                    assert(st1 =~= parse_step(st0, ts0[0])->Ok_0);
                }
            },
            Token::RightParen | Token::RightBrace | Token::RightBracket => {
                if stack_parens.len() == 0 {
                    proof {
                        assert(parse_run(ts0, st0) == Err::<ParseSt, ErrorV>(ErrorV::Unbalanced));
                    }
                    return Err(Error::Unbalanced);
                }
                let parent_list = match stack_lists.pop() {
                    Some(p) => p,
                    None => Vec::new(),  // the stacks have equal length
                };
                let list_type = match stack_parens.pop() {
                    Some(k) => k,
                    None => ListType::Parens,  // the stacks have equal length
                };
                let ghost pv = parent_list@;
                let mut child_list = current_list;
                current_list = parent_list;
                if !does_terminate(l, list_type) {
                    proof {
                        assert(list_type == st0.kinds.last());
                        assert(parse_run(ts0, st0) == Err::<ParseSt, ErrorV>(ErrorV::Unbalanced));
                    }
                    return Err(Error::Unbalanced);
                }
                apply(&mut child_list);
                current_list.push(Ast::List(AstList { list_type, list: child_list }));
                proof {
                    assert(parents_view(stack_lists@) =~= st0.parents.drop_last());
                    assert(st0.parents.last() == asts_view(pv));
                    lemma_asts_view_len(current_list@);
                    lemma_asts_view_len(pv);
                    assert forall|j: int| 0 <= j < asts_view(current_list@).len() implies
                        asts_view(current_list@)[j] == parse_step(st0, ts0[0])->Ok_0.current[j] by {
                        lemma_asts_view_index(current_list@, j);
                        if j < asts_view(current_list@).len() - 1 {
                            lemma_asts_view_index(pv, j);
                        }
                    }
                    assert(asts_view(current_list@) =~= parse_step(st0, ts0[0])->Ok_0.current);
                    let st1 = ParseSt {
                        kinds: stack_parens@,
                        parents: parents_view(stack_lists@),
                        current: asts_view(current_list@),
                    };
                    assert(st1 =~= parse_step(st0, ts0[0])->Ok_0);
                }
            },
        }
        i = i + 1;
    }
    proof {
        assert(all.skip(n as int) =~= Seq::<TokenV>::empty());
    }
    if stack_parens.is_empty() {
        apply(&mut current_list);
        Ok(current_list)
    } else {
        Err(Error::Unbalanced)
    }
}

/// The reader: the last top-level form of the text, exactly as `read_spec`
/// gives it.
pub fn read(s: String) -> (r: Result<Ast, Error>)
    ensures
        match r {
            Ok(a) => read_spec(s@) == Ok::<SpecAst, ErrorV>(a@),
            Err(e) => read_spec(s@) == Err::<SpecAst, ErrorV>(e@),
        },
{
    let lex = Lexer::new();
    let tokens = match lex.tokenize(s.as_str()) {
        Ok(t) => t,
        Err(_) => {
            return Err(Error::EOF);
        },
    };
    let mut ast_top: Vec<Ast> = match parse(tokens) {
        Ok(v) => v,
        Err(e) => {
            return Err(e);
        },
    };
    proof {
        lemma_asts_view_len(ast_top@);
    }
    if ast_top.len() == 0 {
        Ok(Ast::default())
    } else {
        proof {
            lemma_asts_view_index(ast_top@, ast_top@.len() - 1);
        }
        match ast_top.pop() {
            Some(a) => Ok(a),
            None => Ok(Ast::default()),  // the list is non-empty
        }
    }
}

} // verus!
