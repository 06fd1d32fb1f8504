//! The reader-macro engine: a fixed-window rewrite over a sequence of trees.
//!
//! Each rule scans left to right; where its window matches, the window is
//! replaced by one synthesized call form and the scan restarts from the
//! beginning, so cascading matches are handled; otherwise it advances one
//! position. `apply` runs the rules as successive full passes in a fixed
//! order. The whole pass is specified by `expand_all`.
use vstd::prelude::*;

use crate::ast::{ast_view, asts_view, lemma_asts_view_index, lemma_asts_view_len, Ast, AstLeaf,
    AstList, LeafV, ListType, SpecAst};
use crate::text::str_eq;

verus! {

/// A rewrite rule: the three-window metadata rule, or a two-window rule that
/// replaces a marker symbol by a named call form.
pub enum Rule<'a> {
    WithMeta,
    Simple(&'a str, &'a str),
}

/// Mathematical value of a rule.
pub enum RuleV {
    WithMeta,
    Simple(Seq<char>, Seq<char>),
}

impl<'a> View for Rule<'a> {
    type V = RuleV;

    open spec fn view(&self) -> RuleV {
        match self {
            Rule::WithMeta => RuleV::WithMeta,
            Rule::Simple(m, rep) => RuleV::Simple(m@, rep@),
        }
    }
}

/// The window width the rule examines.
pub open spec fn rule_window(r: RuleV) -> nat {
    match r {
        RuleV::WithMeta => 3,
        RuleV::Simple(_, _) => 2,
    }
}

/// Is this tree the symbol `s`?
pub open spec fn sym_is(a: SpecAst, s: Seq<char>) -> bool {
    a matches SpecAst::Leaf(LeafV::Symbol(t)) && t == s
}

/// Does the rule's window match at offset `i`?
pub open spec fn rule_matches(r: RuleV, s: Seq<SpecAst>, i: int) -> bool {
    match r {
        RuleV::WithMeta => sym_is(s[i], "^"@) && (s[i + 1] matches SpecAst::List(
            ListType::Braces,
            _,
        )),
        RuleV::Simple(m, _) => sym_is(s[i], m),
    }
}

/// The call form that replaces a matched window. For the metadata rule the
/// form (third element) becomes the first operand and the metadata (second
/// element) the second.
pub open spec fn rule_node(r: RuleV, s: Seq<SpecAst>, i: int) -> SpecAst {
    match r {
        RuleV::WithMeta => SpecAst::List(
            ListType::Parens,
            seq![SpecAst::Leaf(LeafV::Symbol("with-meta"@)), s[i + 2], s[i + 1]],
        ),
        RuleV::Simple(_, rep) => SpecAst::List(
            ListType::Parens,
            seq![SpecAst::Leaf(LeafV::Symbol(rep)), s[i + 1]],
        ),
    }
}

/// The sequence with the window at `i` replaced by the synthesized node.
pub open spec fn rewrite_at(r: RuleV, s: Seq<SpecAst>, i: int) -> Seq<SpecAst> {
    s.take(i).push(rule_node(r, s, i)) + s.skip(i + rule_window(r))
}

/// The scan: try the window at `i`; on a match, rewrite and restart from the
/// beginning; otherwise advance. The sequence shrinks at every rewrite, so
/// the scan terminates.
pub open spec fn scan(r: RuleV, s: Seq<SpecAst>, i: nat) -> Seq<SpecAst>
    decreases s.len(), s.len() - i,
{
    if i + rule_window(r) > s.len() {
        s
    } else if rule_matches(r, s, i as int) {
        scan(r, rewrite_at(r, s, i as int), 0)
    } else {
        scan(r, s, i + 1)
    }
}

/// One full pass of a rule, to exhaustion.
pub open spec fn expand_rule(r: RuleV, s: Seq<SpecAst>) -> Seq<SpecAst> {
    scan(r, s, 0)
}

/// All six rules, as successive full passes in their fixed order.
pub open spec fn expand_all(s: Seq<SpecAst>) -> Seq<SpecAst> {
    let s1 = expand_rule(RuleV::WithMeta, s);
    let s2 = expand_rule(RuleV::Simple("'"@, "quote"@), s1);
    let s3 = expand_rule(RuleV::Simple("`"@, "quasiquote"@), s2);
    let s4 = expand_rule(RuleV::Simple("@"@, "deref"@), s3);
    let s5 = expand_rule(RuleV::Simple("~"@, "unquote"@), s4);
    expand_rule(RuleV::Simple("~@"@, "splice-unquote"@), s5)
}

/// Is this tree the symbol written `s`?
pub fn is_symbol_lit(a: &Ast, s: &str) -> (r: bool)
    ensures
        r == sym_is(a@, s@),
{
    match a {
        Ast::Leaf(AstLeaf::Symbol(t)) => str_eq(t.as_str(), s),
        _ => false,
    }
}

/// Is this tree a brace-delimited list?
fn is_braces_list(a: &Ast) -> (r: bool)
    ensures
        r == (a@ matches SpecAst::List(ListType::Braces, _)),
{
    match a {
        Ast::List(al) => al.list_type == ListType::Braces,
        _ => false,
    }
}

/// Does the rule's window match at offset `i`?
fn matches_at(rule: &Rule, ast: &Vec<Ast>, i: usize) -> (r: bool)
    requires
        i + rule_window(rule@) <= ast@.len(),
    ensures
        r == rule_matches(rule@, asts_view(ast@), i as int),
{
    let n = ast.len();
    proof {
        assert(n == ast@.len());
        lemma_asts_view_len(ast@);
        lemma_asts_view_index(ast@, i as int);
        lemma_asts_view_index(ast@, i as int + 1);
    }
    match rule {
        Rule::WithMeta => is_symbol_lit(&ast[i], "^") && is_braces_list(&ast[i + 1]),
        Rule::Simple(m, _) => is_symbol_lit(&ast[i], m),
    }
}

/// One full pass of one rule over the sequence, in place.
pub fn process_rule(rule: &Rule, ast: &mut Vec<Ast>)
    ensures
        asts_view(final(ast)@) == expand_rule(rule@, asts_view(old(ast)@)),
{
    let w: usize = match rule {
        Rule::WithMeta => 3,
        Rule::Simple(_, _) => 2,
    };
    let mut i: usize = 0;
    while ast.len() >= w && i <= ast.len() - w
        invariant
            w == rule_window(rule@),
            i <= ast@.len(),
            scan(rule@, asts_view(ast@), i as nat) == expand_rule(rule@, asts_view(old(ast)@)),
        decreases ast@.len(), ast@.len() - i,
    {
        proof {
            lemma_asts_view_len(ast@);
        }
        if matches_at(rule, ast, i) {
            let ghost v0 = ast@;
            let ghost s0 = asts_view(v0);
            match rule {
                Rule::WithMeta => {
                    let form = ast.remove(i + 2);
                    let meta = ast.remove(i + 1);
                    let mut items: Vec<Ast> = Vec::new();
                    items.push(Ast::symbol(String::from_str("with-meta")));
                    items.push(form);
                    items.push(meta);
                    let node = Ast::parens(items);
                    let _ = ast.remove(i);
                    ast.insert(i, node);
                    proof {
                        lemma_asts_view_len(v0);
                        lemma_asts_view_index(v0, i + 1);
                        lemma_asts_view_index(v0, i + 2);
                        lemma_asts_view_len(items@);
                        lemma_asts_view_index(items@, 0);
                        lemma_asts_view_index(items@, 1);
                        lemma_asts_view_index(items@, 2);
                        assert(ast_view(items@[1]) == s0[i + 2]);
                        assert(ast_view(items@[2]) == s0[i + 1]);
                        assert(asts_view(items@) =~= seq![
                            SpecAst::Leaf(LeafV::Symbol("with-meta"@)),
                            s0[i + 2],
                            s0[i + 1],
                        ]);
                        assert(node@ =~= rule_node(rule@, s0, i as int));
                        lemma_asts_view_len(ast@);
                        assert forall|j: int| 0 <= j < asts_view(ast@).len() implies asts_view(
                            ast@,
                        )[j] == rewrite_at(rule@, s0, i as int)[j] by {
                            lemma_asts_view_index(ast@, j);
                            if j < i {
                                lemma_asts_view_index(v0, j);
                            } else if j > i {
                                lemma_asts_view_index(v0, j + 2);
                            }
                        }
                        assert(asts_view(ast@) =~= rewrite_at(rule@, s0, i as int));
                    }
                },
                Rule::Simple(_, rep) => {
                    let form = ast.remove(i + 1);
                    let mut items: Vec<Ast> = Vec::new();
                    items.push(Ast::symbol(String::from_str(rep)));
                    items.push(form);
                    let node = Ast::parens(items);
                    let _ = ast.remove(i);
                    ast.insert(i, node);
                    proof {
                        lemma_asts_view_len(v0);
                        lemma_asts_view_index(v0, i + 1);
                        lemma_asts_view_len(items@);
                        lemma_asts_view_index(items@, 0);
                        lemma_asts_view_index(items@, 1);
                        assert(ast_view(items@[1]) == s0[i + 1]);
                        assert(asts_view(items@) =~= seq![
                            SpecAst::Leaf(LeafV::Symbol(rep@)),
                            s0[i + 1],
                        ]);
                        assert(node@ =~= rule_node(rule@, s0, i as int));
                        lemma_asts_view_len(ast@);
                        assert forall|j: int| 0 <= j < asts_view(ast@).len() implies asts_view(
                            ast@,
                        )[j] == rewrite_at(rule@, s0, i as int)[j] by {
                            lemma_asts_view_index(ast@, j);
                            if j < i {
                                lemma_asts_view_index(v0, j);
                            } else if j > i {
                                lemma_asts_view_index(v0, j + 1);
                            }
                        }
                        assert(asts_view(ast@) =~= rewrite_at(rule@, s0, i as int));
                    }
                },
            }
            i = 0;
        } else {
            i = i + 1;
        }
    }
    proof {
        lemma_asts_view_len(ast@);
    }
}

/// Apply every reader-macro rule to the sequence, bottom-up callers first.
pub fn apply(ast_list: &mut Vec<Ast>)
    ensures
        asts_view(final(ast_list)@) == expand_all(asts_view(old(ast_list)@)),
{
    process_rule(&Rule::WithMeta, ast_list);
    process_rule(&Rule::Simple("'", "quote"), ast_list);
    process_rule(&Rule::Simple("`", "quasiquote"), ast_list);
    process_rule(&Rule::Simple("@", "deref"), ast_list);
    process_rule(&Rule::Simple("~", "unquote"), ast_list);
    process_rule(&Rule::Simple("~@", "splice-unquote"), ast_list);
}

} // verus!
