//! The evaluator: strict, eager, depth-first reduction of a tree to a value.
//!
//! Symbols resolve through the environment chain; non-paren lists evaluate
//! their elements in place; a non-empty paren list is a call form, where
//! `let*` and `def!` are special forms and any other operator must reduce to
//! a function value, which is applied to the evaluated operands. The whole
//! reduction is specified by `eval_s`, a total function that also gives the
//! final state of the environment arena, even on failure.
use vstd::prelude::*;

use crate::ast::{ast_view, asts_view, lemma_asts_view_index, lemma_asts_view_len,
    lemma_asts_view_push, Ast, AstLeaf, AstList, Builtin, Error, ErrorV, LFunction, LeafV,
    ListType, SpecAst};
use crate::dec::{dec_wf, spec_add, spec_div, spec_mul, spec_sub, Dec};
use crate::env::{env_insert, env_push_child, env_wf, search_in, Env, FrameV};
use crate::macros::{is_symbol_lit, sym_is};

verus! {

/// The size of a tree: its number of nodes.
pub open spec fn size(a: SpecAst) -> nat
    decreases a,
{
    match a {
        SpecAst::Leaf(_) => 1,
        SpecAst::List(_, xs) => 1 + size_seq(xs),
    }
}

/// The summed size of a sequence of trees.
pub open spec fn size_seq(s: Seq<SpecAst>) -> nat
    decreases s,
{
    if s.len() == 0 {
        0
    } else {
        size(s[0]) + size_seq(s.drop_first())
    }
}

pub proof fn lemma_size_pos(a: SpecAst)
    ensures
        size(a) >= 1,
{
}

/// Skipping a prefix never grows the size; skipping a nonempty prefix of a
/// nonempty sequence shrinks it.
pub proof fn lemma_size_seq_skip(s: Seq<SpecAst>, k: int)
    requires
        0 <= k <= s.len(),
    ensures
        size_seq(s.skip(k)) <= size_seq(s),
        k >= 1 ==> size_seq(s.skip(k)) < size_seq(s),
    decreases k,
{
    if k == 0 {
        assert(s.skip(0) =~= s);
    } else {
        lemma_size_seq_skip(s, k - 1);
        assert(s.skip(k - 1).drop_first() =~= s.skip(k));
        assert(s.skip(k - 1)[0] == s[k - 1]);
        lemma_size_pos(s[k - 1]);
    }
}

/// An element never outweighs the whole sequence.
pub proof fn lemma_size_seq_elem(s: Seq<SpecAst>, i: int)
    requires
        0 <= i < s.len(),
    ensures
        size(s[i]) <= size_seq(s),
        s.len() >= 2 ==> size(s[i]) < size_seq(s),
    decreases i,
{
    if i == 0 {
        if s.len() >= 2 {
            lemma_size_pos(s.drop_first()[0]);
            assert(size_seq(s.drop_first()) == size(s.drop_first()[0]) + size_seq(
                s.drop_first().drop_first(),
            ));
        }
    } else {
        lemma_size_seq_elem(s.drop_first(), i - 1);
        lemma_size_pos(s[0]);
        assert(s.drop_first()[i - 1] == s[i]);
    }
}

/// The decimal that a numeric leaf stands for: a well-formed decimal as it
/// is, an integer coerced exactly; anything else is the conversion failure.
pub open spec fn to_num(a: SpecAst) -> Result<Dec, ErrorV> {
    match a {
        SpecAst::Leaf(LeafV::Float(d)) => if dec_wf(d) {
            Ok(d)
        } else {
            Err(ErrorV::EvalError("not a number"@))
        },
        SpecAst::Leaf(LeafV::Int(i)) => Ok(
            Dec { neg: i < 0, mag: (if i < 0 { -i } else { i }) as u64, scale: 0 },
        ),
        SpecAst::Leaf(_) => Err(ErrorV::EvalError("not a number"@)),
        SpecAst::List(_, _) => Err(ErrorV::EvalError("not a leaf"@)),
    }
}

/// One arithmetic operation on decimals, with its failures.
pub open spec fn op_apply(b: Builtin, x: Dec, y: Dec) -> Result<Dec, ErrorV> {
    if b is Div && y.mag == 0 {
        Err(ErrorV::EvalError("division by zero"@))
    } else {
        let o = match b {
            Builtin::Add => spec_add(x, y),
            Builtin::Sub => spec_sub(x, y),
            Builtin::Mul => spec_mul(x, y),
            Builtin::Div => spec_div(x, y),
        };
        match o {
            Some(d) => Ok(d),
            None => Err(ErrorV::EvalError("arithmetic overflow"@)),
        }
    }
}

/// Applying a function value to already-evaluated operands: the first two
/// are coerced to numbers and combined; further operands are ignored.
pub open spec fn apply_s(b: Builtin, args: Seq<SpecAst>) -> Result<SpecAst, ErrorV> {
    if args.len() < 2 {
        Err(ErrorV::EvalError("expected two arguments"@))
    } else {
        match to_num(args[0]) {
            Err(e) => Err(e),
            Ok(x) => match to_num(args[1]) {
                Err(e) => Err(e),
                Ok(y) => match op_apply(b, x, y) {
                    Err(e) => Err(e),
                    Ok(d) => Ok(SpecAst::Leaf(LeafV::Float(d))),
                },
            },
        }
    }
}

/// The whole reduction: the value of `a` under frame `f`, and the arena
/// afterwards. Failures also carry the arena as the mutations so far left
/// it.
pub open spec fn eval_s(a: SpecAst, env: Seq<FrameV>, f: int) -> (Result<SpecAst, ErrorV>, Seq<
    FrameV,
>)
    decreases size(a), 0int,
    via eval_s_dec
{
    match a {
        SpecAst::Leaf(LeafV::Symbol(s)) => (search_in(env, f, s), env),
        SpecAst::Leaf(_) => (Ok(a), env),
        SpecAst::List(lt, items) => {
            if !(lt is Parens) || items.len() == 0 {
                match eval_list_s(items, env, f) {
                    (Ok(vs), env1) => (Ok(SpecAst::List(lt, vs)), env1),
                    (Err(e), env1) => (Err(e), env1),
                }
            } else if sym_is(items[0], "let*"@) {
                eval_let_s(items, env, f)
            } else if sym_is(items[0], "def!"@) {
                eval_def_s(items, env, f)
            } else if items[0] matches SpecAst::Leaf(LeafV::Symbol(_)) {
                match search_in(env, f, items[0]->Leaf_0->Symbol_0) {
                    Err(e) => (Err(e), env),
                    Ok(fa) => if fa matches SpecAst::Leaf(LeafV::Function(_)) {
                        eval_call_s(fa->Leaf_0->Function_0, items.skip(1), env, f)
                    } else {
                        (Err(ErrorV::EvalError("not a function"@)), env)
                    },
                }
            } else if items[0] matches SpecAst::Leaf(LeafV::Function(_)) {
                eval_call_s(items[0]->Leaf_0->Function_0, items.skip(1), env, f)
            } else {
                (Err(ErrorV::EvalError("not a function"@)), env)
            }
        },
    }
}

/// Evaluate the operands of a call form, then apply the callee.
pub open spec fn eval_call_s(b: Builtin, args: Seq<SpecAst>, env: Seq<FrameV>, f: int) -> (
    Result<SpecAst, ErrorV>,
    Seq<FrameV>,
)
    decreases size_seq(args), 2int,
{
    match eval_list_s(args, env, f) {
        (Err(e), env1) => (Err(e), env1),
        (Ok(vs), env1) => (apply_s(b, vs), env1),
    }
}

/// Evaluate every tree of a sequence, left to right, threading the arena.
pub open spec fn eval_list_s(items: Seq<SpecAst>, env: Seq<FrameV>, f: int) -> (Result<
    Seq<SpecAst>,
    ErrorV,
>, Seq<FrameV>)
    decreases size_seq(items), 1int,
    via eval_list_s_dec
{
    if items.len() == 0 {
        (Ok(Seq::empty()), env)
    } else {
        match eval_s(items[0], env, f) {
            (Err(e), env1) => (Err(e), env1),
            (Ok(v), env1) => match eval_list_s(items.drop_first(), env1, f) {
                (Err(e), env2) => (Err(e), env2),
                (Ok(vs), env2) => (Ok(seq![v] + vs), env2),
            },
        }
    }
}

/// The `let*` special form: one child frame; binding pairs evaluated left to
/// right under it, each visible to the later ones; then the single body.
pub open spec fn eval_let_s(items: Seq<SpecAst>, env: Seq<FrameV>, f: int) -> (Result<
    SpecAst,
    ErrorV,
>, Seq<FrameV>)
    decreases size_seq(items), 1int,
    via eval_let_s_dec
{
    if items.len() < 3 {
        (Err(ErrorV::EvalError("malformed special form"@)), env)
    } else if !(items[1] matches SpecAst::List(_, _)) {
        (Err(ErrorV::EvalError("not a list"@)), env)
    } else {
        let pairs = items[1]->List_1;
        let child = env.len() as int;
        let env1 = env_push_child(env, f);
        match eval_binds_s(pairs, env1, child) {
            (Err(e), env2) => (Err(e), env2),
            (Ok(u), env2) => eval_s(items[2], env2, child),
        }
    }
}

/// The binding pairs of a `let*`, processed two by two.
pub open spec fn eval_binds_s(pairs: Seq<SpecAst>, env: Seq<FrameV>, f: int) -> (Result<
    (),
    ErrorV,
>, Seq<FrameV>)
    decreases size_seq(pairs), 1int,
    via eval_binds_s_dec
{
    if pairs.len() == 0 {
        (Ok(()), env)
    } else if pairs.len() == 1 {
        (Err(ErrorV::EvalError("malformed special form"@)), env)
    } else {
        match eval_s(pairs[1], env, f) {
            (Err(e), env1) => (Err(e), env1),
            (Ok(v), env1) => if pairs[0] matches SpecAst::Leaf(LeafV::Symbol(_)) {
                eval_binds_s(pairs.skip(2), env_insert(env1, f, pairs[0]->Leaf_0->Symbol_0, v), f)
            } else {
                (Err(ErrorV::EvalError("not a symbol"@)), env1)
            },
        }
    }
}

/// The `def!` special form: evaluate the operand under the current frame,
/// then bind it there; the bound value is the result.
pub open spec fn eval_def_s(items: Seq<SpecAst>, env: Seq<FrameV>, f: int) -> (Result<
    SpecAst,
    ErrorV,
>, Seq<FrameV>)
    decreases size_seq(items), 1int,
    via eval_def_s_dec
{
    if items.len() < 3 {
        (Err(ErrorV::EvalError("malformed special form"@)), env)
    } else {
        match eval_s(items[2], env, f) {
            (Err(e), env1) => (Err(e), env1),
            (Ok(v), env1) => if items[1] matches SpecAst::Leaf(LeafV::Symbol(_)) {
                (Ok(v), env_insert(env1, f, items[1]->Leaf_0->Symbol_0, v))
            } else {
                (Err(ErrorV::EvalError("not a symbol"@)), env1)
            },
        }
    }
}

#[via_fn]
proof fn eval_s_dec(a: SpecAst, env: Seq<FrameV>, f: int) {
    if a matches SpecAst::List(_, _) {
        let items = a->List_1;
        if items.len() >= 1 {
            lemma_size_seq_skip(items, 1);
        }
    }
}

#[via_fn]
proof fn eval_list_s_dec(items: Seq<SpecAst>, env: Seq<FrameV>, f: int) {
    if items.len() > 0 {
        lemma_size_pos(items[0]);
    }
}

#[via_fn]
proof fn eval_let_s_dec(items: Seq<SpecAst>, env: Seq<FrameV>, f: int) {
    if items.len() >= 3 {
        lemma_size_seq_elem(items, 1);
        lemma_size_seq_elem(items, 2);
    }
}

#[via_fn]
proof fn eval_binds_s_dec(pairs: Seq<SpecAst>, env: Seq<FrameV>, f: int) {
    if pairs.len() >= 2 {
        lemma_size_seq_elem(pairs, 1);
        lemma_size_seq_skip(pairs, 2);
    }
}

#[via_fn]
proof fn eval_def_s_dec(items: Seq<SpecAst>, env: Seq<FrameV>, f: int) {
    if items.len() >= 3 {
        lemma_size_seq_elem(items, 2);
    }
}


/// The decimal value of a numeric leaf, or the conversion failure.
pub fn ast_to_dec(a: &Ast) -> (r: Result<Dec, Error>)
    ensures
        match r {
            Ok(d) => to_num(a@) == Ok::<Dec, ErrorV>(d) && dec_wf(d),
            Err(e) => to_num(a@) == Err::<Dec, ErrorV>(e@),
        },
{
    match a {
        Ast::Leaf(AstLeaf::Float(d)) => {
            if d.is_wf() {
                Ok(*d)
            } else {
                Err(Error::EvalError(String::from_str("not a number")))
            }
        },
        Ast::Leaf(AstLeaf::Int(i)) => Ok(Dec::from_int(*i)),
        Ast::Leaf(_) => Err(Error::EvalError(String::from_str("not a number"))),
        Ast::List(_) => Err(Error::EvalError(String::from_str("not a leaf"))),
    }
}

/// Apply a function value to already-evaluated operands.
pub fn apply(f: LFunction, args: &Vec<Ast>) -> (r: Result<Ast, Error>)
    ensures
        match r {
            Ok(a) => apply_s(f.op, asts_view(args@)) == Ok::<SpecAst, ErrorV>(a@),
            Err(e) => apply_s(f.op, asts_view(args@)) == Err::<SpecAst, ErrorV>(e@),
        },
{
    proof {
        lemma_asts_view_len(args@);
    }
    if args.len() < 2 {
        return Err(Error::EvalError(String::from_str("expected two arguments")));
    }
    proof {
        lemma_asts_view_index(args@, 0);
        lemma_asts_view_index(args@, 1);
    }
    let x = match ast_to_dec(&args[0]) {
        Ok(d) => d,
        Err(e) => {
            return Err(e);
        },
    };
    let y = match ast_to_dec(&args[1]) {
        Ok(d) => d,
        Err(e) => {
            return Err(e);
        },
    };
    if matches!(f.op, Builtin::Div) && y.is_zero() {
        return Err(Error::EvalError(String::from_str("division by zero")));
    }
    let o = match f.op {
        Builtin::Add => x.add(y),
        Builtin::Sub => x.sub(y),
        Builtin::Mul => x.mul(y),
        Builtin::Div => x.div(y),
    };
    match o {
        Some(d) => Ok(Ast::float(d)),
        None => Err(Error::EvalError(String::from_str("arithmetic overflow"))),
    }
}

/// The evaluator. The result and the final arena are exactly what `eval_s`
/// gives; the arena stays well-formed and only grows.
pub fn eval(ast: &Ast, env: &mut Env, frame: usize) -> (r: Result<Ast, Error>)
    requires
        env_wf(old(env)@),
        frame < old(env)@.len(),
    ensures
        ({
            let (res, envf) = eval_s(ast@, old(env)@, frame as int);
            &&& final(env)@ == envf
            &&& env_wf(final(env)@)
            &&& old(env)@.len() <= final(env)@.len()
            &&& match r {
                Ok(a) => res == Ok::<SpecAst, ErrorV>(a@),
                Err(e) => res == Err::<SpecAst, ErrorV>(e@),
            }
        }),
    decreases size(ast@), 0int,
{
    match ast {
        Ast::Leaf(AstLeaf::Symbol(s)) => env.search(frame, s.as_str()),
        Ast::Leaf(_) => Ok(ast.duplicate()),
        Ast::List(al) => {
            proof {
                lemma_asts_view_len(al.list@);
                if al.list@.len() > 0 {
                    lemma_asts_view_index(al.list@, 0);
                    lemma_size_seq_skip(asts_view(al.list@), 1);
                }
            }
            if al.list_type == ListType::Parens && al.list.len() > 0 {
                if is_symbol_lit(&al.list[0], "let*") {
                    eval_let(&al.list, env, frame)
                } else if is_symbol_lit(&al.list[0], "def!") {
                    eval_def(&al.list, env, frame)
                } else {
                    match &al.list[0] {
                        Ast::Leaf(AstLeaf::Symbol(s)) => {
                            let fa = match env.search(frame, s.as_str()) {
                                Ok(v) => v,
                                Err(e) => {
                                    return Err(e);
                                },
                            };
                            let lf = match fa.get_function() {
                                Ok(lf) => lf,
                                Err(e) => {
                                    return Err(e);
                                },
                            };
                            function_call(&al.list, env, frame, lf)
                        },
                        Ast::Leaf(AstLeaf::Function(lf)) => function_call(&al.list, env, frame, *lf),
                        _ => Err(Error::EvalError(String::from_str("not a function"))),
                    }
                }
            } else {
                proof {
                    assert(asts_view(al.list@).skip(0) =~= asts_view(al.list@));
                }
                let vs = match eval_elems(&al.list, 0, env, frame) {
                    Ok(v) => v,
                    Err(e) => {
                        return Err(e);
                    },
                };
                proof {
                    assert(asts_view(al.list@).skip(0) =~= asts_view(al.list@));
                }
                Ok(Ast::List(AstList { list_type: al.list_type, list: vs }))
            }
        },
    }
}

/// Evaluate the operands of a call form, then apply the callee.
fn function_call(list: &Vec<Ast>, env: &mut Env, frame: usize, f: LFunction) -> (r: Result<
    Ast,
    Error,
>)
    requires
        env_wf(old(env)@),
        frame < old(env)@.len(),
        list@.len() >= 1,
    ensures
        ({
            let (res, envf) = eval_call_s(f.op, asts_view(list@).skip(1), old(env)@, frame as int);
            &&& final(env)@ == envf
            &&& env_wf(final(env)@)
            &&& old(env)@.len() <= final(env)@.len()
            &&& match r {
                Ok(a) => res == Ok::<SpecAst, ErrorV>(a@),
                Err(e) => res == Err::<SpecAst, ErrorV>(e@),
            }
        }),
    decreases size_seq(asts_view(list@).skip(1)), 2int,
{
    let vs = match eval_elems(list, 1, env, frame) {
        Ok(v) => v,
        Err(e) => {
            return Err(e);
        },
    };
    apply(f, &vs)
}

/// Evaluate the elements of `items` from `start` on, left to right.
fn eval_elems(items: &Vec<Ast>, start: usize, env: &mut Env, frame: usize) -> (r: Result<
    Vec<Ast>,
    Error,
>)
    requires
        env_wf(old(env)@),
        frame < old(env)@.len(),
        start <= items@.len(),
    ensures
        ({
            let (res, envf) = eval_list_s(
                asts_view(items@).skip(start as int),
                old(env)@,
                frame as int,
            );
            &&& final(env)@ == envf
            &&& env_wf(final(env)@)
            &&& old(env)@.len() <= final(env)@.len()
            &&& match r {
                Ok(vs) => res == Ok::<Seq<SpecAst>, ErrorV>(asts_view(vs@)),
                Err(e) => res == Err::<Seq<SpecAst>, ErrorV>(e@),
            }
        }),
    decreases size_seq(asts_view(items@).skip(start as int)), 1int,
{
    let ghost s = asts_view(items@);
    let ghost env0 = env@;
    let n = items.len();
    proof {
        lemma_asts_view_len(items@);
    }
    let mut out: Vec<Ast> = Vec::new();
    let mut i: usize = start;
    while i < n
        invariant
            n == items@.len(),
            s == asts_view(items@),
            s.len() == n,
            env0 == old(env)@,
            start <= i <= n,
            env_wf(env@),
            frame < env@.len(),
            env0.len() <= env@.len(),
            eval_list_s(s.skip(start as int), env0, frame as int) == (match eval_list_s(
                s.skip(i as int),
                env@,
                frame as int,
            ) {
                (Ok(vs), e) => (Ok::<Seq<SpecAst>, ErrorV>(asts_view(out@) + vs), e),
                (Err(er), e) => (Err::<Seq<SpecAst>, ErrorV>(er), e),
            }),
        decreases n - i,
    {
        proof {
            lemma_asts_view_index(items@, i as int);
            assert(s.skip(i as int)[0] == s[i as int]);
            assert(s.skip(i as int).drop_first() =~= s.skip(i as int + 1));
            lemma_size_seq_skip(s, start as int);
            lemma_size_seq_skip(s.skip(start as int), i - start);
            assert(s.skip(start as int).skip(i - start) =~= s.skip(i as int));
            lemma_size_seq_elem(s.skip(i as int), 0);
        }
        let v = match eval(&items[i], env, frame) {
            Ok(v) => v,
            Err(e) => {
                return Err(e);
            },
        };
        let ghost o0 = out@;
        out.push(v);
        proof {
            lemma_asts_view_push(o0, out@.last());
            assert forall|vs: Seq<SpecAst>|
                true implies asts_view(o0) + (seq![ast_view(out@.last())] + vs) =~= asts_view(out@)
                + vs by {
                assert(asts_view(o0) + (seq![ast_view(out@.last())] + vs) =~= asts_view(o0).push(
                    ast_view(out@.last()),
                ) + vs);
            }
        }
        i = i + 1;
    }
    proof {
        assert(s.skip(n as int) =~= Seq::<SpecAst>::empty());
        assert(asts_view(out@) + Seq::<SpecAst>::empty() =~= asts_view(out@));
    }
    Ok(out)
}

/// The `let*` special form.
fn eval_let(items: &Vec<Ast>, env: &mut Env, frame: usize) -> (r: Result<Ast, Error>)
    requires
        env_wf(old(env)@),
        frame < old(env)@.len(),
    ensures
        ({
            let (res, envf) = eval_let_s(asts_view(items@), old(env)@, frame as int);
            &&& final(env)@ == envf
            &&& env_wf(final(env)@)
            &&& old(env)@.len() <= final(env)@.len()
            &&& match r {
                Ok(a) => res == Ok::<SpecAst, ErrorV>(a@),
                Err(e) => res == Err::<SpecAst, ErrorV>(e@),
            }
        }),
    decreases size_seq(asts_view(items@)), 1int,
{
    let ghost s = asts_view(items@);
    proof {
        lemma_asts_view_len(items@);
    }
    if items.len() < 3 {
        return Err(Error::EvalError(String::from_str("malformed special form")));
    }
    proof {
        lemma_asts_view_index(items@, 1);
        lemma_asts_view_index(items@, 2);
        lemma_size_seq_elem(s, 1);
        lemma_size_seq_elem(s, 2);
    }
    let bal = match &items[1] {
        Ast::List(bal) => bal,
        Ast::Leaf(_) => {
            return Err(Error::EvalError(String::from_str("not a list")));
        },
    };
    let ghost pv = asts_view(bal.list@);
    let child = env.push_frame(Some(frame));
    let ghost env1 = env@;
    proof {
        lemma_asts_view_len(bal.list@);
        assert(env1 =~= crate::env::env_push_child(old(env)@, frame as int));
    }
    let np = bal.list.len();
    let mut k: usize = 0;
    proof {
        assert(pv.skip(0) =~= pv);
    }
    while k < np
        invariant
            np == bal.list@.len(),
            pv == asts_view(bal.list@),
            pv.len() == np,
            s == asts_view(items@),
            s.len() == items@.len(),
            3 <= s.len(),
            s[1] == SpecAst::List(bal.list_type, pv),
            env1 == env_push_child(old(env)@, frame as int),
            child == old(env)@.len(),
            old(env)@.len() <= env1.len(),
            k <= np,
            env_wf(env@),
            child < env@.len(),
            frame < env@.len(),
            env1.len() <= env@.len(),
            eval_binds_s(pv, env1, child as int) == eval_binds_s(
                pv.skip(k as int),
                env@,
                child as int,
            ),
        decreases np - k,
    {
        proof {
            lemma_asts_view_index(bal.list@, k as int);
            assert(pv.skip(k as int)[0] == pv[k as int]);
            lemma_size_seq_skip(pv, k as int);
            lemma_size_seq_elem(s, 1);
        }
        if k + 1 == np {
            return Err(Error::EvalError(String::from_str("malformed special form")));
        }
        proof {
            lemma_asts_view_index(bal.list@, k as int + 1);
            assert(pv.skip(k as int)[1] == pv[k as int + 1]);
            lemma_size_seq_elem(pv.skip(k as int), 1);
            assert(pv.skip(k as int).skip(2) =~= pv.skip(k as int + 2));
        }
        let v = match eval(&bal.list[k + 1], env, child) {
            Ok(v) => v,
            Err(e) => {
                return Err(e);
            },
        };
        match &bal.list[k] {
            Ast::Leaf(AstLeaf::Symbol(name)) => {
                env.insert(child, name.clone(), v);
            },
            _ => {
                return Err(Error::EvalError(String::from_str("not a symbol")));
            },
        }
        k = k + 2;
    }
    proof {
        assert(pv.skip(np as int) =~= Seq::<SpecAst>::empty());
    }
    eval(&items[2], env, child)
}

/// The `def!` special form.
fn eval_def(items: &Vec<Ast>, env: &mut Env, frame: usize) -> (r: Result<Ast, Error>)
    requires
        env_wf(old(env)@),
        frame < old(env)@.len(),
    ensures
        ({
            let (res, envf) = eval_def_s(asts_view(items@), old(env)@, frame as int);
            &&& final(env)@ == envf
            &&& env_wf(final(env)@)
            &&& old(env)@.len() <= final(env)@.len()
            &&& match r {
                Ok(a) => res == Ok::<SpecAst, ErrorV>(a@),
                Err(e) => res == Err::<SpecAst, ErrorV>(e@),
            }
        }),
    decreases size_seq(asts_view(items@)), 1int,
{
    let ghost s = asts_view(items@);
    proof {
        lemma_asts_view_len(items@);
    }
    if items.len() < 3 {
        return Err(Error::EvalError(String::from_str("malformed special form")));
    }
    proof {
        lemma_asts_view_index(items@, 1);
        lemma_asts_view_index(items@, 2);
        lemma_size_seq_elem(s, 2);
    }
    let v = match eval(&items[2], env, frame) {
        Ok(v) => v,
        Err(e) => {
            return Err(e);
        },
    };
    match &items[1] {
        Ast::Leaf(AstLeaf::Symbol(name)) => {
            let out = v.duplicate();
            env.insert(frame, name.clone(), v);
            Ok(out)
        },
        _ => Err(Error::EvalError(String::from_str("not a symbol"))),
    }
}

} // verus!
