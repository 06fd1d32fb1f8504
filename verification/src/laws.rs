//! Laws of the pipeline, stated and proved over its specification.
use vstd::prelude::*;

use crate::ast::{ErrorV, LeafV, ListType, SpecAst, State, TokenV};
use crate::env::{env_insert, env_wf, find_name, frame_insert, lemma_find_name_in_range,
    not_found_msg, search_in, FrameV};
use crate::eval::{eval_list_s, eval_s, lemma_size_pos, size, size_seq};
use crate::lexer::{flush_token, init_st, lex_run, lex_spec, lex_step, spec_whitespace, LexSt,
    INT_POS_MAX};
use crate::parser::read_spec;
use crate::dec::{dec_wf, pow10, Dec};
use crate::lexer::{int_bound, INT_NEG_MAX};
use crate::printer::{dec_digits, digit_char, print_s, print_tail_s};

verus! {

proof fn lemma_search_err_form(env: Seq<FrameV>, f: int, sym: Seq<char>)
    ensures
        search_in(env, f, sym) is Err ==> search_in(env, f, sym) == Err::<SpecAst, ErrorV>(
            ErrorV::EvalError(not_found_msg(sym)),
        ),
    decreases (if f >= 0 {
        f
    } else {
        0
    }),
{
    if 0 <= f < env.len() {
        let fr = env[f];
        if find_name(fr.names, sym) is None {
            match fr.parent {
                Some(p) => {
                    if 0 <= p < f {
                        lemma_search_err_form(env, p, sym);
                    }
                },
                None => {},
            }
        }
    }
}

/// Evaluating a symbol never touches the arena, and when it fails — that
/// is, exactly when no frame of the chain binds the symbol — the failure is
/// the evaluation error whose message names that exact symbol.
pub proof fn lemma_unbound_symbol(env: Seq<FrameV>, f: int, sym: Seq<char>)
    ensures
        eval_s(SpecAst::Leaf(LeafV::Symbol(sym)), env, f).1 == env,
        eval_s(SpecAst::Leaf(LeafV::Symbol(sym)), env, f).0 is Err <==> search_in(env, f, sym)
            is Err,
        eval_s(SpecAst::Leaf(LeafV::Symbol(sym)), env, f).0 is Err ==> eval_s(
            SpecAst::Leaf(LeafV::Symbol(sym)),
            env,
            f,
        ).0 == Err::<SpecAst, ErrorV>(ErrorV::EvalError(not_found_msg(sym))),
{
    lemma_search_err_form(env, f, sym);
}

/// A reduced form: a leaf that is not a symbol, an empty call form, or a
/// bracket or brace list of reduced forms.
pub open spec fn is_value_form(a: SpecAst) -> bool
    decreases a,
{
    match a {
        SpecAst::Leaf(LeafV::Symbol(_)) => false,
        SpecAst::Leaf(_) => true,
        SpecAst::List(lt, xs) => if lt is Parens {
            xs.len() == 0
        } else {
            is_value_seq(xs)
        },
    }
}

pub open spec fn is_value_seq(s: Seq<SpecAst>) -> bool
    decreases s,
{
    s.len() == 0 || (is_value_form(s[0]) && is_value_seq(s.drop_first()))
}

proof fn lemma_eval_value_seq(s: Seq<SpecAst>, env: Seq<FrameV>, f: int)
    requires
        is_value_seq(s),
    ensures
        eval_list_s(s, env, f) == (Ok::<Seq<SpecAst>, ErrorV>(s), env),
    decreases size_seq(s), 1int,
{
    if s.len() > 0 {
        lemma_size_pos(s[0]);
        lemma_eval_value_form(s[0], env, f);
        lemma_eval_value_seq(s.drop_first(), env, f);
        assert(seq![s[0]] + s.drop_first() =~= s);
    } else {
        assert(s =~= Seq::<SpecAst>::empty());
    }
}

/// Reduced forms are fixed points of evaluation: evaluating a reduced form
/// returns it unchanged and leaves the arena as it was, so a second
/// evaluation of an evaluator result built from literals and non-call lists
/// changes nothing. This is the evaluation half of the round-trip stability
/// of read, evaluate and print.
pub proof fn lemma_eval_value_form(a: SpecAst, env: Seq<FrameV>, f: int)
    requires
        is_value_form(a),
    ensures
        eval_s(a, env, f) == (Ok::<SpecAst, ErrorV>(a), env),
    decreases size(a), 0int,
{
    match a {
        SpecAst::Leaf(_) => {},
        SpecAst::List(lt, xs) => {
            if lt is Parens {
                assert(xs =~= Seq::<SpecAst>::empty());
                assert(eval_list_s(xs, env, f) == (Ok::<Seq<SpecAst>, ErrorV>(xs), env));
            } else {
                lemma_eval_value_seq(xs, env, f);
            }
        },
    }
}

proof fn lemma_find_name_push_self(names: Seq<Seq<char>>, s: Seq<char>)
    requires
        find_name(names, s) is None,
    ensures
        find_name(names.push(s), s) == Some(names.len() as int),
    decreases names.len(),
{
    if names.len() == 0 {
        assert(names.push(s)[0] == s);
    } else {
        lemma_find_name_push_self(names.drop_first(), s);
        assert(names.push(s).drop_first() =~= names.drop_first().push(s));
    }
}

/// Binding a symbol makes it the one found: after `def!` writes a value
/// into a frame, looking the symbol up from that frame yields exactly that
/// value — the binding persists in the shared frame for any later
/// evaluation that starts there.
pub proof fn lemma_def_persists(env: Seq<FrameV>, f: int, sym: Seq<char>, v: SpecAst)
    requires
        env_wf(env),
        0 <= f < env.len(),
    ensures
        search_in(env_insert(env, f, sym, v), f, sym) == Ok::<SpecAst, ErrorV>(v),
{
    let fr = env[f];
    let fr1 = frame_insert(fr, sym, v);
    let env1 = env_insert(env, f, sym, v);
    assert(env1[f] == fr1);
    match find_name(fr.names, sym) {
        Some(j) => {
            lemma_find_name_in_range(fr.names, sym);
            assert(fr1.names == fr.names);
            assert(fr1.values[j] == v);
        },
        None => {
            lemma_find_name_push_self(fr.names, sym);
            assert(fr1.values[fr.names.len() as int] == v);
        },
    }
}

proof fn lemma_lex_run_concat(s1: Seq<char>, s2: Seq<char>, st: LexSt)
    ensures
        lex_run(s1 + s2, st) == match lex_run(s1, st) {
            Ok(st1) => lex_run(s2, st1),
            Err(e) => Err(e),
        },
    decreases s1.len(),
{
    if s1.len() == 0 {
        assert(s1 + s2 =~= s2);
    } else {
        assert((s1 + s2)[0] == s1[0]);
        match lex_step(st, s1[0]) {
            Err(_) => {},
            Ok(st1) => {
                assert((s1 + s2).drop_first() =~= s1.drop_first() + s2);
                lemma_lex_run_concat(s1.drop_first(), s2, st1);
            },
        }
    }
}

/// A decimal digit terminates nothing: it is a graphic character and none
/// of the lexer's standalone characters.
proof fn lemma_digit_char_plain(d: nat)
    requires
        d <= 9,
    ensures
        '0' <= digit_char(d) && digit_char(d) <= '9',
        !spec_whitespace(digit_char(d)),
        digit_char(d) != ';' && digit_char(d) != '(' && digit_char(d) != ')',
        digit_char(d) != '[' && digit_char(d) != ']' && digit_char(d) != '{',
        digit_char(d) != '}' && digit_char(d) != '-' && digit_char(d) != '"',
        digit_char(d) != '.' && digit_char(d) != ',',
        crate::lexer::digit_val(digit_char(d)) == d,
{
}

proof fn lemma_pow10_pos(e: nat)
    ensures
        pow10(e) >= 1,
    decreases e,
{
    if e > 0 {
        lemma_pow10_pos((e - 1) as nat);
    }
}

/// Reading a printed digit string accumulates exactly its value, whether
/// the machine stands at the start of a token, just after a minus sign, or
/// inside a number.
proof fn lemma_lex_digits(n: nat, st: LexSt)
    requires
        ((st.state is Init || st.state is Minus) && st.mag == 0) || st.state is Num,
        st.mag * pow10(dec_digits(n).len()) + n <= int_bound(st.neg),
    ensures
        lex_run(dec_digits(n), st) == Ok::<LexSt, ErrorV>(
            LexSt {
                state: State::Num,
                buffer: st.buffer + dec_digits(n),
                mag: (st.mag * pow10(dec_digits(n).len()) + n) as nat,
                ..st
            },
        ),
    decreases n,
{
    reveal_with_fuel(lex_run, 4);
    reveal_with_fuel(pow10, 3);
    if n < 10 {
        lemma_digit_char_plain(n);
        let c = digit_char(n);
        assert(dec_digits(n) =~= seq![c]);
        assert(seq![c].drop_first() =~= Seq::<char>::empty());
        assert(pow10(1) == 10);
        let m1: nat = (st.mag * 10 + n) as nat;
        assert(lex_step(st, c) == Ok::<LexSt, ErrorV>(
            LexSt { state: State::Num, buffer: st.buffer.push(c), mag: m1, ..st },
        ));
        assert(st.buffer.push(c) =~= st.buffer + dec_digits(n));
    } else {
        let c = digit_char(n % 10);
        let rest = dec_digits(n / 10);
        let ghost ll = rest.len();
        assert(dec_digits(n) == rest.push(c));
        assert(dec_digits(n).len() == ll + 1);
        assert(pow10(ll + 1) == 10 * pow10(ll));
        lemma_pow10_pos(ll);
        assert(st.mag * pow10(ll + 1) == (st.mag * pow10(ll)) * 10) by (nonlinear_arith);
        assert(st.mag * pow10(ll) + n / 10 <= int_bound(st.neg)) by (nonlinear_arith)
            requires
                (st.mag * pow10(ll)) * 10 + n <= int_bound(st.neg),
                n >= 10,
                n / 10 == (n - n % 10) / 10,
                0 <= n % 10 <= 9,
        ;
        lemma_lex_digits(n / 10, st);
        lemma_digit_char_plain(n % 10);
        let st1 = LexSt {
            state: State::Num,
            buffer: st.buffer + rest,
            mag: (st.mag * pow10(ll) + n / 10) as nat,
            ..st
        };
        assert(rest + seq![c] =~= dec_digits(n));
        lemma_lex_run_concat(rest, seq![c], st);
        assert(st1.mag * 10 + (n % 10) == st.mag * pow10(ll + 1) + n) by (nonlinear_arith)
            requires
                st1.mag == st.mag * pow10(ll) + n / 10,
                st.mag * pow10(ll + 1) == (st.mag * pow10(ll)) * 10,
                n >= 10,
        ;
        assert(lex_step(st1, c) == Ok::<LexSt, ErrorV>(
            LexSt { buffer: st1.buffer.push(c), mag: (st1.mag * 10 + n % 10) as nat, ..st1 },
        ));
        assert(seq![c].drop_first() =~= Seq::<char>::empty());
        assert(st1.buffer.push(c) =~= st.buffer + dec_digits(n));
        assert(lex_run(dec_digits(n), st) == Ok::<LexSt, ErrorV>(
            LexSt {
                state: State::Num,
                buffer: st.buffer + dec_digits(n),
                mag: (st.mag * pow10(dec_digits(n).len()) + n) as nat,
                ..st
            },
        ));
    }
}

proof fn lemma_lex_string_chars(cs: Seq<char>, st: LexSt)
    requires
        st.state is StringStart,
        forall|k: int| 0 <= k < cs.len() ==> cs[k] != '"' && cs[k] != '\\',
    ensures
        lex_run(cs, st) == Ok::<LexSt, ErrorV>(LexSt { buffer: st.buffer + cs, ..st }),
    decreases cs.len(),
{
    reveal_with_fuel(lex_run, 2);
    if cs.len() == 0 {
        assert(st.buffer + cs =~= st.buffer);
        assert((LexSt { buffer: st.buffer + cs, ..st }) =~= st);
    } else {
        let st1 = LexSt { buffer: st.buffer.push(cs[0]), ..st };
        assert(lex_step(st, cs[0]) == Ok::<LexSt, ErrorV>(st1));
        lemma_lex_string_chars(cs.drop_first(), st1);
        assert(st.buffer.push(cs[0]) + cs.drop_first() =~= st.buffer + cs);
    }
}

/// A literal leaf that prints to text the lexer reads back: a machine
/// integer, a non-empty string without quote or backslash, or a canonical
/// decimal with fractional digits whose integer part a literal may carry.
pub open spec fn leaf_ok(a: SpecAst) -> bool {
    match a {
        SpecAst::Leaf(LeafV::Int(i)) => -(INT_NEG_MAX as int) <= i <= INT_POS_MAX,
        SpecAst::Leaf(LeafV::String(t)) => t.len() >= 1 && (forall|k: int|
            0 <= k < t.len() ==> t[k] != '"' && t[k] != '\\'),
        SpecAst::Leaf(LeafV::Float(d)) => dec_wf(d) && d.scale >= 1 && d.mag as nat / pow10(
            d.scale as nat,
        ) <= int_bound(d.neg),
        _ => false,
    }
}

/// The token that such a leaf lexes to.
pub open spec fn tok_of(a: SpecAst) -> TokenV {
    match a {
        SpecAst::Leaf(LeafV::Int(i)) => TokenV::Int(i),
        SpecAst::Leaf(LeafV::String(t)) => TokenV::String(t),
        SpecAst::Leaf(LeafV::Float(d)) => TokenV::Float(d),
        _ => TokenV::Int(0),
    }
}

/// The lexer state pending after the printed text of such a leaf, before
/// any terminator flushes it.
pub open spec fn pending_st(a: SpecAst, st: LexSt) -> LexSt {
    match a {
        SpecAst::Leaf(LeafV::Int(i)) => LexSt {
            state: State::Num,
            buffer: st.buffer + print_s(a),
            mag: (if i < 0 { -i } else { i }) as nat,
            neg: i < 0,
            ..st
        },
        SpecAst::Leaf(LeafV::String(t)) => LexSt {
            state: State::StringClose,
            buffer: st.buffer + t,
            ..st
        },
        SpecAst::Leaf(LeafV::Float(d)) => LexSt {
            state: State::Float,
            buffer: st.buffer + print_s(a),
            mag: d.mag as nat,
            neg: d.neg,
            scale: d.scale as nat,
            ..st
        },
        _ => st,
    }
}

/// Reading the zero-padded fractional digits accumulates them into the
/// mantissa and counts them in the scale, whether the machine stands just
/// after the dot or inside the fraction.
proof fn lemma_lex_frac(m: nat, k: nat, st: LexSt)
    requires
        k >= 1,
        m < pow10(k),
        st.state is Dot || st.state is Float,
        st.mag * pow10(k) + m <= crate::dec::MAG_MAX,
        (if st.state is Dot {
            0
        } else {
            st.scale
        }) + k <= crate::dec::SCALE_MAX,
    ensures
        lex_run(crate::printer::pad_digits(m, k), st) == Ok::<LexSt, ErrorV>(
            LexSt {
                state: State::Float,
                buffer: st.buffer + crate::printer::pad_digits(m, k),
                mag: (st.mag * pow10(k) + m) as nat,
                scale: ((if st.state is Dot {
                    0
                } else {
                    st.scale
                }) + k) as nat,
                ..st
            },
        ),
    decreases k,
{
    reveal_with_fuel(lex_run, 3);
    reveal_with_fuel(pow10, 3);
    reveal_with_fuel(crate::printer::pad_digits, 3);
    let pd = crate::printer::pad_digits(m, k);
    if k == 1 {
        lemma_digit_char_plain(m % 10);
        let c = digit_char(m % 10);
        assert(m % 10 == m);
        assert(pd =~= seq![c]);
        assert(seq![c].drop_first() =~= Seq::<char>::empty());
        let st1 = lex_step(st, c)->Ok_0;
        assert(lex_step(st, c) is Ok);
        assert(st.buffer.push(c) =~= st.buffer + pd);
        assert(lex_run(pd, st)->Ok_0 =~= LexSt {
            state: State::Float,
            buffer: st.buffer + pd,
            mag: (st.mag * pow10(1) + m) as nat,
            scale: ((if st.state is Dot {
                0
            } else {
                st.scale
            }) + 1) as nat,
            ..st
        });
    } else {
        let c = digit_char(m % 10);
        lemma_digit_char_plain(m % 10);
        let rest = crate::printer::pad_digits(m / 10, (k - 1) as nat);
        assert(pd == rest.push(c));
        assert(rest + seq![c] =~= pd);
        assert(pow10(k) == 10 * pow10((k - 1) as nat));
        lemma_pow10_pos((k - 1) as nat);
        assert(m / 10 < pow10((k - 1) as nat)) by (nonlinear_arith)
            requires
                m < pow10(k),
                pow10(k) == 10 * pow10((k - 1) as nat),
                pow10((k - 1) as nat) >= 1,
        ;
        assert(st.mag * pow10((k - 1) as nat) + m / 10 <= crate::dec::MAG_MAX)
            by (nonlinear_arith)
            requires
                st.mag * pow10(k) + m <= crate::dec::MAG_MAX,
                pow10(k) == 10 * pow10((k - 1) as nat),
                0 <= m % 10 <= 9,
                m / 10 == (m - m % 10) / 10,
        ;
        lemma_lex_frac(m / 10, (k - 1) as nat, st);
        let s0: nat = if st.state is Dot {
            0
        } else {
            st.scale
        };
        let st1 = LexSt {
            state: State::Float,
            buffer: st.buffer + rest,
            mag: (st.mag * pow10((k - 1) as nat) + m / 10) as nat,
            scale: (s0 + k - 1) as nat,
            ..st
        };
        lemma_lex_run_concat(rest, seq![c], st);
        assert(st1.mag * 10 + (m % 10) == st.mag * pow10(k) + m) by (nonlinear_arith)
            requires
                st1.mag == st.mag * pow10((k - 1) as nat) + m / 10,
                pow10(k) == 10 * pow10((k - 1) as nat),
                0 <= m % 10 <= 9,
                m == 10 * (m / 10) + m % 10,
        ;
        assert(lex_step(st1, c) == Ok::<LexSt, ErrorV>(
            LexSt {
                buffer: st1.buffer.push(c),
                mag: (st1.mag * 10 + m % 10) as nat,
                scale: (st1.scale + 1) as nat,
                ..st1
            },
        ));
        assert(seq![c].drop_first() =~= Seq::<char>::empty());
        assert(st1.buffer.push(c) =~= st.buffer + pd);
        assert(lex_run(pd, st)->Ok_0 =~= LexSt {
            state: State::Float,
            buffer: st.buffer + pd,
            mag: (st.mag * pow10(k) + m) as nat,
            scale: (s0 + k) as nat,
            ..st
        });
    }
}

/// Lexing the printed text of a literal leaf from the start of a token
/// leaves its token pending, ready for the next terminator to flush.
proof fn lemma_lex_leaf(a: SpecAst, st: LexSt)
    requires
        leaf_ok(a),
        st.state is Init,
        st.buffer.len() == 0,
        st.mag == 0,
        st.neg == false,
        st.scale == 0,
    ensures
        lex_run(print_s(a), st) == Ok::<LexSt, ErrorV>(pending_st(a, st)),
        flush_token(pending_st(a, st)) == Ok::<TokenV, ErrorV>(tok_of(a)),
        pending_st(a, st).tokens == st.tokens,
        pending_st(a, st).buffer.len() >= 1,
        pending_st(a, st).state is Num || pending_st(a, st).state is StringClose || pending_st(
            a,
            st,
        ).state is Float,
    decreases 0int,
{
    reveal_with_fuel(lex_run, 4);
    match a {
        SpecAst::Leaf(LeafV::Int(i)) => {
            if i >= 0 {
                let n = i as nat;
                assert(print_s(a) == dec_digits(n));
                assert(0 * pow10(dec_digits(n).len()) + n == n);
                lemma_lex_digits(n, st);
                assert(dec_digits(n).len() >= 1) by {
                    if n < 10 {
                    }
                }
                assert(lex_run(print_s(a), st)->Ok_0 =~= pending_st(a, st));
            } else {
                let n = (-i) as nat;
                assert(print_s(a) == seq!['-'] + dec_digits(n));
                let st1 = LexSt { state: State::Minus, buffer: st.buffer.push('-'), neg: true, ..st };
                assert(lex_step(st, '-') == Ok::<LexSt, ErrorV>(st1));
                assert(seq!['-'].drop_first() =~= Seq::<char>::empty());
                lemma_lex_run_concat(seq!['-'], dec_digits(n), st);
                assert(0 * pow10(dec_digits(n).len()) + n == n);
                lemma_lex_digits(n, st1);
                assert(dec_digits(n).len() >= 1) by {
                    if n < 10 {
                    }
                }
                assert(st1.buffer + dec_digits(n) =~= st.buffer + print_s(a));
                assert(lex_run(print_s(a), st)->Ok_0 =~= pending_st(a, st));
            }
        },
        SpecAst::Leaf(LeafV::String(t)) => {
            assert(print_s(a) == seq!['"'] + t + seq!['"']);
            let st1 = LexSt { state: State::StringStart, ..st };
            assert(lex_step(st, '"') == Ok::<LexSt, ErrorV>(st1));
            assert(seq!['"'].drop_first() =~= Seq::<char>::empty());
            assert(print_s(a) =~= seq!['"'] + (t + seq!['"']));
            lemma_lex_run_concat(seq!['"'], t + seq!['"'], st);
            lemma_lex_run_concat(t, seq!['"'], st1);
            lemma_lex_string_chars(t, st1);
            let st2 = LexSt { buffer: st1.buffer + t, ..st1 };
            let st3 = LexSt { state: State::StringClose, ..st2 };
            assert(lex_step(st2, '"') == Ok::<LexSt, ErrorV>(st3));
            assert(st3 =~= pending_st(a, st));
            assert(st.buffer + t =~= t);
        },
        SpecAst::Leaf(LeafV::Float(d)) => {
            let sc = d.scale as nat;
            let ip = d.mag as nat / pow10(sc);
            let fp = d.mag as nat % pow10(sc);
            lemma_pow10_pos(sc);
            assert(d.mag as nat == pow10(sc) * ip + fp) by (nonlinear_arith)
                requires
                    pow10(sc) >= 1,
                    ip == d.mag as nat / pow10(sc),
                    fp == d.mag as nat % pow10(sc),
            ;
            let sign: Seq<char> = if d.neg {
                seq!['-']
            } else {
                Seq::empty()
            };
            let digits_text = dec_digits(ip) + seq!['.'] + crate::printer::pad_digits(fp, sc);
            assert(print_s(a) == sign + digits_text);
            // the sign, if any, then the integer digits
            let st_start = if d.neg {
                LexSt { state: State::Minus, buffer: st.buffer.push('-'), neg: true, ..st }
            } else {
                st
            };
            if d.neg {
                assert(lex_step(st, '-') == Ok::<LexSt, ErrorV>(st_start));
                assert(seq!['-'].drop_first() =~= Seq::<char>::empty());
                assert(print_s(a) =~= seq!['-'] + digits_text);
                lemma_lex_run_concat(seq!['-'], digits_text, st);
            } else {
                assert(print_s(a) =~= digits_text);
            }
            assert(0 * pow10(dec_digits(ip).len()) + ip == ip);
            lemma_lex_digits(ip, st_start);
            let st_num = LexSt {
                state: State::Num,
                buffer: st_start.buffer + dec_digits(ip),
                mag: ip,
                ..st_start
            };
            // the dot
            assert(digits_text =~= dec_digits(ip) + (seq!['.'] + crate::printer::pad_digits(
                fp,
                sc,
            )));
            lemma_lex_run_concat(
                dec_digits(ip),
                seq!['.'] + crate::printer::pad_digits(fp, sc),
                st_start,
            );
            let st_dot = LexSt { state: State::Dot, buffer: st_num.buffer.push('.'), ..st_num };
            assert(lex_step(st_num, '.') == Ok::<LexSt, ErrorV>(st_dot));
            assert(seq!['.'].drop_first() =~= Seq::<char>::empty());
            lemma_lex_run_concat(seq!['.'], crate::printer::pad_digits(fp, sc), st_num);
            // the fractional digits
            assert(st_dot.mag * pow10(sc) + fp == d.mag as nat) by (nonlinear_arith)
                requires
                    st_dot.mag == ip,
                    d.mag as nat == pow10(sc) * ip + fp,
            ;
            lemma_lex_frac(fp, sc, st_dot);
            let stf = LexSt {
                state: State::Float,
                buffer: st_dot.buffer + crate::printer::pad_digits(fp, sc),
                mag: d.mag as nat,
                scale: sc,
                ..st_dot
            };
            assert(stf.buffer =~= st.buffer + print_s(a));
            assert(lex_run(print_s(a), st)->Ok_0 =~= pending_st(a, st));
            // the flush reproduces the canonical decimal
            assert(flush_token(pending_st(a, st)) == Ok::<TokenV, ErrorV>(TokenV::Float(d))) by {
                reveal_with_fuel(crate::dec::spec_reduce, 2);
                reveal_with_fuel(crate::dec::spec_strip, 2);
                assert(crate::dec::spec_make(d.neg, d.mag as nat, sc) == Some(d));
            }
        },
        _ => {},
    }
}

/// The closing token of a list kind.
pub open spec fn close_tok(lt: ListType) -> TokenV {
    match lt {
        ListType::Parens => TokenV::RightParen,
        ListType::Brackets => TokenV::RightBracket,
        ListType::Braces => TokenV::RightBrace,
    }
}

/// The tokens of the elements from `k` on.
pub open spec fn toks_of_suffix(xs: Seq<SpecAst>, k: int) -> Seq<TokenV> {
    Seq::new((xs.len() - k) as nat, |j: int| tok_of(xs[k + j]))
}

/// Lexing the remaining printed elements and the closing bracket flushes
/// each pending token in turn and ends back at the initial control state.
proof fn lemma_lex_tail(lt: ListType, xs: Seq<SpecAst>, k: int, stp: LexSt)
    requires
        !(lt is Parens),
        1 <= k <= xs.len(),
        forall|j: int| 0 <= j < xs.len() ==> leaf_ok(#[trigger] xs[j]),
        stp.state is Num || stp.state is StringClose || stp.state is Float,
        flush_token(stp) == Ok::<TokenV, ErrorV>(tok_of(xs[k - 1])),
    ensures
        lex_run(print_tail_s(xs, k) + seq![crate::printer::close_char(lt)], stp) == Ok::<
            LexSt,
            ErrorV,
        >(
            LexSt {
                state: State::Init,
                buffer: Seq::empty(),
                mag: 0,
                neg: false,
                scale: 0,
                tokens: (stp.tokens.push(tok_of(xs[k - 1])) + toks_of_suffix(xs, k)).push(
                    close_tok(lt),
                ),
            },
        ),
    decreases xs.len() - k,
{
    reveal_with_fuel(lex_run, 4);
    let cl = crate::printer::close_char(lt);
    if k == xs.len() {
        assert(print_tail_s(xs, k) + seq![cl] =~= seq![cl]);
        assert(seq![cl].drop_first() =~= Seq::<char>::empty());
        let stf = LexSt {
            state: State::Init,
            buffer: Seq::empty(),
            mag: 0,
            neg: false,
            scale: 0,
            tokens: stp.tokens.push(tok_of(xs[k - 1])).push(close_tok(lt)),
        };
        assert(lex_step(stp, cl) == Ok::<LexSt, ErrorV>(stf));
        assert(toks_of_suffix(xs, k) =~= Seq::<TokenV>::empty());
        assert((stp.tokens.push(tok_of(xs[k - 1])) + toks_of_suffix(xs, k)).push(close_tok(lt))
            =~= stf.tokens);
        assert(lex_run(print_tail_s(xs, k) + seq![cl], stp) == Ok::<LexSt, ErrorV>(
            LexSt {
                state: State::Init,
                buffer: Seq::empty(),
                mag: 0,
                neg: false,
                scale: 0,
                tokens: (stp.tokens.push(tok_of(xs[k - 1])) + toks_of_suffix(xs, k)).push(
                    close_tok(lt),
                ),
            },
        ));
    } else {
        let text = print_tail_s(xs, k) + seq![cl];
        assert(print_tail_s(xs, k) == seq![' '] + print_s(xs[k]) + print_tail_s(xs, k + 1));
        assert(text =~= seq![' '] + (print_s(xs[k]) + (print_tail_s(xs, k + 1) + seq![cl])));
        let st_i = LexSt {
            state: State::Init,
            buffer: Seq::empty(),
            mag: 0,
            neg: false,
            scale: 0,
            tokens: stp.tokens.push(tok_of(xs[k - 1])),
        };
        assert(lex_step(stp, ' ') == Ok::<LexSt, ErrorV>(st_i));
        assert(seq![' '].drop_first() =~= Seq::<char>::empty());
        lemma_lex_run_concat(seq![' '], print_s(xs[k]) + (print_tail_s(xs, k + 1) + seq![cl]), stp);
        lemma_lex_leaf(xs[k], st_i);
        lemma_lex_run_concat(print_s(xs[k]), print_tail_s(xs, k + 1) + seq![cl], st_i);
        lemma_lex_tail(lt, xs, k + 1, pending_st(xs[k], st_i));
        assert(toks_of_suffix(xs, k) =~= seq![tok_of(xs[k])] + toks_of_suffix(xs, k + 1));
        assert((st_i.tokens.push(tok_of(xs[k])) + toks_of_suffix(xs, k + 1)).push(close_tok(lt))
            =~= (stp.tokens.push(tok_of(xs[k - 1])) + toks_of_suffix(xs, k)).push(close_tok(lt)));
    }
}

/// The opening token of a list kind.
pub open spec fn open_tok(lt: ListType) -> TokenV {
    match lt {
        ListType::Parens => TokenV::LeftParen,
        ListType::Brackets => TokenV::LeftBracket,
        ListType::Braces => TokenV::LeftBrace,
    }
}

/// A scan over a sequence without symbol leaves rewrites nothing.
proof fn lemma_scan_no_symbols(r: crate::macros::RuleV, s: Seq<SpecAst>, i: nat)
    requires
        forall|j: int| 0 <= j < s.len() ==> !(#[trigger] s[j] matches SpecAst::Leaf(
            LeafV::Symbol(_),
        )),
    ensures
        crate::macros::scan(r, s, i) == s,
    decreases s.len() - i,
{
    if i + crate::macros::rule_window(r) <= s.len() {
        lemma_scan_no_symbols(r, s, i + 1);
    }
}

/// Elements that are literal leaves are reduced forms.
proof fn lemma_leaf_ok_value_seq(xs: Seq<SpecAst>)
    requires
        forall|j: int| 0 <= j < xs.len() ==> leaf_ok(#[trigger] xs[j]),
    ensures
        is_value_seq(xs),
    decreases xs.len(),
{
    if xs.len() > 0 {
        assert(leaf_ok(xs[0]));
        assert(is_value_form(xs[0])) by {
            if !(xs[0] matches SpecAst::Leaf(LeafV::Int(_))) {
                if !(xs[0] matches SpecAst::Leaf(LeafV::String(_))) {
                    assert(xs[0] matches SpecAst::Leaf(LeafV::Float(_)));
                }
            }
        }
        assert forall|j: int| 0 <= j < xs.drop_first().len() implies leaf_ok(
            #[trigger] xs.drop_first()[j],
        ) by {
            assert(xs.drop_first()[j] == xs[j + 1]);
        }
        lemma_leaf_ok_value_seq(xs.drop_first());
    }
}

/// Parsing the element tokens and the closing token builds exactly the
/// original list node.
proof fn lemma_parse_lits(lt: ListType, xs: Seq<SpecAst>, k: int, st: crate::parser::ParseSt)
    requires
        0 <= k <= xs.len(),
        forall|j: int| 0 <= j < xs.len() ==> leaf_ok(#[trigger] xs[j]),
        st.kinds == seq![lt],
        st.parents == seq![Seq::<SpecAst>::empty()],
        st.current == xs.take(k),
    ensures
        crate::parser::parse_run(toks_of_suffix(xs, k).push(close_tok(lt)), st) == Ok::<
            crate::parser::ParseSt,
            ErrorV,
        >(
            crate::parser::ParseSt {
                kinds: Seq::empty(),
                parents: Seq::empty(),
                current: seq![
                    SpecAst::List(lt, crate::macros::expand_all(xs)),
                ],
            },
        ),
    decreases xs.len() - k,
{
    reveal_with_fuel(crate::parser::parse_run, 3);
    let toks = toks_of_suffix(xs, k).push(close_tok(lt));
    if k == xs.len() {
        assert(toks =~= seq![close_tok(lt)]);
        assert(toks.drop_first() =~= Seq::<TokenV>::empty());
        assert(xs.take(k) =~= xs);
        let st1 = crate::parser::parse_step(st, close_tok(lt))->Ok_0;
        assert(st1.kinds =~= Seq::<ListType>::empty());
        assert(st1.parents =~= Seq::<Seq<SpecAst>>::empty());
        assert(st1.current =~= seq![SpecAst::List(lt, crate::macros::expand_all(xs))]);
        assert(st1 =~= (crate::parser::ParseSt {
            kinds: Seq::empty(),
            parents: Seq::empty(),
            current: seq![SpecAst::List(lt, crate::macros::expand_all(xs))],
        }));
    } else {
        assert(leaf_ok(xs[k]));
        assert(toks[0] == tok_of(xs[k]));
        let st1 = crate::parser::parse_step(st, toks[0])->Ok_0;
        assert(st1.current == st.current.push(xs[k]));
        assert(st.current.push(xs[k]) =~= xs.take(k + 1));
        assert(toks.drop_first() =~= toks_of_suffix(xs, k + 1).push(close_tok(lt)));
        lemma_parse_lits(lt, xs, k + 1, st1);
    }
}

/// Printing a literal leaf and reading the text back yields the same leaf,
/// and evaluating it changes nothing: for these forms the whole read,
/// evaluate, print cycle is stable under repetition. The leaves covered are
/// every machine integer, every non-empty string without quote or
/// backslash, and every canonical decimal with fractional digits whose
/// integer part a literal may carry. (An empty string at the very end of
/// the input is dropped by the flush, a quote or backslash inside string
/// contents changes how the text reads back, and a decimal without
/// fractional digits prints as an integer, so those read back differently.)
pub proof fn lemma_round_trip_leaf(a: SpecAst, env: Seq<FrameV>, f: int)
    requires
        leaf_ok(a),
    ensures
        read_spec(print_s(a)) == Ok::<SpecAst, ErrorV>(a),
        eval_s(a, env, f) == (Ok::<SpecAst, ErrorV>(a), env),
{
    reveal_with_fuel(lex_run, 4);
    reveal_with_fuel(crate::parser::parse_run, 3);
    let text = print_s(a);
    let toks = seq![tok_of(a)];
    lemma_lex_leaf(a, init_st());
    let stp = pending_st(a, init_st());
    assert(lex_spec(text) == Ok::<Seq<TokenV>, ErrorV>(stp.tokens.push(tok_of(a))));
    assert(stp.tokens.push(tok_of(a)) =~= toks);
    assert(crate::parser::parse_spec(toks) == Ok::<Seq<SpecAst>, ErrorV>(
        crate::macros::expand_all(seq![a]),
    )) by {
        let st1 = crate::parser::parse_step(crate::parser::parse_init(), toks[0])->Ok_0;
        assert(toks.drop_first() =~= Seq::<TokenV>::empty());
        assert(st1.current =~= seq![a]);
        assert(st1 =~= (crate::parser::ParseSt {
            kinds: Seq::empty(),
            parents: Seq::empty(),
            current: seq![a],
        }));
    }
    let one = seq![a];
    assert(crate::macros::expand_all(one) == one) by {
        lemma_scan_short(crate::macros::RuleV::WithMeta, one);
        lemma_scan_short(crate::macros::RuleV::Simple("'"@, "quote"@), one);
        lemma_scan_short(crate::macros::RuleV::Simple("`"@, "quasiquote"@), one);
        lemma_scan_short(crate::macros::RuleV::Simple("@"@, "deref"@), one);
        lemma_scan_short(crate::macros::RuleV::Simple("~"@, "unquote"@), one);
        lemma_scan_short(crate::macros::RuleV::Simple("~@"@, "splice-unquote"@), one);
    }
    assert(is_value_form(a)) by {
        if !(a matches SpecAst::Leaf(LeafV::Int(_))) {
            if !(a matches SpecAst::Leaf(LeafV::String(_))) {
                assert(a matches SpecAst::Leaf(LeafV::Float(_)));
            }
        }
    }
    lemma_eval_value_form(a, env, f);
}

/// Printing a bracket or brace list of literal leaves and reading the text
/// back yields the same list, and evaluating it changes nothing: for these
/// forms the whole read, evaluate, print cycle is stable under repetition.
pub proof fn lemma_round_trip_list(lt: ListType, xs: Seq<SpecAst>, env: Seq<FrameV>, f: int)
    requires
        lt is Brackets || lt is Braces,
        1 <= xs.len(),
        forall|j: int| 0 <= j < xs.len() ==> leaf_ok(#[trigger] xs[j]),
    ensures
        read_spec(print_s(SpecAst::List(lt, xs))) == Ok::<SpecAst, ErrorV>(SpecAst::List(lt, xs)),
        eval_s(SpecAst::List(lt, xs), env, f) == (
            Ok::<SpecAst, ErrorV>(SpecAst::List(lt, xs)),
            env,
        ),
{
    reveal_with_fuel(lex_run, 4);
    reveal_with_fuel(crate::parser::parse_run, 3);
    let a = SpecAst::List(lt, xs);
    let op = crate::printer::open_char(lt);
    let cl = crate::printer::close_char(lt);
    let text = print_s(a);
    assert(text == seq![op] + print_s(xs[0]) + print_tail_s(xs, 1) + seq![cl]);

    // the lexer's walk over the printed text
    let st1 = LexSt { tokens: init_st().tokens.push(open_tok(lt)), ..init_st() };
    assert(lex_step(init_st(), op) == Ok::<LexSt, ErrorV>(st1));
    assert(seq![op].drop_first() =~= Seq::<char>::empty());
    assert(text =~= seq![op] + (print_s(xs[0]) + (print_tail_s(xs, 1) + seq![cl])));
    lemma_lex_run_concat(seq![op], print_s(xs[0]) + (print_tail_s(xs, 1) + seq![cl]), init_st());
    assert(leaf_ok(xs[0]));
    lemma_lex_leaf(xs[0], st1);
    lemma_lex_run_concat(print_s(xs[0]), print_tail_s(xs, 1) + seq![cl], st1);
    lemma_lex_tail(lt, xs, 1, pending_st(xs[0], st1));
    let toks = (seq![open_tok(lt)] + toks_of_suffix(xs, 0)).push(close_tok(lt));
    assert(lex_spec(text) == Ok::<Seq<TokenV>, ErrorV>(toks)) by {
        assert((pending_st(xs[0], st1).tokens.push(tok_of(xs[0])) + toks_of_suffix(xs, 1)).push(
            close_tok(lt),
        ) =~= toks);
    }

    // the parser rebuilds the list and the macro passes leave it unchanged
    assert forall|j: int| 0 <= j < xs.len() implies !(#[trigger] xs[j] matches SpecAst::Leaf(
        LeafV::Symbol(_),
    )) by {
        assert(leaf_ok(xs[j]));
    }
    assert(crate::macros::expand_all(xs) == xs) by {
        lemma_scan_no_symbols(crate::macros::RuleV::WithMeta, xs, 0);
        lemma_scan_no_symbols(crate::macros::RuleV::Simple("'"@, "quote"@), xs, 0);
        lemma_scan_no_symbols(crate::macros::RuleV::Simple("`"@, "quasiquote"@), xs, 0);
        lemma_scan_no_symbols(crate::macros::RuleV::Simple("@"@, "deref"@), xs, 0);
        lemma_scan_no_symbols(crate::macros::RuleV::Simple("~"@, "unquote"@), xs, 0);
        lemma_scan_no_symbols(crate::macros::RuleV::Simple("~@"@, "splice-unquote"@), xs, 0);
    }
    assert(crate::parser::parse_spec(toks) == Ok::<Seq<SpecAst>, ErrorV>(seq![a])) by {
        let st_open = crate::parser::parse_step(crate::parser::parse_init(), toks[0])->Ok_0;
        assert(st_open.kinds =~= seq![lt]);
        assert(st_open.parents =~= seq![Seq::<SpecAst>::empty()]);
        assert(st_open.current =~= xs.take(0));
        assert(st_open =~= (crate::parser::ParseSt {
            kinds: seq![lt],
            parents: seq![Seq::<SpecAst>::empty()],
            current: xs.take(0),
        }));
        assert(toks.drop_first() =~= toks_of_suffix(xs, 0).push(close_tok(lt)));
        lemma_parse_lits(lt, xs, 0, st_open);
        let forms = seq![SpecAst::List(lt, crate::macros::expand_all(xs))];
        assert(forms =~= seq![a]);
        lemma_scan_short(crate::macros::RuleV::WithMeta, forms);
        lemma_scan_short(crate::macros::RuleV::Simple("'"@, "quote"@), forms);
        lemma_scan_short(crate::macros::RuleV::Simple("`"@, "quasiquote"@), forms);
        lemma_scan_short(crate::macros::RuleV::Simple("@"@, "deref"@), forms);
        lemma_scan_short(crate::macros::RuleV::Simple("~"@, "unquote"@), forms);
        lemma_scan_short(crate::macros::RuleV::Simple("~@"@, "splice-unquote"@), forms);
    }

    // evaluation leaves the reduced list untouched
    lemma_leaf_ok_value_seq(xs);
    lemma_eval_value_form(a, env, f);
}

/// A sequence shorter than every window is left as it is.
proof fn lemma_scan_short(r: crate::macros::RuleV, s: Seq<SpecAst>)
    requires
        s.len() < 2,
    ensures
        crate::macros::expand_rule(r, s) == s,
{
}

} // verus!
