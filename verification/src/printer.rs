//! The canonical serialization of a tree.
//!
//! Leaves render as literal text: strings double-quoted (contents verbatim),
//! numbers in their decimal form with trailing fractional zeros of the
//! representation kept out by normalization. Lists render as the delimiter
//! pair of their kind around the children separated by single spaces, with
//! nothing between the delimiters when the list is empty. The whole
//! rendering is specified by `print_s`.
use vstd::prelude::*;

use crate::ast::{ast_view, asts_view, lemma_asts_view_index, lemma_asts_view_len, Ast, AstLeaf,
    LeafV, ListType, SpecAst};
use crate::dec::{pow10, pow10_u64, Dec};
use crate::text::push_char;
use vstd::string::StringExecFns;

verus! {

/// The ASCII digit for a value below ten.
pub open spec fn digit_char(d: nat) -> char {
    ((d + 48) as u8) as char
}

/// The decimal digits of `n`, most significant first.
pub open spec fn dec_digits(n: nat) -> Seq<char>
    decreases n,
{
    if n < 10 {
        seq![digit_char(n)]
    } else {
        dec_digits(n / 10).push(digit_char(n % 10))
    }
}

/// Exactly `k` decimal digits of `m`, zero-padded at the front.
pub open spec fn pad_digits(m: nat, k: nat) -> Seq<char>
    decreases k,
{
    if k == 0 {
        Seq::empty()
    } else {
        pad_digits(m / 10, (k - 1) as nat).push(digit_char(m % 10))
    }
}

/// The text of a machine integer.
pub open spec fn int_str(i: int) -> Seq<char> {
    if i < 0 {
        seq!['-'] + dec_digits((-i) as nat)
    } else {
        dec_digits(i as nat)
    }
}

/// The text of a decimal: sign, integer part, and — only when fractional
/// digits exist — a dot and the zero-padded fractional digits.
pub open spec fn dec_str(d: Dec) -> Seq<char> {
    let sign: Seq<char> = if d.neg {
        seq!['-']
    } else {
        Seq::empty()
    };
    if d.scale == 0 {
        sign + dec_digits(d.mag as nat)
    } else {
        sign + dec_digits(d.mag as nat / pow10(d.scale as nat)) + seq!['.'] + pad_digits(
            d.mag as nat % pow10(d.scale as nat),
            d.scale as nat,
        )
    }
}

/// The opening and closing characters of a list kind.
pub open spec fn open_char(lt: ListType) -> char {
    match lt {
        ListType::Parens => '(',
        ListType::Braces => '{',
        ListType::Brackets => '[',
    }
}

pub open spec fn close_char(lt: ListType) -> char {
    match lt {
        ListType::Parens => ')',
        ListType::Braces => '}',
        ListType::Brackets => ']',
    }
}

/// The canonical text of a tree.
pub open spec fn print_s(a: SpecAst) -> Seq<char>
    decreases a,
{
    match a {
        SpecAst::Leaf(LeafV::Symbol(s)) => s,
        SpecAst::Leaf(LeafV::String(s)) => seq!['"'] + s + seq!['"'],
        SpecAst::Leaf(LeafV::Int(i)) => int_str(i),
        SpecAst::Leaf(LeafV::Float(d)) => dec_str(d),
        SpecAst::Leaf(LeafV::Function(_)) => "#<function>"@,
        SpecAst::List(lt, xs) => {
            if xs.len() == 0 {
                seq![open_char(lt), close_char(lt)]
            } else {
                seq![open_char(lt)] + print_s(xs[0]) + print_tail_s(xs, 1) + seq![close_char(lt)]
            }
        },
    }
}

/// The text of the elements from `i` on, each preceded by one space.
pub open spec fn print_tail_s(xs: Seq<SpecAst>, i: int) -> Seq<char>
    decreases xs, (if xs.len() - i >= 0 {
        xs.len() - i
    } else {
        0
    }),
{
    if i < 0 || i >= xs.len() {
        Seq::empty()
    } else {
        seq![' '] + print_s(xs[i]) + print_tail_s(xs, i + 1)
    }
}

/// Append the decimal digits of `m`.
fn push_digits(out: &mut String, m: u64)
    ensures
        final(out)@ == old(out)@ + dec_digits(m as nat),
    decreases m,
{
    if m < 10 {
        push_char(out, ((48 + m) as u8) as char);
        proof {
            assert(final(out)@ =~= old(out)@ + dec_digits(m as nat));
        }
    } else {
        push_digits(out, m / 10);
        push_char(out, ((48 + (m % 10)) as u8) as char);
        proof {
            assert(final(out)@ =~= old(out)@ + dec_digits(m as nat));
        }
    }
}

/// Append exactly `k` digits of `m`, zero-padded.
fn push_pad_digits(out: &mut String, m: u64, k: u32)
    ensures
        final(out)@ == old(out)@ + pad_digits(m as nat, k as nat),
    decreases k,
{
    if k == 0 {
        proof {
            assert(final(out)@ =~= old(out)@ + pad_digits(m as nat, 0));
        }
    } else {
        push_pad_digits(out, m / 10, k - 1);
        push_char(out, ((48 + (m % 10)) as u8) as char);
        proof {
            assert(final(out)@ =~= old(out)@ + pad_digits(m as nat, k as nat));
        }
    }
}

/// Append the canonical text of a tree.
fn print_into(a: &Ast, out: &mut String)
    ensures
        final(out)@ == old(out)@ + print_s(a@),
    decreases *a, 0int, 0int,
{
    match a {
        Ast::Leaf(AstLeaf::Symbol(s)) => {
            out.append(s.as_str());
        },
        Ast::Leaf(AstLeaf::String(s)) => {
            push_char(out, '"');
            out.append(s.as_str());
            push_char(out, '"');
            proof {
                assert(final(out)@ =~= old(out)@ + print_s(a@));
            }
        },
        Ast::Leaf(AstLeaf::Int(i)) => {
            let mag: u64 = if *i < 0 {
                (-(*i as i64)) as u64
            } else {
                *i as u64
            };
            if *i < 0 {
                push_char(out, '-');
            }
            push_digits(out, mag);
            proof {
                assert(final(out)@ =~= old(out)@ + print_s(a@));
            }
        },
        Ast::Leaf(AstLeaf::Float(d)) => {
            if d.neg {
                push_char(out, '-');
            }
            if d.scale == 0 {
                push_digits(out, d.mag);
            } else if d.scale <= 19 {
                let p = pow10_u64(d.scale);
                push_digits(out, d.mag / p);
                push_char(out, '.');
                push_pad_digits(out, d.mag % p, d.scale);
            } else {
                // the magnitude has fewer digits than the scale asks for
                proof {
                    crate::dec::lemma_pow10_at_least(d.scale as nat);
                    assert(d.mag as nat / pow10(d.scale as nat) == 0) by (nonlinear_arith)
                        requires
                            (d.mag as nat) < pow10(d.scale as nat),
                            pow10(d.scale as nat) > 0,
                    ;
                    assert(d.mag as nat % pow10(d.scale as nat) == d.mag as nat)
                        by (nonlinear_arith)
                        requires
                            (d.mag as nat) < pow10(d.scale as nat),
                            pow10(d.scale as nat) > 0,
                    ;
                }
                push_char(out, '0');
                push_char(out, '.');
                push_pad_digits(out, d.mag, d.scale);
            }
            proof {
                assert(final(out)@ =~= old(out)@ + print_s(a@));
            }
        },
        Ast::Leaf(AstLeaf::Function(_)) => {
            out.append("#<function>");
        },
        Ast::List(al) => {
            proof {
                lemma_asts_view_len(al.list@);
            }
            push_char(out, open_char_of(al.list_type));
            if al.list.len() > 0 {
                proof {
                    lemma_asts_view_index(al.list@, 0);
                    assert(decreases_to!(*a => a->List_0));
                    assert(decreases_to!(a->List_0 => a->List_0.list));
                    assert(decreases_to!(a->List_0.list => a->List_0.list@));
                    assert(decreases_to!(a->List_0.list@ => a->List_0.list@[0]));
                }
                print_into(&al.list[0], out);
                print_items(&al.list, 1, out);
            }
            push_char(out, close_char_of(al.list_type));
            proof {
                assert(final(out)@ =~= old(out)@ + print_s(a@));
            }
        },
    }
}

/// Append the elements from `i` on, each preceded by one space.
fn print_items(xs: &Vec<Ast>, i: usize, out: &mut String)
    ensures
        final(out)@ == old(out)@ + print_tail_s(asts_view(xs@), i as int),
    decreases xs@, xs@.len() - i, 1int,
{
    proof {
        lemma_asts_view_len(xs@);
    }
    if i >= xs.len() {
        proof {
            assert(final(out)@ =~= old(out)@ + print_tail_s(asts_view(xs@), i as int));
        }
    } else {
        proof {
            lemma_asts_view_index(xs@, i as int);
            assert(decreases_to!(xs@ => xs@[i as int]));
        }
        push_char(out, ' ');
        print_into(&xs[i], out);
        print_items(xs, i + 1, out);
        proof {
            assert(final(out)@ =~= old(out)@ + print_tail_s(asts_view(xs@), i as int));
        }
    }
}

/// The opening character of a list kind.
fn open_char_of(lt: ListType) -> (r: char)
    ensures
        r == open_char(lt),
{
    match lt {
        ListType::Parens => '(',
        ListType::Braces => '{',
        ListType::Brackets => '[',
    }
}

/// The closing character of a list kind.
fn close_char_of(lt: ListType) -> (r: char)
    ensures
        r == close_char(lt),
{
    match lt {
        ListType::Parens => ')',
        ListType::Braces => '}',
        ListType::Brackets => ']',
    }
}

/// The canonical serialization of a tree, exactly as `print_s` gives it.
pub fn print(ast: &Ast) -> (r: String)
    ensures
        r@ == print_s(ast@),
{
    let mut out = String::new();
    print_into(ast, &mut out);
    proof {
        assert(Seq::<char>::empty() + print_s(ast@) =~= print_s(ast@));
    }
    out
}

} // verus!
