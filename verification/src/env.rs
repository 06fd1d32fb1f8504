//! Chained lexical environments.
//!
//! Frames live in an arena and name their parent by its index; a parent
//! always stands earlier in the arena, so chains have no cycles and search
//! terminates. Frames are never removed: a frame lives as long as the arena,
//! which gives closures and child frames shared use of their parents. Lookup is
//! innermost-first, and absence in every frame of the chain is the
//! evaluation failure that names the symbol.
use vstd::prelude::*;

use crate::ast::{ast_view, asts_view, lemma_asts_view_index, lemma_asts_view_len, Ast, Error,
    ErrorV, SpecAst};
use crate::ast::lemma_asts_view_push;
use crate::text::str_eq;
use vstd::string::StringExecFns;

verus! {

/// One scope: symbol names, their bound values, and the enclosing frame.
#[derive(Debug)]
pub struct Frame {
    pub names: Vec<String>,
    pub values: Vec<Ast>,
    pub parent: Option<usize>,
}

/// Mathematical value of a frame.
#[verifier::ext_equal]
pub struct FrameV {
    pub names: Seq<Seq<char>>,
    pub values: Seq<SpecAst>,
    pub parent: Option<int>,
}

impl View for Frame {
    type V = FrameV;

    open spec fn view(&self) -> FrameV {
        FrameV {
            names: self.names.deep_view(),
            values: asts_view(self.values@),
            parent: match self.parent {
                Some(p) => Some(p as int),
                None => None,
            },
        }
    }
}

impl DeepView for Frame {
    type V = FrameV;

    open spec fn deep_view(&self) -> FrameV {
        self.view()
    }
}

/// The environment arena.
#[derive(Debug)]
pub struct Env {
    pub frames: Vec<Frame>,
}

impl View for Env {
    type V = Seq<FrameV>;

    open spec fn view(&self) -> Seq<FrameV> {
        self.frames.deep_view()
    }
}

/// Every parent reference points to an earlier frame, and every frame binds
/// as many values as names.
pub open spec fn env_wf(env: Seq<FrameV>) -> bool {
    forall|i: int|
        0 <= i < env.len() ==> {
            &&& (#[trigger] env[i]).parent matches Some(p) ==> 0 <= p < i
            &&& env[i].names.len() == env[i].values.len()
        }
}

/// The first occurrence of `s` among the names, front to back.
pub open spec fn find_name(names: Seq<Seq<char>>, s: Seq<char>) -> Option<int>
    decreases names.len(),
{
    if names.len() == 0 {
        None
    } else if names[0] == s {
        Some(0)
    } else {
        match find_name(names.drop_first(), s) {
            Some(j) => Some(j + 1),
            None => None,
        }
    }
}

/// The message of the failure that an unbound symbol raises.
pub open spec fn not_found_msg(sym: Seq<char>) -> Seq<char> {
    "'"@ + sym + "' not found"@
}

/// Lookup from frame `f` outward: the nearest binding, or the failure that
/// names the symbol.
pub open spec fn search_in(env: Seq<FrameV>, f: int, sym: Seq<char>) -> Result<SpecAst, ErrorV>
    decreases (if f >= 0 {
        f
    } else {
        0
    }),
{
    if !(0 <= f < env.len()) {
        Err(ErrorV::EvalError(not_found_msg(sym)))
    } else {
        let fr = env[f];
        match find_name(fr.names, sym) {
            Some(j) => Ok(fr.values[j]),
            None => match fr.parent {
                Some(p) => if 0 <= p < f {
                    search_in(env, p, sym)
                } else {
                    Err(ErrorV::EvalError(not_found_msg(sym)))
                },
                None => Err(ErrorV::EvalError(not_found_msg(sym))),
            },
        }
    }
}

/// Binding `s` to `v` in frame `f`: the first binding of `s` is replaced, or
/// a new binding is appended.
pub open spec fn frame_insert(fr: FrameV, s: Seq<char>, v: SpecAst) -> FrameV {
    match find_name(fr.names, s) {
        Some(j) => FrameV { values: fr.values.update(j, v), ..fr },
        None => FrameV { names: fr.names.push(s), values: fr.values.push(v), ..fr },
    }
}

pub open spec fn env_insert(env: Seq<FrameV>, f: int, s: Seq<char>, v: SpecAst) -> Seq<FrameV> {
    env.update(f, frame_insert(env[f], s, v))
}

/// A fresh empty frame whose parent is `p`.
pub open spec fn env_push_child(env: Seq<FrameV>, p: int) -> Seq<FrameV> {
    env.push(FrameV { names: Seq::empty(), values: Seq::empty(), parent: Some(p) })
}

/// If the first `j` names miss, the search outcome is decided by the rest.
proof fn lemma_find_name_skip(names: Seq<Seq<char>>, s: Seq<char>, j: int)
    requires
        0 <= j <= names.len(),
        forall|k: int| 0 <= k < j ==> names[k] != s,
    ensures
        find_name(names, s) == match find_name(names.skip(j), s) {
            Some(i) => Some(i + j),
            None => None::<int>,
        },
    decreases j,
{
    if j == 0 {
        assert(names.skip(0) =~= names);
    } else {
        lemma_find_name_skip(names, s, j - 1);
        assert(names.skip(j - 1).drop_first() =~= names.skip(j));
        assert(names.skip(j - 1)[0] == names[j - 1]);
    }
}

pub proof fn lemma_find_name_in_range(names: Seq<Seq<char>>, s: Seq<char>)
    ensures
        match find_name(names, s) {
            Some(j) => 0 <= j < names.len() && names[j] == s,
            None => true,
        },
    decreases names.len(),
{
    if names.len() > 0 && names[0] != s {
        lemma_find_name_in_range(names.drop_first(), s);
    }
}

/// Find a symbol among a frame's names.
fn frame_find(names: &Vec<String>, symbol: &str) -> (r: Option<usize>)
    ensures
        match r {
            Some(j) => find_name(names.deep_view(), symbol@) == Some(j as int),
            None => find_name(names.deep_view(), symbol@) is None,
        },
{
    let n = names.len();
    let mut j: usize = 0;
    while j < n
        invariant
            n == names@.len(),
            j <= n,
            forall|k: int| 0 <= k < j ==> names.deep_view()[k] != symbol@,
        decreases n - j,
    {
        if str_eq(names[j].as_str(), symbol) {
            proof {
                lemma_find_name_skip(names.deep_view(), symbol@, j as int);
                assert(names.deep_view().skip(j as int)[0] == names.deep_view()[j as int]);
            }
            return Some(j);
        }
        j = j + 1;
    }
    proof {
        lemma_find_name_skip(names.deep_view(), symbol@, n as int);
        assert(names.deep_view().skip(n as int) =~= Seq::<Seq<char>>::empty());
    }
    None
}

/// The message of the failure that an unbound symbol raises.
pub fn not_found_message(symbol: &str) -> (r: String)
    ensures
        r@ == not_found_msg(symbol@),
{
    let mut m = String::from_str("'");
    m.append(symbol);
    m.append("' not found");
    m
}

impl Env {
    /// An empty arena.
    pub fn new() -> (r: Env)
        ensures
            r@ == Seq::<FrameV>::empty(),
            env_wf(r@),
    {
        let r = Env { frames: Vec::new() };
        proof {
            assert(r@ =~= Seq::<FrameV>::empty());
        }
        r
    }

    /// A fresh frame whose parent is `parent`; its index.
    pub fn push_frame(&mut self, parent: Option<usize>) -> (r: usize)
        requires
            env_wf(old(self)@),
            parent matches Some(p) ==> p < old(self)@.len(),
        ensures
            r == old(self)@.len(),
            final(self)@ == old(self)@.push(
                FrameV {
                    names: Seq::empty(),
                    values: Seq::empty(),
                    parent: match parent {
                        Some(p) => Some(p as int),
                        None => None,
                    },
                },
            ),
            env_wf(final(self)@),
            final(self)@.len() == old(self)@.len() + 1,
    {
        let idx = self.frames.len();
        let fr = Frame { names: Vec::new(), values: Vec::new(), parent };
        self.frames.push(fr);
        proof {
            assert(self.frames@.last()@ =~= (FrameV {
                names: Seq::empty(),
                values: Seq::empty(),
                parent: match parent {
                    Some(p) => Some(p as int),
                    None => None,
                },
            }));
            assert(self@ =~= old(self)@.push(self.frames@.last()@));
        }
        idx
    }

    /// Bind `name` to `value` in frame `frame`, replacing an existing
    /// binding of the same name.
    pub fn insert(&mut self, frame: usize, name: String, value: Ast)
        requires
            env_wf(old(self)@),
            frame < old(self)@.len(),
        ensures
            final(self)@ == env_insert(old(self)@, frame as int, name@, value@),
            env_wf(final(self)@),
            final(self)@.len() == old(self)@.len(),
    {
        let ghost fv0 = self@[frame as int];
        let fr = &mut self.frames[frame];
        let ghost vs0 = fr.values@;
        match frame_find(&fr.names, name.as_str()) {
            Some(j) => {
                proof {
                    lemma_find_name_in_range(fr.names.deep_view(), name@);
                    lemma_asts_view_len(fr.values@);
                }
                fr.values[j] = value;
                proof {
                    lemma_asts_view_len(fr.values@);
                    assert forall|k: int| 0 <= k < asts_view(fr.values@).len() implies asts_view(
                        fr.values@,
                    )[k] == frame_insert(fv0, name@, value@).values[k] by {
                        lemma_asts_view_index(fr.values@, k);
                        if k != j {
                            lemma_asts_view_index(vs0, k);
                        }
                    }
                    assert(asts_view(fr.values@) =~= frame_insert(fv0, name@, value@).values);
                    assert(fr@ =~= frame_insert(fv0, name@, value@));
                }
            },
            None => {
                fr.names.push(name);
                fr.values.push(value);
                proof {
                    lemma_asts_view_push(vs0, fr.values@.last());
                    assert(fr@ =~= frame_insert(fv0, name@, value@));
                }
            },
        }
        proof {
            assert(self@ =~= env_insert(old(self)@, frame as int, name@, value@));
        }
    }

    /// The bound value of `symbol` from the nearest enclosing frame, or the
    /// evaluation failure naming it.
    pub fn search(&self, frame: usize, symbol: &str) -> (r: Result<Ast, Error>)
        requires
            env_wf(self@),
            frame < self@.len(),
        ensures
            match r {
                Ok(a) => search_in(self@, frame as int, symbol@) == Ok::<SpecAst, ErrorV>(a@),
                Err(e) => search_in(self@, frame as int, symbol@) == Err::<SpecAst, ErrorV>(e@),
            },
    {
        let mut f = frame;
        loop
            invariant
                env_wf(self@),
                f < self@.len(),
                search_in(self@, frame as int, symbol@) == search_in(self@, f as int, symbol@),
            decreases f,
        {
            let fr = &self.frames[f];
            match frame_find(&fr.names, symbol) {
                Some(j) => {
                    proof {
                        lemma_find_name_in_range(fr.names.deep_view(), symbol@);
                        lemma_asts_view_len(fr.values@);
                        lemma_asts_view_index(fr.values@, j as int);
                    }
                    return Ok(fr.values[j].duplicate());
                },
                None => {
                    match fr.parent {
                        Some(p) => {
                            f = p;
                        },
                        None => {
                            return Err(Error::EvalError(not_found_message(symbol)));
                        },
                    }
                },
            }
        }
    }
}

} // verus!
