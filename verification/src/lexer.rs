//! The finite-state lexer: raw text to a token stream.
//!
//! The machine is specified by `lex_spec`, a total function over character
//! sequences; `Lexer::tokenize` is proved to return exactly its value. Number
//! literals are bounded by the token representation (`i32` integers, decimal
//! mantissas of at most twelve digits): a digit that would overflow those
//! machine bounds is reported as a transition error at that character.
use vstd::prelude::*;

use crate::ast::{Error, ErrorV, State, Token, TokenV};
use crate::dec::{spec_make, Dec, MAG_MAX, SCALE_MAX};
use crate::text::{digit_value, is_digit_char, push_char};

verus! {

/// Largest magnitude of a nonnegative integer literal.
pub const INT_POS_MAX: u64 = 2147483647;

/// Largest magnitude of a negative integer literal.
pub const INT_NEG_MAX: u64 = 2147483648;

/// The characters with the Unicode `White_Space` property, which is what
/// `char::is_whitespace` is documented to decide.
pub open spec fn unicode_whitespace(c: char) -> bool {
    ||| c == ' '
    ||| ('\u{0009}' <= c && c <= '\u{000D}')
    ||| c == '\u{0085}'
    ||| c == '\u{00A0}'
    ||| c == '\u{1680}'
    ||| ('\u{2000}' <= c && c <= '\u{200A}')
    ||| c == '\u{2028}'
    ||| c == '\u{2029}'
    ||| c == '\u{202F}'
    ||| c == '\u{205F}'
    ||| c == '\u{3000}'
}

/// Relies on `char::is_whitespace`: true exactly on the characters with the
/// Unicode `White_Space` property, which `unicode_whitespace` lists.
pub assume_specification[ char::is_whitespace ](c: char) -> (r: bool)
    ensures
        r == unicode_whitespace(c),
;

/// Whitespace for the lexer: Unicode whitespace and the comma.
pub fn is_whitespace(c: char) -> (r: bool)
    ensures
        r == spec_whitespace(c),
{
    c.is_whitespace() || c == ','
}

pub open spec fn spec_whitespace(c: char) -> bool {
    unicode_whitespace(c) || c == ','
}

/// The lexer's full state: control state, buffered text, emitted tokens, and
/// the running sign/magnitude/fraction-length of a number being read.
#[verifier::ext_equal]
pub struct LexSt {
    pub state: State,
    pub buffer: Seq<char>,
    pub tokens: Seq<TokenV>,
    pub neg: bool,
    pub mag: nat,
    pub scale: nat,
}

pub open spec fn init_st() -> LexSt {
    LexSt { state: State::Init, buffer: Seq::empty(), tokens: Seq::empty(), neg: false, mag: 0, scale: 0 }
}

pub open spec fn is_digit(c: char) -> bool {
    '0' <= c && c <= '9'
}

pub open spec fn digit_val(c: char) -> nat {
    (c as u32 - 48) as nat
}

/// The token that flushing the buffer produces, for the terminating states.
pub open spec fn flush_token(st: LexSt) -> Result<TokenV, ErrorV> {
    match st.state {
        State::Minus => Ok(TokenV::Symbol(st.buffer)),
        State::Num => Ok(
            TokenV::Int(if st.neg { -(st.mag as int) } else { st.mag as int }),
        ),
        State::Float => Ok(
            TokenV::Float(
                match spec_make(st.neg, st.mag, st.scale) {
                    Some(d) => d,
                    None => Dec { neg: false, mag: 0, scale: 0 },
                },
            ),
        ),
        State::StringClose => Ok(TokenV::String(st.buffer)),
        State::Symbol => Ok(TokenV::Symbol(st.buffer)),
        _ => Err(ErrorV::TokenTerminationError(st.state)),
    }
}

/// Flush the buffered token, then move to `new_state` with an empty buffer.
pub open spec fn spec_end_token_trans(st: LexSt, new_state: State) -> Result<LexSt, ErrorV> {
    match flush_token(st) {
        Err(e) => Err(e),
        Ok(t) => Ok(
            LexSt {
                state: new_state,
                buffer: Seq::empty(),
                tokens: st.tokens.push(t),
                neg: false,
                mag: 0,
                scale: 0,
            },
        ),
    }
}

pub open spec fn spec_end_token(st: LexSt) -> Result<LexSt, ErrorV> {
    spec_end_token_trans(st, State::Init)
}

/// Flush the buffered token, then emit the standalone token `t`.
pub open spec fn spec_end_token_push(st: LexSt, t: TokenV) -> Result<LexSt, ErrorV> {
    match spec_end_token(st) {
        Err(e) => Err(e),
        Ok(st1) => Ok(LexSt { tokens: st1.tokens.push(t), ..st1 }),
    }
}

/// The shared handling of token terminators: whitespace and comma flush, `;`
/// flushes and starts a comment, brackets flush and stand alone.
pub open spec fn spec_terminator(st: LexSt, c: char) -> Option<Result<LexSt, ErrorV>> {
    if spec_whitespace(c) {
        Some(spec_end_token(st))
    } else if c == ';' {
        Some(spec_end_token_trans(st, State::Comment))
    } else if c == '(' {
        Some(spec_end_token_push(st, TokenV::LeftParen))
    } else if c == ')' {
        Some(spec_end_token_push(st, TokenV::RightParen))
    } else if c == '[' {
        Some(spec_end_token_push(st, TokenV::LeftBracket))
    } else if c == ']' {
        Some(spec_end_token_push(st, TokenV::RightBracket))
    } else if c == '{' {
        Some(spec_end_token_push(st, TokenV::LeftBrace))
    } else if c == '}' {
        Some(spec_end_token_push(st, TokenV::RightBrace))
    } else {
        None
    }
}

pub open spec fn trans_err(st: LexSt, c: char) -> Result<LexSt, ErrorV> {
    Err(ErrorV::TransitionError(c, st.buffer, st.state))
}

pub open spec fn spec_init_step(st: LexSt, c: char) -> Result<LexSt, ErrorV> {
    if spec_whitespace(c) {
        Ok(st)
    } else if c == ';' {
        Ok(LexSt { state: State::Comment, ..st })
    } else if c == '(' {
        Ok(LexSt { tokens: st.tokens.push(TokenV::LeftParen), ..st })
    } else if c == ')' {
        Ok(LexSt { tokens: st.tokens.push(TokenV::RightParen), ..st })
    } else if c == '[' {
        Ok(LexSt { tokens: st.tokens.push(TokenV::LeftBracket), ..st })
    } else if c == ']' {
        Ok(LexSt { tokens: st.tokens.push(TokenV::RightBracket), ..st })
    } else if c == '{' {
        Ok(LexSt { tokens: st.tokens.push(TokenV::LeftBrace), ..st })
    } else if c == '}' {
        Ok(LexSt { tokens: st.tokens.push(TokenV::RightBrace), ..st })
    } else if c == '-' {
        Ok(LexSt { state: State::Minus, buffer: st.buffer.push(c), neg: true, ..st })
    } else if c == '"' {
        Ok(LexSt { state: State::StringStart, ..st })
    } else if is_digit(c) {
        Ok(LexSt { state: State::Num, buffer: st.buffer.push(c), mag: digit_val(c), ..st })
    } else {
        Ok(LexSt { state: State::Symbol, buffer: st.buffer.push(c), ..st })
    }
}

/// The bound that a further integer digit must respect.
pub open spec fn int_bound(neg: bool) -> nat {
    if neg {
        INT_NEG_MAX as nat
    } else {
        INT_POS_MAX as nat
    }
}

pub open spec fn spec_num_step(st: LexSt, c: char) -> Result<LexSt, ErrorV> {
    match spec_terminator(st, c) {
        Some(r) => r,
        None => {
            if is_digit(c) {
                if st.mag * 10 + digit_val(c) <= int_bound(st.neg) {
                    Ok(
                        LexSt {
                            buffer: st.buffer.push(c),
                            mag: st.mag * 10 + digit_val(c),
                            ..st
                        },
                    )
                } else {
                    trans_err(st, c)
                }
            } else if c == '.' {
                Ok(LexSt { state: State::Dot, buffer: st.buffer.push(c), ..st })
            } else {
                trans_err(st, c)
            }
        },
    }
}

pub open spec fn spec_dot_step(st: LexSt, c: char) -> Result<LexSt, ErrorV> {
    if is_digit(c) {
        if st.mag * 10 + digit_val(c) <= MAG_MAX {
            Ok(
                LexSt {
                    state: State::Float,
                    buffer: st.buffer.push(c),
                    mag: st.mag * 10 + digit_val(c),
                    scale: 1,
                    ..st
                },
            )
        } else {
            trans_err(st, c)
        }
    } else {
        trans_err(st, c)
    }
}

pub open spec fn spec_float_step(st: LexSt, c: char) -> Result<LexSt, ErrorV> {
    match spec_terminator(st, c) {
        Some(r) => r,
        None => {
            if is_digit(c) {
                if st.mag * 10 + digit_val(c) <= MAG_MAX && st.scale + 1 <= SCALE_MAX {
                    Ok(
                        LexSt {
                            buffer: st.buffer.push(c),
                            mag: st.mag * 10 + digit_val(c),
                            scale: st.scale + 1,
                            ..st
                        },
                    )
                } else {
                    trans_err(st, c)
                }
            } else {
                trans_err(st, c)
            }
        },
    }
}

pub open spec fn spec_string_start_step(st: LexSt, c: char) -> Result<LexSt, ErrorV> {
    if c == '"' {
        Ok(LexSt { state: State::StringClose, ..st })
    } else if c == '\\' {
        Ok(LexSt { state: State::Escape, buffer: st.buffer.push(c), ..st })
    } else {
        Ok(LexSt { buffer: st.buffer.push(c), ..st })
    }
}

pub open spec fn spec_escape_step(st: LexSt, c: char) -> Result<LexSt, ErrorV> {
    Ok(LexSt { state: State::StringStart, buffer: st.buffer.push(c), ..st })
}

pub open spec fn spec_string_close_step(st: LexSt, c: char) -> Result<LexSt, ErrorV> {
    match spec_terminator(st, c) {
        Some(r) => r,
        None => trans_err(st, c),
    }
}

pub open spec fn spec_minus_step(st: LexSt, c: char) -> Result<LexSt, ErrorV> {
    match spec_terminator(st, c) {
        Some(r) => r,
        None => {
            if is_digit(c) {
                Ok(
                    LexSt {
                        state: State::Num,
                        buffer: st.buffer.push(c),
                        mag: digit_val(c),
                        ..st
                    },
                )
            } else if c != '"' {
                Ok(LexSt { state: State::Symbol, buffer: st.buffer.push(c), ..st })
            } else {
                trans_err(st, c)
            }
        },
    }
}

pub open spec fn spec_symbol_step(st: LexSt, c: char) -> Result<LexSt, ErrorV> {
    match spec_terminator(st, c) {
        Some(r) => r,
        None => {
            if c != '"' {
                Ok(LexSt { buffer: st.buffer.push(c), ..st })
            } else {
                trans_err(st, c)
            }
        },
    }
}

pub open spec fn spec_comment_step(st: LexSt, c: char) -> Result<LexSt, ErrorV> {
    if c == '\n' {
        Ok(LexSt { state: State::Init, ..st })
    } else {
        Ok(st)
    }
}

/// One character of the state machine.
pub open spec fn lex_step(st: LexSt, c: char) -> Result<LexSt, ErrorV> {
    match st.state {
        State::Init => spec_init_step(st, c),
        State::Comment => spec_comment_step(st, c),
        State::Minus => spec_minus_step(st, c),
        State::Num => spec_num_step(st, c),
        State::Dot => spec_dot_step(st, c),
        State::Float => spec_float_step(st, c),
        State::StringStart => spec_string_start_step(st, c),
        State::Escape => spec_escape_step(st, c),
        State::StringClose => spec_string_close_step(st, c),
        State::Symbol => spec_symbol_step(st, c),
    }
}

/// Run the machine over the remaining characters.
pub open spec fn lex_run(s: Seq<char>, st: LexSt) -> Result<LexSt, ErrorV>
    decreases s.len(),
{
    if s.len() == 0 {
        Ok(st)
    } else {
        match lex_step(st, s[0]) {
            Err(e) => Err(e),
            Ok(st1) => lex_run(s.drop_first(), st1),
        }
    }
}

/// The end-of-input flush: a pending token is emitted, an empty buffer ends
/// silently.
pub open spec fn spec_try_end(st: LexSt) -> Result<Seq<TokenV>, ErrorV> {
    if st.buffer.len() == 0 {
        Ok(st.tokens)
    } else {
        match spec_end_token(st) {
            Err(e) => Err(e),
            Ok(st1) => Ok(st1.tokens),
        }
    }
}

/// The whole lexer: the token stream of `s`, or its first failure.
pub open spec fn lex_spec(s: Seq<char>) -> Result<Seq<TokenV>, ErrorV> {
    match lex_run(s, init_st()) {
        Err(e) => Err(e),
        Ok(st) => spec_try_end(st),
    }
}

/// The lexer: a state, the tokens emitted so far, the buffered text of the
/// token being read, and the running value of a number being read.
#[derive(Debug)]
pub struct Lexer {
    pub state: State,
    pub tokens: Vec<Token>,
    pub buffer: String,
    pub neg: bool,
    pub mag: u64,
    pub scale: u32,
}

impl View for Lexer {
    type V = LexSt;

    open spec fn view(&self) -> LexSt {
        LexSt {
            state: self.state,
            buffer: self.buffer@,
            tokens: self.tokens.deep_view(),
            neg: self.neg,
            mag: self.mag as nat,
            scale: self.scale as nat,
        }
    }
}

/// The machine bounds kept by every reachable lexer state.
pub open spec fn lexer_wf(l: Lexer) -> bool {
    &&& l.mag as nat <= (if l.state is Num || l.state is Dot {
        int_bound(l.neg)
    } else {
        MAG_MAX as nat
    })
    &&& l.scale <= SCALE_MAX
}

impl Lexer {
    /// A lexer in its initial state.
    pub fn new() -> (r: Lexer)
        ensures
            r@ == init_st(),
            lexer_wf(r),
    {
        let r = Lexer {
            state: State::Init,
            tokens: Vec::new(),
            buffer: String::new(),
            neg: false,
            mag: 0,
            scale: 0,
        };
        proof {
            assert(r@ =~= init_st());
        }
        r
    }

    fn trans_ignore(&mut self, state: State)
        ensures
            final(self)@ == (LexSt { state, ..old(self)@ }),
            final(self).state == state,
            final(self).neg == old(self).neg,
            final(self).mag == old(self).mag,
            final(self).scale == old(self).scale,
    {
        self.state = state;
    }

    fn trans(&mut self, c: char, state: State)
        ensures
            final(self)@ == (LexSt { state, buffer: old(self)@.buffer.push(c), ..old(self)@ }),
            final(self).neg == old(self).neg,
            final(self).mag == old(self).mag,
            final(self).scale == old(self).scale,
    {
        self.state = state;
        push_char(&mut self.buffer, c);
    }

    fn push_buffer(&mut self, c: char)
        ensures
            final(self)@ == (LexSt { buffer: old(self)@.buffer.push(c), ..old(self)@ }),
            final(self).neg == old(self).neg,
            final(self).mag == old(self).mag,
            final(self).scale == old(self).scale,
            final(self).state == old(self).state,
    {
        push_char(&mut self.buffer, c);
    }

    fn push_token(&mut self, t: Token)
        ensures
            final(self)@ == (LexSt { tokens: old(self)@.tokens.push(t@), ..old(self)@ }),
            final(self).state == old(self).state,
            final(self).neg == old(self).neg,
            final(self).mag == old(self).mag,
            final(self).scale == old(self).scale,
            final(self).buffer@ == old(self).buffer@,
    {
        self.tokens.push(t);
        proof {
            assert(self@ =~= (LexSt { tokens: old(self)@.tokens.push(t@), ..old(self)@ }));
        }
    }

    fn end_token_trans(&mut self, new_state: State) -> (r: Result<(), Error>)
        requires
            lexer_wf(*old(self)),
        ensures
            match r {
                Ok(()) => spec_end_token_trans(old(self)@, new_state) == Ok::<LexSt, ErrorV>(
                    final(self)@,
                ) && lexer_wf(*final(self)),
                Err(e) => spec_end_token_trans(old(self)@, new_state) == Err::<LexSt, ErrorV>(e@),
            },
    {
        let buf = self.buffer.clone();
        self.buffer = String::new();
        let token: Token = match self.state {
            State::Minus => Token::Symbol(buf),
            State::Num => {
                let v: i64 = if self.neg {
                    -(self.mag as i64)
                } else {
                    self.mag as i64
                };
                Token::Int(v as i32)
            },
            State::Float => {
                let d = match crate::dec::make_from_parts(self.neg, self.mag, self.scale) {
                    Some(d) => d,
                    None => Dec { neg: false, mag: 0, scale: 0 },
                };
                Token::Float(d)
            },
            State::StringClose => Token::String(buf),
            State::Symbol => Token::Symbol(buf),
            _ => {
                return Err(Error::TokenTerminationError(self.state));
            },
        };
        self.tokens.push(token);
        self.state = new_state;
        self.neg = false;
        self.mag = 0;
        self.scale = 0;
        proof {
            let ex = spec_end_token_trans(old(self)@, new_state);
            assert(ex is Ok);
            assert(self@ =~= ex->Ok_0);
        }
        Ok(())
    }

    fn end_token(&mut self) -> (r: Result<(), Error>)
        requires
            lexer_wf(*old(self)),
        ensures
            match r {
                Ok(()) => spec_end_token(old(self)@) == Ok::<LexSt, ErrorV>(final(self)@)
                    && lexer_wf(*final(self)),
                Err(e) => spec_end_token(old(self)@) == Err::<LexSt, ErrorV>(e@),
            },
    {
        self.end_token_trans(State::Init)
    }

    fn end_token_push(&mut self, t: Token) -> (r: Result<(), Error>)
        requires
            lexer_wf(*old(self)),
        ensures
            match r {
                Ok(()) => spec_end_token_push(old(self)@, t@) == Ok::<LexSt, ErrorV>(final(self)@)
                    && lexer_wf(*final(self)),
                Err(e) => spec_end_token_push(old(self)@, t@) == Err::<LexSt, ErrorV>(e@),
            },
    {
        self.end_token()?;
        self.push_token(t);
        Ok(())
    }

    /// The shared terminator handling; `None` when `c` is no terminator and
    /// the state is unchanged.
    fn try_terminator(&mut self, c: char) -> (r: Option<Result<(), Error>>)
        requires
            lexer_wf(*old(self)),
        ensures
            match r {
                None => *final(self) == *old(self) && spec_terminator(old(self)@, c) is None,
                Some(Ok(())) => lexer_wf(*final(self)) && (spec_terminator(old(self)@, c) matches
                    Some(Ok(st)) && st == final(self)@),
                Some(Err(e)) => spec_terminator(old(self)@, c) matches Some(Err(ev)) && ev == e@,
            },
    {
        if is_whitespace(c) {
            Some(self.end_token())
        } else if c == ';' {
            Some(self.end_token_trans(State::Comment))
        } else if c == '(' {
            Some(self.end_token_push(Token::LeftParen))
        } else if c == ')' {
            Some(self.end_token_push(Token::RightParen))
        } else if c == '[' {
            Some(self.end_token_push(Token::LeftBracket))
        } else if c == ']' {
            Some(self.end_token_push(Token::RightBracket))
        } else if c == '{' {
            Some(self.end_token_push(Token::LeftBrace))
        } else if c == '}' {
            Some(self.end_token_push(Token::RightBrace))
        } else {
            None
        }
    }

    /// The transition error for `c` in the current state.
    fn trans_error(&self, c: char) -> (r: Error)
        ensures
            r@ == trans_err(self@, c)->Err_0,
    {
        Error::TransitionError(c, self.buffer.clone(), self.state)
    }

    fn trans_init(&mut self, c: char) -> (r: Result<(), Error>)
        requires
            lexer_wf(*old(self)),
            old(self).state is Init,
        ensures
            match r {
                Ok(()) => spec_init_step(old(self)@, c) == Ok::<LexSt, ErrorV>(final(self)@)
                    && lexer_wf(*final(self)),
                Err(e) => spec_init_step(old(self)@, c) == Err::<LexSt, ErrorV>(e@),
            },
    {
        if is_whitespace(c) {
            // discarded
        } else if c == ';' {
            self.trans_ignore(State::Comment);
        } else if c == '(' {
            self.push_token(Token::LeftParen);
        } else if c == ')' {
            self.push_token(Token::RightParen);
        } else if c == '[' {
            self.push_token(Token::LeftBracket);
        } else if c == ']' {
            self.push_token(Token::RightBracket);
        } else if c == '{' {
            self.push_token(Token::LeftBrace);
        } else if c == '}' {
            self.push_token(Token::RightBrace);
        } else if c == '-' {
            self.trans(c, State::Minus);
            self.neg = true;
        } else if c == '"' {
            self.trans_ignore(State::StringStart);
        } else if is_digit_char(c) {
            self.trans(c, State::Num);
            self.mag = digit_value(c) as u64;
        } else {
            self.trans(c, State::Symbol);
        }
        proof {
            let ex = spec_init_step(old(self)@, c);
            assert(ex is Ok);
            assert(self@ =~= ex->Ok_0);
        }
        Ok(())
    }

    /// Accumulate a digit, or fail at a digit that would exceed the bound.
    fn accumulate_digit(&mut self, c: char, bound: u64) -> (r: Result<(), Error>)
        requires
            '0' <= c && c <= '9',
            old(self).mag <= MAG_MAX,
        ensures
            match r {
                Ok(()) => {
                    &&& old(self)@.mag * 10 + digit_val(c) <= bound as nat
                    &&& final(self).mag as nat == old(self)@.mag * 10 + digit_val(c)
                    &&& final(self).buffer@ == old(self).buffer@.push(c)
                    &&& final(self).state == old(self).state
                    &&& final(self).neg == old(self).neg
                    &&& final(self).scale == old(self).scale
                    &&& final(self)@.tokens == old(self)@.tokens
                },
                Err(e) => {
                    &&& old(self)@.mag * 10 + digit_val(c) > bound as nat
                    &&& *final(self) == *old(self)
                    &&& e@ == trans_err(old(self)@, c)->Err_0
                },
            },
    {
        let d = digit_value(c) as u64;
        let nm = self.mag * 10 + d;
        if nm <= bound {
            self.mag = nm;
            self.push_buffer(c);
            Ok(())
        } else {
            Err(self.trans_error(c))
        }
    }

    fn trans_num(&mut self, c: char) -> (r: Result<(), Error>)
        requires
            lexer_wf(*old(self)),
            old(self).state is Num,
        ensures
            match r {
                Ok(()) => spec_num_step(old(self)@, c) == Ok::<LexSt, ErrorV>(final(self)@)
                    && lexer_wf(*final(self)),
                Err(e) => spec_num_step(old(self)@, c) == Err::<LexSt, ErrorV>(e@),
            },
    {
        match self.try_terminator(c) {
            Some(r) => r,
            None => {
                if is_digit_char(c) {
                    let bound = if self.neg {
                        INT_NEG_MAX
                    } else {
                        INT_POS_MAX
                    };
                    let r = self.accumulate_digit(c, bound);
                    proof {
                        if r is Ok {
                            let ex = spec_num_step(old(self)@, c);
                            assert(self@ =~= ex->Ok_0);
                        }
                    }
                    r
                } else if c == '.' {
                    self.trans(c, State::Dot);
                    proof {
                        let ex = spec_num_step(old(self)@, c);
                        assert(self@ =~= ex->Ok_0);
                    }
                    Ok(())
                } else {
                    Err(self.trans_error(c))
                }
            },
        }
    }

    fn trans_dot(&mut self, c: char) -> (r: Result<(), Error>)
        requires
            lexer_wf(*old(self)),
            old(self).state is Dot,
        ensures
            match r {
                Ok(()) => spec_dot_step(old(self)@, c) == Ok::<LexSt, ErrorV>(final(self)@)
                    && lexer_wf(*final(self)),
                Err(e) => spec_dot_step(old(self)@, c) == Err::<LexSt, ErrorV>(e@),
            },
    {
        if is_digit_char(c) {
            match self.accumulate_digit(c, MAG_MAX) {
                Ok(()) => {
                    self.state = State::Float;
                    self.scale = 1;
                    proof {
                        let ex = spec_dot_step(old(self)@, c);
                        assert(self@ =~= ex->Ok_0);
                    }
                    Ok(())
                },
                Err(e) => Err(e),
            }
        } else {
            Err(self.trans_error(c))
        }
    }

    fn trans_float(&mut self, c: char) -> (r: Result<(), Error>)
        requires
            lexer_wf(*old(self)),
            old(self).state is Float,
        ensures
            match r {
                Ok(()) => spec_float_step(old(self)@, c) == Ok::<LexSt, ErrorV>(final(self)@)
                    && lexer_wf(*final(self)),
                Err(e) => spec_float_step(old(self)@, c) == Err::<LexSt, ErrorV>(e@),
            },
    {
        match self.try_terminator(c) {
            Some(r) => r,
            None => {
                if is_digit_char(c) {
                    if self.scale < SCALE_MAX {
                        match self.accumulate_digit(c, MAG_MAX) {
                            Ok(()) => {
                                self.scale = self.scale + 1;
                                proof {
                                    let ex = spec_float_step(old(self)@, c);
                                    assert(self@ =~= ex->Ok_0);
                                }
                                Ok(())
                            },
                            Err(e) => Err(e),
                        }
                    } else {
                        Err(self.trans_error(c))
                    }
                } else {
                    Err(self.trans_error(c))
                }
            },
        }
    }

    fn trans_string_start(&mut self, c: char) -> (r: Result<(), Error>)
        requires
            lexer_wf(*old(self)),
            old(self).state is StringStart,
        ensures
            match r {
                Ok(()) => spec_string_start_step(old(self)@, c) == Ok::<LexSt, ErrorV>(
                    final(self)@,
                ) && lexer_wf(*final(self)),
                Err(e) => spec_string_start_step(old(self)@, c) == Err::<LexSt, ErrorV>(e@),
            },
    {
        if c == '"' {
            self.trans_ignore(State::StringClose);
        } else if c == '\\' {
            self.trans(c, State::Escape);
        } else {
            self.push_buffer(c);
        }
        proof {
            let ex = spec_string_start_step(old(self)@, c);
            assert(self@ =~= ex->Ok_0);
        }
        Ok(())
    }

    fn trans_escape(&mut self, c: char) -> (r: Result<(), Error>)
        requires
            lexer_wf(*old(self)),
            old(self).state is Escape,
        ensures
            match r {
                Ok(()) => spec_escape_step(old(self)@, c) == Ok::<LexSt, ErrorV>(final(self)@)
                    && lexer_wf(*final(self)),
                Err(e) => spec_escape_step(old(self)@, c) == Err::<LexSt, ErrorV>(e@),
            },
    {
        self.trans(c, State::StringStart);
        proof {
            let ex = spec_escape_step(old(self)@, c);
            assert(self@ =~= ex->Ok_0);
        }
        Ok(())
    }

    fn trans_string_close(&mut self, c: char) -> (r: Result<(), Error>)
        requires
            lexer_wf(*old(self)),
            old(self).state is StringClose,
        ensures
            match r {
                Ok(()) => spec_string_close_step(old(self)@, c) == Ok::<LexSt, ErrorV>(
                    final(self)@,
                ) && lexer_wf(*final(self)),
                Err(e) => spec_string_close_step(old(self)@, c) == Err::<LexSt, ErrorV>(e@),
            },
    {
        match self.try_terminator(c) {
            Some(r) => r,
            None => Err(self.trans_error(c)),
        }
    }

    fn trans_minus(&mut self, c: char) -> (r: Result<(), Error>)
        requires
            lexer_wf(*old(self)),
            old(self).state is Minus,
        ensures
            match r {
                Ok(()) => spec_minus_step(old(self)@, c) == Ok::<LexSt, ErrorV>(final(self)@)
                    && lexer_wf(*final(self)),
                Err(e) => spec_minus_step(old(self)@, c) == Err::<LexSt, ErrorV>(e@),
            },
    {
        match self.try_terminator(c) {
            Some(r) => r,
            None => {
                if is_digit_char(c) {
                    self.trans(c, State::Num);
                    self.mag = digit_value(c) as u64;
                    proof {
                        let ex = spec_minus_step(old(self)@, c);
                        assert(self@ =~= ex->Ok_0);
                    }
                    Ok(())
                } else if c != '"' {
                    self.trans(c, State::Symbol);
                    proof {
                        let ex = spec_minus_step(old(self)@, c);
                        assert(self@ =~= ex->Ok_0);
                    }
                    Ok(())
                } else {
                    Err(self.trans_error(c))
                }
            },
        }
    }

    fn trans_symbol(&mut self, c: char) -> (r: Result<(), Error>)
        requires
            lexer_wf(*old(self)),
            old(self).state is Symbol,
        ensures
            match r {
                Ok(()) => spec_symbol_step(old(self)@, c) == Ok::<LexSt, ErrorV>(final(self)@)
                    && lexer_wf(*final(self)),
                Err(e) => spec_symbol_step(old(self)@, c) == Err::<LexSt, ErrorV>(e@),
            },
    {
        match self.try_terminator(c) {
            Some(r) => r,
            None => {
                if c != '"' {
                    self.push_buffer(c);
                    proof {
                        let ex = spec_symbol_step(old(self)@, c);
                        assert(self@ =~= ex->Ok_0);
                    }
                    Ok(())
                } else {
                    Err(self.trans_error(c))
                }
            },
        }
    }

    fn trans_comment(&mut self, c: char) -> (r: Result<(), Error>)
        requires
            lexer_wf(*old(self)),
            old(self).state is Comment,
        ensures
            match r {
                Ok(()) => spec_comment_step(old(self)@, c) == Ok::<LexSt, ErrorV>(final(self)@)
                    && lexer_wf(*final(self)),
                Err(e) => spec_comment_step(old(self)@, c) == Err::<LexSt, ErrorV>(e@),
            },
    {
        if c == '\n' {
            self.trans_ignore(State::Init);
        }
        Ok(())
    }

    /// One character of the state machine.
    fn process_char(&mut self, c: char) -> (r: Result<(), Error>)
        requires
            lexer_wf(*old(self)),
        ensures
            match r {
                Ok(()) => lex_step(old(self)@, c) == Ok::<LexSt, ErrorV>(final(self)@) && lexer_wf(
                    *final(self),
                ),
                Err(e) => lex_step(old(self)@, c) == Err::<LexSt, ErrorV>(e@),
            },
    {
        match self.state {
            State::Init => self.trans_init(c),
            State::Comment => self.trans_comment(c),
            State::Minus => self.trans_minus(c),
            State::Num => self.trans_num(c),
            State::Dot => self.trans_dot(c),
            State::Float => self.trans_float(c),
            State::StringStart => self.trans_string_start(c),
            State::Escape => self.trans_escape(c),
            State::StringClose => self.trans_string_close(c),
            State::Symbol => self.trans_symbol(c),
        }
    }

    fn try_end_token(&mut self) -> (r: Result<(), Error>)
        requires
            lexer_wf(*old(self)),
        ensures
            match r {
                Ok(()) => spec_try_end(old(self)@) == Ok::<Seq<TokenV>, ErrorV>(
                    final(self)@.tokens,
                ),
                Err(e) => spec_try_end(old(self)@) == Err::<Seq<TokenV>, ErrorV>(e@),
            },
    {
        if !self.buffer.as_str().is_empty() {
            self.end_token()
        } else {
            Ok(())
        }
    }

    /// The token stream of `input`, or the lexer's first failure, exactly as
    /// `lex_spec` gives it.
    pub fn tokenize(self, input: &str) -> (r: Result<Vec<Token>, Error>)
        requires
            lexer_wf(self),
            self@ == init_st(),
        ensures
            match r {
                Ok(ts) => lex_spec(input@) == Ok::<Seq<TokenV>, ErrorV>(ts.deep_view()),
                Err(e) => lex_spec(input@) == Err::<Seq<TokenV>, ErrorV>(e@),
            },
    {
        let mut lx = self;
        let n = input.unicode_len();
        let mut i: usize = 0;
        proof {
            assert(input@.skip(0) =~= input@);
        }
        while i < n
            invariant
                n == input@.len(),
                i <= n,
                lexer_wf(lx),
                lex_run(input@, init_st()) == lex_run(input@.skip(i as int), lx@),
            decreases n - i,
        {
            let c = input.get_char(i);
            proof {
                assert(input@.skip(i as int).len() > 0);
                assert(input@.skip(i as int)[0] == c);
                assert(input@.skip(i as int).drop_first() =~= input@.skip(i as int + 1));
            }
            match lx.process_char(c) {
                Ok(()) => {},
                Err(e) => {
                    return Err(e);
                },
            }
            i = i + 1;
        }
        proof {
            assert(input@.skip(n as int) =~= Seq::<char>::empty());
        }
        match lx.try_end_token() {
            Ok(()) => Ok(lx.tokens),
            Err(e) => Err(e),
        }
    }
}

} // verus!
