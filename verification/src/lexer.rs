//! The tokenizer: a machine with two modes over one cursor.
//!
//! In raw mode it runs the raw classifier. A quote switches it to
//! string-literal mode, in which it takes every byte as it stands up to the
//! quote that matches the opening one, and then switches back. One call of
//! `Lexer::next_token` runs the machine until it has a token, so the caller
//! sees a string literal as one token.
use vstd::prelude::*;
use vstd::string::StringSliceAdditionalSpecFns;
use crate::classes::{lemma_run_end, run_end, scan_run, Class};
use crate::raw::{raw_end, raw_token, raw_token_at, token_start, Span};
use crate::rules::{is_quote, lemma_match_end_in_bounds};
use crate::text::{lemma_cuts_of_text, slice_of};
use crate::token::{Token, TokenView};

verus! {

/// The mode of the tokenizer.
#[derive(Copy, Clone, Debug, PartialEq, Eq, Structural)]
pub enum Mode {
    /// Between tokens: the rule set applies.
    Raw,
    /// Inside a string literal that the given quote opened.
    StringLiteral(u8),
}

/// What the tokenizer reports in place of a token.
#[derive(Copy, Clone, Debug, PartialEq, Eq, Structural)]
pub enum LexError {
    /// The input ended inside a string literal.
    UnterminatedString,
}

/// What one transition of the machine yields.
#[derive(Clone, Debug, PartialEq, Eq)]
pub enum Step<'input> {
    /// A token.
    Token(Token<'input>),
    /// Nothing yet: a quote was read and the machine is now in
    /// string-literal mode.
    Opened,
    /// The input ended inside a string literal.
    Unterminated,
    /// Nothing: the end of the stream had been reported before.
    Finished,
}

/// The mathematical value of a `Step`.
pub enum StepView {
    Token(TokenView),
    Opened,
    Unterminated,
    Finished,
}

impl<'input> View for Step<'input> {
    type V = StepView;

    open spec fn view(&self) -> StepView {
        match *self {
            Step::Token(t) => StepView::Token(t@),
            Step::Opened => StepView::Opened,
            Step::Unterminated => StepView::Unterminated,
            Step::Finished => StepView::Finished,
        }
    }
}

/// The state of the machine.
pub struct State {
    /// Where the token that was read last starts; in string-literal mode,
    /// where the opening quote stands.
    pub start: int,
    /// The position up to which the input has been read.
    pub cursor: int,
    pub mode: Mode,
    /// Whether the end of the stream has been reported.
    pub done: bool,
}

impl State {
    /// The state before anything is read.
    pub open spec fn initial() -> State {
        State { start: 0, cursor: 0, mode: Mode::Raw, done: false }
    }

    /// The states that the machine can be in on the input `s`.
    pub open spec fn valid(self, s: Seq<u8>) -> bool {
        &&& 0 <= self.start <= self.cursor <= s.len()
        &&& self.done ==> self.cursor == s.len() && self.mode == Mode::Raw
        &&& self.mode matches Mode::StringLiteral(quote) ==> {
            &&& is_quote(quote)
            &&& self.start + 1 == self.cursor
            &&& s[self.start] == quote
        }
    }
}

/// One transition of the machine on the input `s`: what it yields and the
/// state it leaves.
pub open spec fn step(s: Seq<u8>, st: State) -> (StepView, State) {
    match st.mode {
        Mode::Raw => {
            let p = token_start(s, st.cursor);
            if p >= s.len() {
                let end = State { start: p, cursor: p, mode: Mode::Raw, done: true };
                if st.done {
                    (StepView::Finished, end)
                } else {
                    (StepView::Token(TokenView::EndOfStream), end)
                }
            } else if raw_token(s, p) is StringLiteral {
                (
                    StepView::Opened,
                    State { start: p, cursor: p + 1, mode: Mode::StringLiteral(s[p]), done: false },
                )
            } else {
                (
                    StepView::Token(raw_token(s, p)),
                    State { start: p, cursor: raw_end(s, p), mode: Mode::Raw, done: false },
                )
            }
        },
        Mode::StringLiteral(quote) => {
            let close = run_end(s, Class::Except(quote), st.cursor);
            if close < s.len() {
                (
                    StepView::Token(TokenView::StringLiteral(s.subrange(st.cursor, close))),
                    State { start: st.start, cursor: close + 1, mode: Mode::Raw, done: false },
                )
            } else {
                (
                    StepView::Unterminated,
                    State { start: st.start, cursor: close, mode: Mode::Raw, done: false },
                )
            }
        },
    }
}

/// The transitions up to the next token: one, or two where the first
/// opens a string literal.
pub open spec fn next(s: Seq<u8>, st: State) -> (StepView, State) {
    let first = step(s, st);
    if first.0 is Opened {
        step(s, first.1)
    } else {
        first
    }
}

/// A transition leads from a valid state to a valid state, never moves the
/// cursor back, and what it yields lies between the old cursor and the new
/// one.
pub proof fn lemma_step_valid(s: Seq<u8>, st: State)
    requires
        st.valid(s),
    ensures
        step(s, st).1.valid(s),
        st.cursor <= step(s, st).1.cursor,
        st.mode == Mode::Raw ==> st.cursor <= step(s, st).1.start,
        step(s, st).0 is Opened ==> step(s, st).1.mode is StringLiteral,
        !(step(s, st).0 is Opened) ==> step(s, st).1.mode == Mode::Raw,
{
    match st.mode {
        Mode::Raw => {
            lemma_run_end(s, Class::Blank, st.cursor);
            let p = token_start(s, st.cursor);
            if p < s.len() {
                lemma_raw_end_in_bounds(s, p);
            }
        },
        Mode::StringLiteral(quote) => {
            lemma_run_end(s, Class::Except(quote), st.cursor);
        },
    }
}

/// A raw token ends after its start and within the text, and the one that
/// the classifier reports as a string literal is one quote.
pub proof fn lemma_raw_end_in_bounds(s: Seq<u8>, p: int)
    requires
        0 <= p < s.len(),
    ensures
        p < raw_end(s, p) <= s.len(),
        raw_token(s, p) is StringLiteral ==> is_quote(s[p]) && raw_end(s, p) == p + 1,
{
    lemma_match_end_in_bounds(s, p);
}

/// The tokenizer over one input text.
pub struct Lexer<'input> {
    input: &'input str,
    span: Span,
    mode: Mode,
    done: bool,
}

impl<'input> Lexer<'input> {
    #[verifier::type_invariant]
    spec fn well_formed(self) -> bool {
        self.state().valid(self.source())
    }

    /// The bytes of the input.
    pub closed spec fn source(&self) -> Seq<u8> {
        self.input.spec_bytes()
    }

    /// The state of the machine.
    pub closed spec fn state(&self) -> State {
        State {
            start: self.span.start as int,
            cursor: self.span.end as int,
            mode: self.mode,
            done: self.done,
        }
    }

    /// A tokenizer at the start of `input`, in raw mode.
    pub fn new(input: &'input str) -> (r: Self)
        ensures
            r.source() == input.spec_bytes(),
            r.state() == State::initial(),
    {
        Lexer { input, span: Span { start: 0, end: 0 }, mode: Mode::Raw, done: false }
    }

    /// Runs one transition of the machine.
    pub fn step(&mut self) -> (r: Step<'input>)
        ensures
            final(self).source() == old(self).source(),
            old(self).state().valid(old(self).source()),
            (r@, final(self).state()) == step(old(self).source(), old(self).state()),
    {
        proof {
            use_type_invariant(&*self);
            lemma_step_valid(self.source(), self.state());
        }
        let bytes = self.input.as_bytes();
        match self.mode {
            Mode::Raw => {
                proof {
                    lemma_run_end(self.source(), Class::Blank, self.span.end as int);
                }
                match raw_token_at(self.input, self.span.end) {
                    None => {
                        let end = bytes.len();
                        let seen = self.done;
                        self.span = Span { start: end, end };
                        self.done = true;
                        if seen {
                            Step::Finished
                        } else {
                            Step::Token(Token::EndOfStream)
                        }
                    },
                    Some((Token::StringLiteral(_), span)) => {
                        proof {
                            lemma_raw_end_in_bounds(self.source(), span.start as int);
                        }
                        self.span = span;
                        self.mode = Mode::StringLiteral(bytes[span.start]);
                        Step::Opened
                    },
                    Some((token, span)) => {
                        self.span = span;
                        Step::Token(token)
                    },
                }
            },
            Mode::StringLiteral(quote) => {
                let from = self.span.end;
                let close = scan_run(bytes, Class::Except(quote), from);
                self.mode = Mode::Raw;
                if close < bytes.len() {
                    proof {
                        lemma_run_end(self.source(), Class::Except(quote), from as int);
                        lemma_cuts_of_text(self.input, from as int, close as int);
                    }
                    let content = slice_of(self.input, from, close);
                    self.span = Span { start: self.span.start, end: close + 1 };
                    Step::Token(Token::StringLiteral(content.to_owned()))
                } else {
                    self.span = Span { start: self.span.start, end: close };
                    Step::Unterminated
                }
            },
        }
    }

    /// Reads the next token. A string literal comes as one token, with the
    /// text between its quotes. After the last token of the input comes
    /// `EndOfStream`, once, and then `None`. Where the input ends inside a
    /// string literal, the rest of the input is consumed and the error is
    /// returned in place of a token.
    pub fn next_token(&mut self) -> (r: Option<Result<Token<'input>, LexError>>)
        ensures
            final(self).source() == old(self).source(),
            old(self).state().valid(old(self).source()),
            final(self).state() == next(old(self).source(), old(self).state()).1,
            match next(old(self).source(), old(self).state()).0 {
                StepView::Token(t) => r matches Some(Ok(token)) && token@ == t,
                StepView::Unterminated => r == Some(
                    Err::<Token<'input>, LexError>(LexError::UnterminatedString),
                ),
                StepView::Finished => r is None,
                StepView::Opened => false,
            },
    {
        proof {
            use_type_invariant(&*self);
            lemma_step_valid(self.source(), self.state());
            lemma_step_valid(self.source(), step(self.source(), self.state()).1);
        }
        let first = self.step();
        let last = match first {
            Step::Opened => self.step(),
            other => other,
        };
        match last {
            Step::Token(token) => Some(Ok(token)),
            Step::Unterminated => Some(Err(LexError::UnterminatedString)),
            Step::Finished => None,
            Step::Opened => None,
        }
    }

    /// The place of the token that was read last, quotes included.
    pub fn span(&self) -> (r: Span)
        ensures
            r.start == self.state().start,
            r.end == self.state().cursor,
    {
        self.span
    }

    /// The mode that the machine is in.
    pub fn mode(&self) -> (r: Mode)
        ensures
            r == self.state().mode,
    {
        self.mode
    }
}

} // verus!
