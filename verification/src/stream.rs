//! The token stream as a whole, and what holds of it on every input.
use vstd::prelude::*;
use crate::classes::{lemma_run_end, Class, CARRIAGE_RETURN, LINE_FEED};
use crate::keywords::lemma_no_keyword_at;
use crate::lexer::{lemma_step_valid, next, step, Mode, State, StepView};
use crate::raw::{raw_end, raw_token, token_start};
use crate::rules::{winner, Rule};
use crate::token::TokenView;

verus! {

/// How far a state is from the end of the stream, as far as the cursor
/// does not tell: a string literal is still to be closed, the end of the
/// stream is still to be reported, or nothing is left.
pub open spec fn rest(st: State) -> int {
    if st.mode is StringLiteral {
        2
    } else if !st.done {
        1
    } else {
        0
    }
}

/// Whether the tokenizer has anything left to yield in state `st`.
pub open spec fn live(s: Seq<u8>, st: State) -> bool {
    st.valid(s) && !(next(s, st).0 is Finished)
}

/// Everything that the tokenizer yields from the state `st` on, call by
/// call: tokens and errors, with `EndOfStream` last.
pub open spec fn stream(s: Seq<u8>, st: State) -> Seq<StepView>
    decreases s.len() - st.cursor, rest(st),
{
    if live(s, st) {
        proof {
            lemma_next_valid(s, st);
        }
        seq![next(s, st).0] + stream(s, next(s, st).1)
    } else {
        Seq::empty()
    }
}

/// The text that the tokenizer consumes from the state `st` on: for each
/// call the white space that it skips, then the text of what it yields.
pub open spec fn consumed(s: Seq<u8>, st: State) -> Seq<u8>
    decreases s.len() - st.cursor, rest(st),
{
    if live(s, st) && st.mode == Mode::Raw {
        proof {
            lemma_next_valid(s, st);
        }
        let after = next(s, st).1;
        s.subrange(st.cursor, after.start) + s.subrange(after.start, after.cursor) + consumed(
            s,
            after,
        )
    } else {
        Seq::empty()
    }
}

/// A call leads from a valid state to a valid state in raw mode, and
/// brings the stream nearer to its end. What it yields starts at or after
/// the old cursor and ends at the new one, and only white space lies
/// between the old cursor and its start.
pub proof fn lemma_next_valid(s: Seq<u8>, st: State)
    requires
        st.valid(s),
    ensures
        next(s, st).1.valid(s),
        next(s, st).1.mode == Mode::Raw,
        !(next(s, st).0 is Opened),
        next(s, st).0 is Finished <==> st.done,
        st.cursor <= next(s, st).1.cursor,
        st.cursor == next(s, st).1.cursor ==> rest(next(s, st).1) < rest(st) || st.done,
        st.mode == Mode::Raw ==> st.cursor <= next(s, st).1.start,
        st.mode == Mode::Raw ==> next(s, st).1.start == token_start(s, st.cursor),
        st.mode == Mode::Raw ==> forall|k: int|
            st.cursor <= k < next(s, st).1.start ==> Class::Blank.contains(#[trigger] s[k]),
{
    lemma_step_valid(s, st);
    lemma_step_valid(s, step(s, st).1);
    lemma_run_end(s, Class::Blank, st.cursor);
}

/// Losslessness, from any state between two tokens: the white space and
/// the texts that the tokenizer consumes from there on, put together in
/// order, are the input from the cursor to its end.
pub proof fn lemma_consumed_is_rest_of_input(s: Seq<u8>, st: State)
    requires
        st.valid(s),
        st.mode == Mode::Raw,
        !st.done,
    ensures
        consumed(s, st) == s.subrange(st.cursor, s.len() as int),
    decreases s.len() - st.cursor, rest(st),
{
    lemma_next_valid(s, st);
    let after = next(s, st).1;
    if after.done {
        assert(consumed(s, after) =~= Seq::<u8>::empty()) by {
            lemma_next_valid(s, after);
        }
    } else {
        lemma_consumed_is_rest_of_input(s, after);
    }
    assert(s.subrange(st.cursor, after.start) + s.subrange(after.start, after.cursor)
        + s.subrange(after.cursor, s.len() as int) =~= s.subrange(st.cursor, s.len() as int));
}

/// Losslessness: the white space that the tokenizer skips and the texts of
/// what it yields, put together in order, are the input.
pub proof fn lemma_lossless(s: Seq<u8>)
    ensures
        consumed(s, State::initial()) == s,
{
    lemma_consumed_is_rest_of_input(s, State::initial());
    assert(s.subrange(0, s.len() as int) =~= s);
}

/// In string-literal mode only the quote that opened the literal closes
/// it: the content is the input from the cursor up to the first byte equal
/// to that quote, whatever else stands in it, the other quote included;
/// and where no such byte is left, the literal is unterminated and the
/// rest of the input is consumed.
pub proof fn lemma_only_the_opening_quote_closes(s: Seq<u8>, st: State, quote: u8)
    requires
        st.valid(s),
        st.mode == Mode::StringLiteral(quote),
    ensures
        match step(s, st).0 {
            StepView::Token(TokenView::StringLiteral(content)) => {
                &&& st.cursor + content.len() < s.len()
                &&& content == s.subrange(st.cursor, st.cursor + content.len())
                &&& forall|k: int| 0 <= k < content.len() ==> content[k] != quote
                &&& s[st.cursor + content.len()] == quote
                &&& step(s, st).1.cursor == st.cursor + content.len() + 1
            },
            StepView::Unterminated => {
                &&& forall|k: int| st.cursor <= k < s.len() ==> s[k] != quote
                &&& step(s, st).1.cursor == s.len()
            },
            _ => false,
        },
        step(s, st).1.mode == Mode::Raw,
{
    lemma_run_end(s, Class::Except(quote), st.cursor);
}

/// Whether the byte at `i` is white space within a line, a line feed, or a
/// carriage return that a line feed follows.
pub open spec fn is_white_at(s: Seq<u8>, i: int) -> bool {
    ||| Class::Blank.contains(s[i])
    ||| s[i] == LINE_FEED
    ||| s[i] == CARRIAGE_RETURN && i + 1 < s.len() && s[i + 1] == LINE_FEED
}

/// The number of line feeds in `s` from position `i` on.
pub open spec fn line_feeds(s: Seq<u8>, i: int) -> nat
    decreases s.len() - i,
{
    if 0 <= i < s.len() {
        line_feeds(s, i + 1) + if s[i] == LINE_FEED {
            1nat
        } else {
            0nat
        }
    } else {
        0
    }
}

/// `n` line breaks and then the end of the stream.
pub open spec fn newlines_then_end(n: nat) -> Seq<StepView> {
    Seq::new(n, |i: int| StepView::Token(TokenView::Newline)).push(
        StepView::Token(TokenView::EndOfStream),
    )
}

/// At a line feed, or a carriage return that a line feed follows, the
/// classifier reads a line break and nothing else.
pub proof fn lemma_newline_wins(s: Seq<u8>, p: int)
    requires
        0 <= p < s.len(),
        s[p] == LINE_FEED || (s[p] == CARRIAGE_RETURN && p + 1 < s.len() && s[p + 1] == LINE_FEED),
    ensures
        raw_token(s, p) == TokenView::Newline,
        raw_end(s, p) == if s[p] == LINE_FEED {
            p + 1
        } else {
            p + 2
        },
{
    lemma_run_end(s, Class::Digit, p);
    lemma_no_keyword_at(s, p);
    assert(winner(s, p) == Rule::Newline);
}

proof fn lemma_line_feeds_skip_blanks(s: Seq<u8>, from: int, to: int)
    requires
        0 <= from <= to <= s.len(),
        forall|k: int| from <= k < to ==> Class::Blank.contains(#[trigger] s[k]),
    ensures
        line_feeds(s, from) == line_feeds(s, to),
    decreases to - from,
{
    if from < to {
        lemma_line_feeds_skip_blanks(s, from + 1, to);
    }
}

/// On white space and line breaks alone, from any state between two
/// tokens, the tokenizer yields one line break for each line feed that is
/// left, and then the end of the stream.
pub proof fn lemma_white_space_from(s: Seq<u8>, st: State)
    requires
        st.valid(s),
        st.mode == Mode::Raw,
        !st.done,
        forall|i: int| st.cursor <= i < s.len() ==> is_white_at(s, i),
    ensures
        stream(s, st) == newlines_then_end(line_feeds(s, st.cursor)),
    decreases s.len() - st.cursor,
{
    lemma_next_valid(s, st);
    lemma_run_end(s, Class::Blank, st.cursor);
    let p = token_start(s, st.cursor);
    let after = next(s, st).1;
    lemma_line_feeds_skip_blanks(s, st.cursor, p);
    if p >= s.len() {
        lemma_next_valid(s, after);
        assert(stream(s, after) =~= Seq::<StepView>::empty());
        assert(stream(s, st) =~= newlines_then_end(0));
    } else {
        assert(is_white_at(s, p));
        lemma_newline_wins(s, p);
        assert(after.cursor == raw_end(s, p));
        lemma_white_space_from(s, after);
        let n = line_feeds(s, after.cursor);
        assert(line_feeds(s, p) == n + 1) by {
            if s[p] != LINE_FEED {
                assert(line_feeds(s, p) == line_feeds(s, p + 1));
            }
        }
        assert(seq![StepView::Token(TokenView::Newline)] + newlines_then_end(n)
            =~= newlines_then_end(n + 1));
    }
}

/// On an input of white space and line breaks alone the tokenizer yields
/// one line break for each line feed, then the end of the stream, and
/// nothing else.
pub proof fn lemma_white_space_only(s: Seq<u8>)
    requires
        forall|i: int| 0 <= i < s.len() ==> is_white_at(s, i),
    ensures
        stream(s, State::initial()) == newlines_then_end(line_feeds(s, 0)),
{
    lemma_white_space_from(s, State::initial());
}

} // verus!
