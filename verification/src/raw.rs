//! The raw classifier: from a position in the input to the token that
//! stands there.
//!
//! It skips the white space within a line, classifies what follows by the
//! rule set, and takes one byte as an unexpected token where no rule
//! matches. A quote is reported as a string literal without content: to
//! read the content is the work of the tokenizer that drives this one.
use vstd::prelude::*;
use vstd::string::StringSliceAdditionalSpecFns;
use crate::classes::{
    lemma_run_end, lemma_run_end_at_least, run_end, scan_run, Class, BANG, DIGIT_0, LINE_FEED,
    LOWER_X, SLASH,
};
use crate::keywords::{
    lemma_keyword_initial, lemma_keyword_is_word, lemma_keywords_differ, lemma_no_keyword_at,
};
use crate::patterns::lemma_match_end_is_longest;
use crate::rules::{
    byte_at, comment_end, exponent_end, identifier_end, keyword_at, lemma_line_end, line_break_at,
    line_end, mantissa_end, winner, Rule,
};
use crate::scan::{classify, scan_keyword};
use crate::text::{is_ascii_byte, is_cut, lemma_cuts_of_text, slice_of};
use crate::token::{CommentKind, CommentToken, Keyword, Symbol, Token, TokenView};

verus! {

/// Where a token stands in the input: the byte positions `start..end`.
#[derive(Copy, Clone, Debug, PartialEq, Eq, Structural)]
pub struct Span {
    pub start: usize,
    pub end: usize,
}

/// Where the token that is read from `cursor` starts: after the white space
/// within the line.
pub open spec fn token_start(s: Seq<u8>, cursor: int) -> int {
    run_end(s, Class::Blank, cursor)
}

/// Where the token that starts at `p` ends: with the longest match, or
/// after one byte where no rule matches.
pub open spec fn raw_end(s: Seq<u8>, p: int) -> int {
    let end = winner(s, p).match_end(s, p);
    if p < end {
        end
    } else {
        p + 1
    }
}

/// The token that starts at `p`.
pub open spec fn raw_token(s: Seq<u8>, p: int) -> TokenView {
    let rule = winner(s, p);
    let end = rule.match_end(s, p);
    if end <= p {
        TokenView::UnexpectedToken
    } else {
        match rule {
            Rule::Symbol => TokenView::Symbol(Symbol::of_byte(s[p]).unwrap()),
            Rule::Keyword => TokenView::Keyword(keyword_at(s, p).unwrap()),
            Rule::Identifier => TokenView::Ident(s.subrange(p, end)),
            Rule::HexFloat => TokenView::FloatLiteral(s.subrange(p, end)),
            Rule::HexInteger => TokenView::IntegerLiteral(s.subrange(p, end)),
            Rule::DecimalFloat => TokenView::FloatLiteral(s.subrange(p, end)),
            Rule::DecimalInteger => TokenView::IntegerLiteral(s.subrange(p, end)),
            Rule::OuterDocstring => TokenView::Comment(
                CommentKind::OuterDocstring,
                s.subrange(p + 3, end),
            ),
            Rule::InnerDocstring => TokenView::Comment(
                CommentKind::InnerDocstring,
                s.subrange(p + 3, end),
            ),
            Rule::Comment => TokenView::Comment(CommentKind::Comment, s.subrange(p + 2, end)),
            Rule::Newline => TokenView::Newline,
            Rule::Quote => TokenView::StringLiteral(Seq::empty()),
        }
    }
}

/// A literal or an identifier starts with an ASCII byte and ends with one,
/// so it can be cut out of the text.
pub proof fn lemma_word_cuts(rule: Rule, s: Seq<u8>, p: int)
    requires
        0 <= p < s.len(),
        p < rule.match_end(s, p),
        rule == Rule::Identifier || rule == Rule::HexFloat || rule == Rule::HexInteger || rule
            == Rule::DecimalFloat || rule == Rule::DecimalInteger,
    ensures
        rule.match_end(s, p) <= s.len(),
        is_ascii_byte(s[p]),
        is_ascii_byte(s[rule.match_end(s, p) - 1]),
{
    lemma_run_end(s, Class::Word, p + 1);
    lemma_run_end(s, Class::DigitOrUnderscore, p + 1);
    lemma_run_end(s, Class::Digit, p);
    if p + 2 <= s.len() {
        lemma_run_end(s, Class::HexDigitOrUnderscore, p + 2);
    }
    let class = if rule == Rule::HexFloat {
        Class::HexDigit
    } else {
        Class::Digit
    };
    let from = if rule == Rule::HexFloat {
        p + 2
    } else {
        p
    };
    if from <= s.len() {
        let whole = run_end(s, class, from);
        lemma_run_end(s, class, from);
        if whole + 1 <= s.len() {
            lemma_run_end(s, class, whole + 1);
        }
        let dotted = mantissa_end(s, from, class, rule == Rule::HexFloat);
        lemma_exponent_digits(s, dotted);
        lemma_exponent_digits(s, whole);
    }
}

/// An exponent, where there is one, ends with a digit.
proof fn lemma_exponent_digits(s: Seq<u8>, i: int)
    ensures
        forall|lower: u8, upper: u8|
            i < #[trigger] exponent_end(s, i, lower, upper) ==> {
                &&& exponent_end(s, i, lower, upper) <= s.len()
                &&& is_ascii_byte(s[exponent_end(s, i, lower, upper) - 1])
            },
{
    if 0 <= i && i + 1 <= s.len() {
        lemma_run_end(s, Class::Digit, i + 1);
    }
    if 0 <= i && i + 2 <= s.len() {
        lemma_run_end(s, Class::Digit, i + 2);
    }
}

/// A comment starts with ASCII bytes and ends before a line break or at
/// the end of the text, so its content can be cut out of the text.
pub proof fn lemma_comment_cuts(s: Seq<u8>, p: int, mark: Seq<u8>)
    requires
        0 <= p < s.len(),
        p < comment_end(s, p, mark),
        mark.len() == 0 || (mark.len() == 1 && is_ascii_byte(mark[0])),
    ensures
        p + 2 + mark.len() <= comment_end(s, p, mark) <= s.len(),
        is_cut(s, p + 2 + mark.len()),
        is_cut(s, comment_end(s, p, mark)),
{
    lemma_line_end(s, p + 2 + mark.len());
    if mark.len() == 1 {
        assert(s.subrange(p + 2, p + 3)[0] == mark[0]);
    }
}

/// A reserved word is read only as the whole of what would otherwise be
/// an identifier. Where an identifier starts at `p`, the token is the
/// reserved word that its text spells, if it spells one, and else the
/// identifier; either way it ends where the identifier ends.
pub proof fn lemma_keyword_or_identifier(s: Seq<u8>, p: int)
    requires
        0 <= p < identifier_end(s, p),
        p < s.len(),
    ensures
        raw_end(s, p) == identifier_end(s, p),
        forall|k: Keyword|
            s.subrange(p, raw_end(s, p)) == #[trigger] k.spelling() ==> raw_token(s, p)
                == TokenView::Keyword(k),
        (forall|k: Keyword| s.subrange(p, raw_end(s, p)) != #[trigger] k.spelling())
            ==> raw_token(s, p) == TokenView::Ident(s.subrange(p, raw_end(s, p))),
{
    let end = identifier_end(s, p);
    lemma_run_end(s, Class::Digit, p);
    lemma_run_end(s, Class::Word, p + 1);
    lemma_match_end_is_longest(Rule::Keyword, s, p);
    match keyword_at(s, p) {
        Some(found) => {
            lemma_keyword_is_word(found);
            let n = found.spelling().len() as int;
            assert forall|j: int| p + 1 <= j < p + n implies Class::Word.contains(
                #[trigger] s[j],
            ) by {
                assert(s.subrange(p, p + n)[j - p] == s[j]);
            }
            lemma_run_end_at_least(s, Class::Word, p + 1, p + n);
        },
        None => {},
    }
    assert(winner(s, p) == Rule::Keyword || winner(s, p) == Rule::Identifier);
    assert forall|k: Keyword| s.subrange(p, end) == #[trigger] k.spelling() implies raw_token(s, p)
        == TokenView::Keyword(k) by {
        assert(Rule::Keyword.matches(s, p, end));
        let found = keyword_at(s, p).unwrap();
        if found != k {
            let j = lemma_keywords_differ(found, k);
            assert(s.subrange(p, p + found.spelling().len())[j] == s[p + j]);
            assert(s.subrange(p, end)[j] == s[p + j]);
        }
    }
}

/// A bare `0x`, where neither a hexadecimal integer nor a hexadecimal
/// float starts, is read as the integer `0`, and what follows it is read
/// anew: an identifier that starts with the `x`.
pub proof fn lemma_bare_hex_prefix(s: Seq<u8>, p: int)
    requires
        0 <= p,
        p + 1 < s.len(),
        s[p] == DIGIT_0,
        s[p + 1] == LOWER_X,
        Rule::HexInteger.match_end(s, p) == p,
        Rule::HexFloat.match_end(s, p) == p,
    ensures
        raw_token(s, p) == TokenView::IntegerLiteral(seq![DIGIT_0]),
        raw_end(s, p) == p + 1,
        raw_token(s, p + 1) == TokenView::Ident(s.subrange(p + 1, raw_end(s, p + 1))),
        raw_end(s, p + 1) == identifier_end(s, p + 1),
{
    lemma_run_end(s, Class::Digit, p);
    lemma_run_end(s, Class::Digit, p + 1);
    lemma_run_end(s, Class::DigitOrUnderscore, p + 1);
    lemma_no_keyword_at(s, p);
    assert(winner(s, p) == Rule::DecimalInteger);
    assert(s.subrange(p, p + 1) =~= seq![DIGIT_0]);
    lemma_run_end(s, Class::Word, p + 2);
    lemma_keyword_or_identifier(s, p + 1);
    assert forall|k: Keyword| s.subrange(p + 1, raw_end(s, p + 1)) != #[trigger] k.spelling() by {
        lemma_keyword_initial(k);
        assert(s.subrange(p + 1, raw_end(s, p + 1))[0] == s[p + 1]);
    }
}

/// The kind of the comment that `//` starts.
pub open spec fn comment_kind_at(s: Seq<u8>, p: int) -> CommentKind {
    if byte_at(s, p + 2, SLASH) {
        CommentKind::OuterDocstring
    } else if byte_at(s, p + 2, BANG) {
        CommentKind::InnerDocstring
    } else {
        CommentKind::Comment
    }
}

/// Where `//` stands, a comment is read. The byte after the `//` decides
/// its kind; it ends where the line ends, before the line break, be that a
/// line feed or a carriage return and a line feed, or at the end of the
/// input; and its content is every byte between the prefix and that end,
/// as it stands.
pub proof fn lemma_comment_by_prefix(s: Seq<u8>, p: int)
    requires
        0 <= p,
        p + 1 < s.len(),
        s[p] == SLASH,
        s[p + 1] == SLASH,
    ensures
        raw_end(s, p) == line_end(s, p + 2),
        raw_end(s, p) == s.len() || line_break_at(s, raw_end(s, p)),
        forall|k: int| p <= k < raw_end(s, p) ==> !line_break_at(s, k),
        raw_token(s, p) == TokenView::Comment(
            comment_kind_at(s, p),
            s.subrange(p + comment_kind_at(s, p).prefix_len(), raw_end(s, p)),
        ),
{
    lemma_run_end(s, Class::Digit, p);
    lemma_run_end(s, Class::Except(LINE_FEED), p + 2);
    lemma_line_end(s, p + 2);
    if p + 3 <= s.len() {
        lemma_run_end(s, Class::Except(LINE_FEED), p + 3);
        lemma_line_end(s, p + 3);
    }
    lemma_no_keyword_at(s, p);
    let empty = Seq::<u8>::empty();
    assert(s.subrange(p + 2, p + 2 + empty.len()) =~= empty);
    if p + 2 < s.len() {
        assert(s.subrange(p + 2, p + 3) =~= seq![s[p + 2]]);
        assert(seq![s[p + 2]] == seq![SLASH] <==> s[p + 2] == SLASH) by {
            assert(seq![s[p + 2]][0] == s[p + 2]);
            assert(seq![SLASH][0] == SLASH);
        }
        assert(seq![s[p + 2]] == seq![BANG] <==> s[p + 2] == BANG) by {
            assert(seq![s[p + 2]][0] == s[p + 2]);
            assert(seq![BANG][0] == BANG);
        }
    }
}

/// Reads the token that follows `cursor`. Returns it with its place in the
/// input, or `None` where only white space within the line is left.
pub fn raw_token_at<'a>(input: &'a str, cursor: usize) -> (r: Option<(Token<'a>, Span)>)
    requires
        cursor <= input.spec_bytes().len(),
    ensures
        r is None <==> token_start(input.spec_bytes(), cursor as int) == input.spec_bytes().len(),
        r matches Some((token, span)) ==> {
            &&& span.start == token_start(input.spec_bytes(), cursor as int)
            &&& span.end == raw_end(input.spec_bytes(), span.start as int)
            &&& span.start < span.end <= input.spec_bytes().len()
            &&& token@ == raw_token(input.spec_bytes(), span.start as int)
        },
{
    let bytes = input.as_bytes();
    let start = scan_run(bytes, Class::Blank, cursor);
    if start == bytes.len() {
        return None;
    }
    let ghost s = input.spec_bytes();
    let (token, end) = match classify(bytes, start) {
        None => (Token::UnexpectedToken, start + 1),
        Some((rule, end)) => {
            let token = match rule {
                Rule::Symbol => Token::Symbol(Symbol::from_byte(bytes[start]).unwrap()),
                Rule::Keyword => Token::Keyword(scan_keyword(bytes, start).unwrap()),
                Rule::Identifier => {
                    proof {
                        lemma_word_cuts(rule, s, start as int);
                        lemma_cuts_of_text(input, start as int, end as int);
                    }
                    Token::Ident(slice_of(input, start, end))
                },
                Rule::HexFloat | Rule::DecimalFloat => {
                    proof {
                        lemma_word_cuts(rule, s, start as int);
                        lemma_cuts_of_text(input, start as int, end as int);
                    }
                    Token::FloatLiteral(slice_of(input, start, end))
                },
                Rule::HexInteger | Rule::DecimalInteger => {
                    proof {
                        lemma_word_cuts(rule, s, start as int);
                        lemma_cuts_of_text(input, start as int, end as int);
                    }
                    Token::IntegerLiteral(slice_of(input, start, end))
                },
                Rule::OuterDocstring => {
                    proof {
                        lemma_comment_cuts(s, start as int, seq![SLASH]);
                        lemma_cuts_of_text(input, start + 3, end as int);
                    }
                    Token::Comment(
                        CommentToken {
                            kind: CommentKind::OuterDocstring,
                            content: slice_of(input, start + 3, end),
                        },
                    )
                },
                Rule::InnerDocstring => {
                    proof {
                        lemma_comment_cuts(s, start as int, seq![BANG]);
                        lemma_cuts_of_text(input, start + 3, end as int);
                    }
                    Token::Comment(
                        CommentToken {
                            kind: CommentKind::InnerDocstring,
                            content: slice_of(input, start + 3, end),
                        },
                    )
                },
                Rule::Comment => {
                    proof {
                        lemma_comment_cuts(s, start as int, Seq::empty());
                        lemma_cuts_of_text(input, start + 2, end as int);
                    }
                    Token::Comment(
                        CommentToken {
                            kind: CommentKind::Comment,
                            content: slice_of(input, start + 2, end),
                        },
                    )
                },
                Rule::Newline => Token::Newline,
                Rule::Quote => Token::StringLiteral(String::new()),
            };
            (token, end)
        },
    };
    Some((token, Span { start, end }))
}

/// The raw classifier as a stream: it reads the input from the start, one
/// token per call.
pub struct RawLexer<'input> {
    input: &'input str,
    span: Span,
}

impl<'input> RawLexer<'input> {
    #[verifier::type_invariant]
    spec fn well_formed(self) -> bool {
        self.span.start <= self.span.end <= self.input.spec_bytes().len()
    }

    /// The bytes of the input.
    pub closed spec fn source(&self) -> Seq<u8> {
        self.input.spec_bytes()
    }

    /// The position up to which the input has been read.
    pub closed spec fn cursor(&self) -> int {
        self.span.end as int
    }

    /// The place of the token that was read last.
    pub closed spec fn last_span(&self) -> Span {
        self.span
    }

    /// A stream at the start of `input`.
    pub fn new(input: &'input str) -> (r: Self)
        ensures
            r.source() == input.spec_bytes(),
            r.cursor() == 0,
            r.last_span() == (Span { start: 0, end: 0 }),
    {
        RawLexer { input, span: Span { start: 0, end: 0 } }
    }

    /// Reads the next token. Returns `None`, and stands at the end of the
    /// input with an empty span there, where only white space within the
    /// line is left.
    pub fn next(&mut self) -> (r: Option<Token<'input>>)
        ensures
            final(self).source() == old(self).source(),
            old(self).cursor() <= final(self).cursor() <= old(self).source().len(),
            r is None <==> token_start(old(self).source(), old(self).cursor()) == old(
                self,
            ).source().len(),
            r is None ==> final(self).cursor() == old(self).source().len(),
            r is None ==> final(self).last_span().start == old(self).source().len(),
            r is None ==> final(self).last_span().end == old(self).source().len(),
            r matches Some(token) ==> {
                &&& final(self).last_span().start == token_start(
                    old(self).source(),
                    old(self).cursor(),
                )
                &&& final(self).last_span().end == final(self).cursor()
                &&& final(self).cursor() == raw_end(
                    old(self).source(),
                    final(self).last_span().start as int,
                )
                &&& token@ == raw_token(old(self).source(), final(self).last_span().start as int)
            },
    {
        proof {
            use_type_invariant(&*self);
            lemma_run_end(self.input.spec_bytes(), Class::Blank, self.span.end as int);
        }
        match raw_token_at(self.input, self.span.end) {
            Some((token, span)) => {
                self.span = span;
                Some(token)
            },
            None => {
                let end = self.input.as_bytes().len();
                self.span = Span { start: end, end };
                None
            },
        }
    }

    /// The place of the token that was read last.
    pub fn span(&self) -> (r: Span)
        ensures
            r == self.last_span(),
    {
        self.span
    }
}

impl<'input> Token<'input> {
    /// A stream of the raw tokens of `input`.
    pub fn lexer(input: &'input str) -> (r: RawLexer<'input>)
        ensures
            r.source() == input.spec_bytes(),
            r.cursor() == 0,
    {
        RawLexer::new(input)
    }
}

} // verus!
