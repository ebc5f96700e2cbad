//! The rule set of the raw classifier.
//!
//! Each rule is a pattern. `Rule::match_end` says where the longest text
//! that the pattern matches ends, for a text that starts at a given
//! position; that it is the longest is proved where the patterns are
//! defined as sets of texts. `winner` picks, among the rules that match
//! there, the one whose match is longest, and among those of equal length
//! the one that is declared first.
use vstd::prelude::*;
use crate::classes::{
    is_digit, is_letter, lemma_run_end, run_end, Class, BANG, CARRIAGE_RETURN, DIGIT_0,
    DOUBLE_QUOTE, LINE_FEED, LOWER_E, LOWER_P, LOWER_X, MINUS, PERIOD, PLUS, SINGLE_QUOTE, SLASH,
    UNDERSCORE, UPPER_E, UPPER_P, UPPER_X,
};
use crate::token::{Keyword, Symbol};

verus! {

/// The rules, in the order of their priority.
#[derive(Copy, Clone, Debug, PartialEq, Eq, Structural)]
pub enum Rule {
    /// One of the thirteen punctuation marks.
    Symbol,
    /// The spelling of a reserved word.
    Keyword,
    /// `[A-Za-z_][A-Za-z0-9_]*`
    Identifier,
    /// `0[xX]` and a hexadecimal mantissa, then a binary exponent, which is
    /// mandatory: `[pP][-+]?[0-9]+`.
    HexFloat,
    /// `0x[0-9a-fA-F_]+`
    HexInteger,
    /// A decimal mantissa with a `.` and an optional exponent
    /// `[eE][-+]?[0-9]+`, or digits and a mandatory exponent.
    DecimalFloat,
    /// `[0-9][0-9_]*`
    DecimalInteger,
    /// `///` and the rest of the line, without the line break.
    OuterDocstring,
    /// `//!` and the rest of the line, without the line break.
    InnerDocstring,
    /// `//` and the rest of the line, without the line break.
    Comment,
    /// A line feed, or a carriage return and a line feed.
    Newline,
    /// `"` or `'`: the opening of a string literal.
    Quote,
}

/// Whether the bytes of `pat` stand in `s` from position `i` on.
pub open spec fn has_at(s: Seq<u8>, i: int, pat: Seq<u8>) -> bool {
    &&& 0 <= i
    &&& i + pat.len() <= s.len()
    &&& s.subrange(i, i + pat.len()) == pat
}

/// The byte at position `i`, if there is one, is `b`.
pub open spec fn byte_at(s: Seq<u8>, i: int, b: u8) -> bool {
    0 <= i < s.len() && s[i] == b
}

/// The reserved word whose spelling stands in `s` from position `i` on.
/// No reserved word begins another, so there is at most one.
pub open spec fn keyword_at(s: Seq<u8>, i: int) -> Option<Keyword> {
    if has_at(s, i, Keyword::Include.spelling()) {
        Some(Keyword::Include)
    } else if has_at(s, i, Keyword::NativeInclude.spelling()) {
        Some(Keyword::NativeInclude)
    } else if has_at(s, i, Keyword::Namespace.spelling()) {
        Some(Keyword::Namespace)
    } else if has_at(s, i, Keyword::Attribute.spelling()) {
        Some(Keyword::Attribute)
    } else if has_at(s, i, Keyword::Table.spelling()) {
        Some(Keyword::Table)
    } else if has_at(s, i, Keyword::Struct.spelling()) {
        Some(Keyword::Struct)
    } else if has_at(s, i, Keyword::Enum.spelling()) {
        Some(Keyword::Enum)
    } else if has_at(s, i, Keyword::Union.spelling()) {
        Some(Keyword::Union)
    } else if has_at(s, i, Keyword::RootType.spelling()) {
        Some(Keyword::RootType)
    } else if has_at(s, i, Keyword::RpcService.spelling()) {
        Some(Keyword::RpcService)
    } else if has_at(s, i, Keyword::FileExtension.spelling()) {
        Some(Keyword::FileExtension)
    } else if has_at(s, i, Keyword::FileIdentifier.spelling()) {
        Some(Keyword::FileIdentifier)
    } else {
        None
    }
}

/// Where an exponent that starts at `i` ends: one of the two marker bytes,
/// an optional sign and one digit or more. The result is `i` where no
/// exponent starts at `i`.
pub open spec fn exponent_end(s: Seq<u8>, i: int, lower: u8, upper: u8) -> int {
    if byte_at(s, i, lower) || byte_at(s, i, upper) {
        let digits = if byte_at(s, i + 1, PLUS) || byte_at(s, i + 1, MINUS) {
            i + 2
        } else {
            i + 1
        };
        let end = run_end(s, Class::Digit, digits);
        if digits < end {
            end
        } else {
            i
        }
    } else {
        i
    }
}

/// Where a mantissa that starts at `i` ends: digits of `class` with a `.`
/// among them, before them or after them, and at least one digit in all;
/// without a `.`, where `bare` allows it, one digit or more. The result is
/// `i` where no mantissa starts at `i`.
pub open spec fn mantissa_end(s: Seq<u8>, i: int, class: Class, bare: bool) -> int {
    let whole = run_end(s, class, i);
    if byte_at(s, whole, PERIOD) {
        let fraction = run_end(s, class, whole + 1);
        if i < whole || whole + 1 < fraction {
            fraction
        } else {
            i
        }
    } else if bare {
        whole
    } else {
        i
    }
}

pub open spec fn identifier_end(s: Seq<u8>, i: int) -> int {
    if 0 <= i < s.len() && (is_letter(s[i]) || s[i] == UNDERSCORE) {
        run_end(s, Class::Word, i + 1)
    } else {
        i
    }
}

pub open spec fn decimal_integer_end(s: Seq<u8>, i: int) -> int {
    if 0 <= i < s.len() && is_digit(s[i]) {
        run_end(s, Class::DigitOrUnderscore, i + 1)
    } else {
        i
    }
}

pub open spec fn hex_integer_end(s: Seq<u8>, i: int) -> int {
    if byte_at(s, i, DIGIT_0) && byte_at(s, i + 1, LOWER_X) && i + 2 < run_end(
        s,
        Class::HexDigitOrUnderscore,
        i + 2,
    ) {
        run_end(s, Class::HexDigitOrUnderscore, i + 2)
    } else {
        i
    }
}

pub open spec fn decimal_float_end(s: Seq<u8>, i: int) -> int {
    let dotted = mantissa_end(s, i, Class::Digit, false);
    let whole = run_end(s, Class::Digit, i);
    if 0 <= i < dotted {
        // an exponent may follow the mantissa
        exponent_end(s, dotted, LOWER_E, UPPER_E)
    } else if 0 <= i < whole && whole < exponent_end(s, whole, LOWER_E, UPPER_E) {
        // digits alone need one
        exponent_end(s, whole, LOWER_E, UPPER_E)
    } else {
        i
    }
}

pub open spec fn hex_float_end(s: Seq<u8>, i: int) -> int {
    if byte_at(s, i, DIGIT_0) && (byte_at(s, i + 1, LOWER_X) || byte_at(s, i + 1, UPPER_X)) {
        let mantissa = mantissa_end(s, i + 2, Class::HexDigit, true);
        if i + 2 < mantissa && mantissa < exponent_end(s, mantissa, LOWER_P, UPPER_P) {
            exponent_end(s, mantissa, LOWER_P, UPPER_P)
        } else {
            i
        }
    } else {
        i
    }
}

/// Whether a line break starts at `i`: a line feed, or a carriage return
/// that a line feed follows directly.
pub open spec fn line_break_at(s: Seq<u8>, i: int) -> bool {
    byte_at(s, i, LINE_FEED) || (byte_at(s, i, CARRIAGE_RETURN) && byte_at(s, i + 1, LINE_FEED))
}

/// Where the line ends that is read from `from` on: where the first line
/// break at or after `from` starts, or at the end of the text. That is
/// where the bytes other than a line feed end, or one byte before where
/// the last of them is a carriage return and a line feed follows it.
pub open spec fn line_end(s: Seq<u8>, from: int) -> int {
    let feed = run_end(s, Class::Except(LINE_FEED), from);
    if from < feed < s.len() && s[feed - 1] == CARRIAGE_RETURN {
        feed - 1
    } else {
        feed
    }
}

/// A line ends at or after its start and within the text, no line break
/// starts in it, and where it ends before the end of the text a line break
/// starts there.
pub proof fn lemma_line_end(s: Seq<u8>, from: int)
    requires
        0 <= from <= s.len(),
    ensures
        from <= line_end(s, from) <= s.len(),
        forall|k: int| from <= k < line_end(s, from) ==> !line_break_at(s, k),
        line_end(s, from) < s.len() ==> line_break_at(s, line_end(s, from)),
{
    lemma_run_end(s, Class::Except(LINE_FEED), from);
    let feed = run_end(s, Class::Except(LINE_FEED), from);
    assert forall|k: int| from <= k < line_end(s, from) implies !line_break_at(s, k) by {
        assert(Class::Except(LINE_FEED).contains(s[k]));
        if k + 1 < feed {
            assert(Class::Except(LINE_FEED).contains(s[k + 1]));
        }
    }
}

/// A line is determined by its defining property: if no line break starts
/// in `from..end`, and one starts at `end` or the text ends there, then
/// the line that is read from `from` on ends at `end`.
pub proof fn lemma_line_end_unique(s: Seq<u8>, from: int, end: int)
    requires
        0 <= from <= end <= s.len(),
        forall|k: int| from <= k < end ==> !line_break_at(s, k),
        end < s.len() ==> line_break_at(s, end),
    ensures
        line_end(s, from) == end,
{
    lemma_line_end(s, from);
    let found = line_end(s, from);
    if found < end {
        assert(!line_break_at(s, found));
    } else if end < found {
        assert(line_break_at(s, end));
    }
}

/// Where a comment that starts at `i` with `//` and then the bytes of
/// `mark` ends: where the line ends, before the line break. A carriage
/// return that no line feed follows belongs to the comment.
pub open spec fn comment_end(s: Seq<u8>, i: int, mark: Seq<u8>) -> int {
    if byte_at(s, i, SLASH) && byte_at(s, i + 1, SLASH) && has_at(s, i + 2, mark) {
        line_end(s, i + 2 + mark.len())
    } else {
        i
    }
}

pub open spec fn newline_end(s: Seq<u8>, i: int) -> int {
    if byte_at(s, i, LINE_FEED) {
        i + 1
    } else if byte_at(s, i, CARRIAGE_RETURN) && byte_at(s, i + 1, LINE_FEED) {
        i + 2
    } else {
        i
    }
}

pub open spec fn is_quote(b: u8) -> bool {
    b == DOUBLE_QUOTE || b == SINGLE_QUOTE
}

impl Rule {
    /// The place of the rule in the order of priority: the lower, the
    /// earlier declared.
    pub open spec fn rank(self) -> int {
        match self {
            Rule::Symbol => 0,
            Rule::Keyword => 1,
            Rule::Identifier => 2,
            Rule::HexFloat => 3,
            Rule::HexInteger => 4,
            Rule::DecimalFloat => 5,
            Rule::DecimalInteger => 6,
            Rule::OuterDocstring => 7,
            Rule::InnerDocstring => 8,
            Rule::Comment => 9,
            Rule::Newline => 10,
            Rule::Quote => 11,
        }
    }

    /// Where the longest match of the rule that starts at `i` ends; `i`
    /// itself where the rule does not match there.
    pub open spec fn match_end(self, s: Seq<u8>, i: int) -> int {
        match self {
            Rule::Symbol => if 0 <= i < s.len() && Symbol::of_byte(s[i]).is_some() {
                i + 1
            } else {
                i
            },
            Rule::Keyword => match keyword_at(s, i) {
                Some(k) => i + k.spelling().len(),
                None => i,
            },
            Rule::Identifier => identifier_end(s, i),
            Rule::HexFloat => hex_float_end(s, i),
            Rule::HexInteger => hex_integer_end(s, i),
            Rule::DecimalFloat => decimal_float_end(s, i),
            Rule::DecimalInteger => decimal_integer_end(s, i),
            Rule::OuterDocstring => comment_end(s, i, seq![SLASH]),
            Rule::InnerDocstring => comment_end(s, i, seq![BANG]),
            Rule::Comment => comment_end(s, i, Seq::empty()),
            Rule::Newline => newline_end(s, i),
            Rule::Quote => if 0 <= i < s.len() && is_quote(s[i]) {
                i + 1
            } else {
                i
            },
        }
    }
}

/// Of two rules, the one whose match at `i` is longer; on a tie the first.
pub open spec fn longer(s: Seq<u8>, i: int, first: Rule, second: Rule) -> Rule {
    if first.match_end(s, i) < second.match_end(s, i) {
        second
    } else {
        first
    }
}

/// The rule that classifies the text at `i`: the one with the longest
/// match, and among those of equal length the one declared first.
pub open spec fn winner(s: Seq<u8>, i: int) -> Rule {
    let r = Rule::Symbol;
    let r = longer(s, i, r, Rule::Keyword);
    let r = longer(s, i, r, Rule::Identifier);
    let r = longer(s, i, r, Rule::HexFloat);
    let r = longer(s, i, r, Rule::HexInteger);
    let r = longer(s, i, r, Rule::DecimalFloat);
    let r = longer(s, i, r, Rule::DecimalInteger);
    let r = longer(s, i, r, Rule::OuterDocstring);
    let r = longer(s, i, r, Rule::InnerDocstring);
    let r = longer(s, i, r, Rule::Comment);
    let r = longer(s, i, r, Rule::Newline);
    let r = longer(s, i, r, Rule::Quote);
    r
}

/// The winner's match is at least as long as that of every rule, and where
/// another rule matches as much, the winner is declared before it.
pub proof fn lemma_winner_is_longest_then_first(s: Seq<u8>, i: int, other: Rule)
    ensures
        other.match_end(s, i) <= winner(s, i).match_end(s, i),
        other.match_end(s, i) == winner(s, i).match_end(s, i) ==> winner(s, i).rank()
            <= other.rank(),
{
}

/// The match of every rule ends at or after its start and within the text.
pub proof fn lemma_match_end_in_bounds(s: Seq<u8>, i: int)
    requires
        0 <= i <= s.len(),
    ensures
        forall|rule: Rule| i <= #[trigger] rule.match_end(s, i) <= s.len(),
{
    assert forall|rule: Rule| i <= #[trigger] rule.match_end(s, i) <= s.len() by {
        lemma_rule_end_in_bounds(rule, s, i);
    }
}

proof fn lemma_rule_end_in_bounds(rule: Rule, s: Seq<u8>, i: int)
    requires
        0 <= i <= s.len(),
    ensures
        i <= rule.match_end(s, i) <= s.len(),
{
    lemma_run_end(s, Class::Digit, i);
    lemma_run_end(s, Class::HexDigit, i);
    if i + 1 <= s.len() {
        lemma_run_end(s, Class::Word, i + 1);
        lemma_run_end(s, Class::DigitOrUnderscore, i + 1);
    }
    if i + 2 <= s.len() {
        lemma_run_end(s, Class::HexDigitOrUnderscore, i + 2);
        lemma_run_end(s, Class::HexDigit, i + 2);
        lemma_line_end(s, i + 2);
    }
    if i + 3 <= s.len() {
        lemma_line_end(s, i + 3);
    }
    match rule {
        Rule::DecimalFloat => {
            lemma_mantissa_end_in_bounds(s, i, Class::Digit, false);
            lemma_exponent_end_in_bounds(
                s,
                mantissa_end(s, i, Class::Digit, false),
                LOWER_E,
                UPPER_E,
            );
            lemma_exponent_end_in_bounds(s, run_end(s, Class::Digit, i), LOWER_E, UPPER_E);
        },
        Rule::HexFloat => {
            if i + 2 <= s.len() {
                lemma_mantissa_end_in_bounds(s, i + 2, Class::HexDigit, true);
                lemma_exponent_end_in_bounds(
                    s,
                    mantissa_end(s, i + 2, Class::HexDigit, true),
                    LOWER_P,
                    UPPER_P,
                );
            }
        },
        _ => {},
    }
}

/// A mantissa ends at or after its start and within the text.
pub proof fn lemma_mantissa_end_in_bounds(s: Seq<u8>, i: int, class: Class, bare: bool)
    requires
        0 <= i <= s.len(),
    ensures
        i <= mantissa_end(s, i, class, bare) <= s.len(),
{
    lemma_run_end(s, class, i);
    let whole = run_end(s, class, i);
    if whole + 1 <= s.len() {
        lemma_run_end(s, class, whole + 1);
    }
}

/// An exponent ends at or after its start and within the text.
pub proof fn lemma_exponent_end_in_bounds(s: Seq<u8>, i: int, lower: u8, upper: u8)
    requires
        0 <= i <= s.len(),
    ensures
        i <= exponent_end(s, i, lower, upper) <= s.len(),
{
    if i + 1 <= s.len() {
        lemma_run_end(s, Class::Digit, i + 1);
    }
    if i + 2 <= s.len() {
        lemma_run_end(s, Class::Digit, i + 2);
    }
}

} // verus!
