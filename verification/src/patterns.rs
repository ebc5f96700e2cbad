//! The patterns of the rules, as sets of texts, and the proof that
//! `Rule::match_end` finds the longest match of each.
//!
//! A rule matches a stretch of the input where its pattern matches the
//! text of the stretch. A comment, in addition, stops short of the line
//! break: its stretch does not end between a carriage return and the line
//! feed that follows it, so the line break is left whole for the token
//! after the comment.
use vstd::prelude::*;
use crate::classes::{
    is_digit, is_letter, lemma_run_end, lemma_run_end_at_least, lemma_run_end_unique, run_end,
    Class, BANG,
    CARRIAGE_RETURN, DIGIT_0, LINE_FEED, LOWER_E, LOWER_P, LOWER_X, MINUS, PERIOD, PLUS, SLASH,
    UNDERSCORE, UPPER_E, UPPER_P, UPPER_X,
};
use crate::keywords::lemma_keywords_differ;
use crate::rules::{
    comment_end, exponent_end, has_at, is_quote, keyword_at, lemma_exponent_end_in_bounds,
    lemma_line_end, line_break_at,
    lemma_mantissa_end_in_bounds, lemma_match_end_in_bounds, lemma_winner_is_longest_then_first,
    mantissa_end, winner, Rule,
};
use crate::token::{Keyword, Symbol};

verus! {

/// Every byte of `t` from `from` up to `to` belongs to `class`.
pub open spec fn all_in(t: Seq<u8>, class: Class, from: int, to: int) -> bool {
    &&& 0 <= from <= to <= t.len()
    &&& forall|k: int| from <= k < to ==> class.contains(#[trigger] t[k])
}

/// From `from` to its end `t` is an exponent: one of the two marker
/// bytes, then digits, or a sign and digits; one digit at least.
pub open spec fn is_exponent(t: Seq<u8>, from: int, lower: u8, upper: u8) -> bool {
    &&& 0 <= from < t.len()
    &&& t[from] == lower || t[from] == upper
    &&& {
        ||| from + 1 < t.len() && all_in(t, Class::Digit, from + 1, t.len() as int)
        ||| {
            &&& from + 2 < t.len()
            &&& t[from + 1] == PLUS || t[from + 1] == MINUS
            &&& all_in(t, Class::Digit, from + 2, t.len() as int)
        }
    }
}

/// From `from` up to `to` the text is digits of `class` with a `.` at
/// `dot`: before them, among them or after them.
pub open spec fn is_dotted(t: Seq<u8>, class: Class, from: int, dot: int, to: int) -> bool {
    &&& from <= dot < to
    &&& from + 2 <= to
    &&& t[dot] == PERIOD
    &&& all_in(t, class, from, dot)
    &&& all_in(t, class, dot + 1, to)
}

/// From `from` up to `to` the text is a mantissa: digits of `class` with a
/// `.` and one digit at least, or, where `bare` allows it, one digit or
/// more without a `.`.
pub open spec fn is_mantissa(t: Seq<u8>, class: Class, from: int, to: int, bare: bool) -> bool {
    ||| exists|dot: int| #[trigger] is_dotted(t, class, from, dot, to)
    ||| bare && from < to && all_in(t, class, from, to)
}

/// `(([.][0-9]+)|([0-9]+[.][0-9]*))([eE][-+]?[0-9]+)?`, with the mantissa
/// up to `m`.
pub open spec fn is_dotted_float(t: Seq<u8>, m: int) -> bool {
    &&& is_mantissa(t, Class::Digit, 0, m, false)
    &&& m == t.len() || is_exponent(t, m, LOWER_E, UPPER_E)
}

/// `[0-9]+[eE][-+]?[0-9]+`, with the digits up to `m`.
pub open spec fn is_whole_float(t: Seq<u8>, m: int) -> bool {
    &&& 0 < m
    &&& all_in(t, Class::Digit, 0, m)
    &&& is_exponent(t, m, LOWER_E, UPPER_E)
}

/// `0[xX]`, a mantissa of hexadecimal digits up to `m`, and a binary
/// exponent.
pub open spec fn is_hex_float(t: Seq<u8>, m: int) -> bool {
    &&& 2 <= t.len()
    &&& t[0] == DIGIT_0
    &&& t[1] == LOWER_X || t[1] == UPPER_X
    &&& is_mantissa(t, Class::HexDigit, 2, m, true)
    &&& is_exponent(t, m, LOWER_P, UPPER_P)
}

/// `//`, the bytes of `mark`, and then anything but a line feed. Such a
/// text is a comment of the input only where it stops short of the line
/// break: see `Rule::matches`.
pub open spec fn is_comment(t: Seq<u8>, mark: Seq<u8>) -> bool {
    &&& 2 + mark.len() <= t.len()
    &&& t[0] == SLASH
    &&& t[1] == SLASH
    &&& has_at(t, 2, mark)
    &&& all_in(t, Class::Except(LINE_FEED), 2 + mark.len() as int, t.len() as int)
}

impl Rule {
    /// Whether the pattern of the rule matches the text `t` as a whole.
    pub open spec fn accepts(self, t: Seq<u8>) -> bool {
        match self {
            Rule::Symbol => t.len() == 1 && Symbol::of_byte(t[0]).is_some(),
            Rule::Keyword => exists|k: Keyword| t == #[trigger] k.spelling(),
            Rule::Identifier => {
                &&& 1 <= t.len()
                &&& is_letter(t[0]) || t[0] == UNDERSCORE
                &&& all_in(t, Class::Word, 1, t.len() as int)
            },
            Rule::HexFloat => exists|m: int| #[trigger] is_hex_float(t, m),
            Rule::HexInteger => {
                &&& 3 <= t.len()
                &&& t[0] == DIGIT_0
                &&& t[1] == LOWER_X
                &&& all_in(t, Class::HexDigitOrUnderscore, 2, t.len() as int)
            },
            Rule::DecimalFloat => {
                ||| exists|m: int| #[trigger] is_dotted_float(t, m)
                ||| exists|m: int| #[trigger] is_whole_float(t, m)
            },
            Rule::DecimalInteger => {
                &&& 1 <= t.len()
                &&& is_digit(t[0])
                &&& all_in(t, Class::DigitOrUnderscore, 1, t.len() as int)
            },
            Rule::OuterDocstring => is_comment(t, seq![SLASH]),
            Rule::InnerDocstring => is_comment(t, seq![BANG]),
            Rule::Comment => is_comment(t, Seq::empty()),
            Rule::Newline => t == seq![LINE_FEED] || t == seq![CARRIAGE_RETURN, LINE_FEED],
            Rule::Quote => t.len() == 1 && is_quote(t[0]),
        }
    }

    /// Whether the rule reads the rest of a line: the three for comments.
    pub open spec fn reads_line(self) -> bool {
        self == Rule::OuterDocstring || self == Rule::InnerDocstring || self == Rule::Comment
    }

    /// Whether the rule matches the text of `s` from `i` up to `n`: its
    /// pattern matches that text, and, for a comment, the text does not
    /// end between the two bytes of a line break. So a comment never
    /// holds the carriage return of the line break that ends its line.
    pub open spec fn matches(self, s: Seq<u8>, i: int, n: int) -> bool {
        &&& 0 <= i < n <= s.len()
        &&& self.accepts(s.subrange(i, n))
        &&& self.reads_line() ==> !splits_line_break(s, n)
    }
}

/// Whether position `n` lies between the two bytes of a line break: after
/// a carriage return and before the line feed that follows it.
pub open spec fn splits_line_break(s: Seq<u8>, n: int) -> bool {
    0 < n < s.len() && s[n - 1] == CARRIAGE_RETURN && s[n] == LINE_FEED
}

/// What holds of a stretch of `s` holds of it as a text of its own, and
/// the other way round.
proof fn lemma_all_in_stretch(s: Seq<u8>, i: int, n: int, class: Class, from: int, to: int)
    requires
        0 <= i <= from <= to <= n <= s.len(),
    ensures
        all_in(s.subrange(i, n), class, from - i, to - i) <==> all_in(s, class, from, to),
{
    let t = s.subrange(i, n);
    if all_in(s, class, from, to) {
        assert forall|k: int| from - i <= k < to - i implies class.contains(#[trigger] t[k]) by {
            assert(t[k] == s[i + k]);
        }
    }
    if all_in(t, class, from - i, to - i) {
        assert forall|k: int| from <= k < to implies class.contains(#[trigger] s[k]) by {
            assert(t[k - i] == s[k]);
        }
    }
}

/// Where bytes of a class stand from `from` up to `to`, the run from
/// `from` reaches `to`; it ends there where no byte of the class follows.
proof fn lemma_run_over(s: Seq<u8>, class: Class, from: int, to: int)
    requires
        all_in(s, class, from, to),
    ensures
        to <= run_end(s, class, from) <= s.len(),
        to == s.len() || !class.contains(s[to]) ==> run_end(s, class, from) == to,
{
    lemma_run_end_at_least(s, class, from, to);
    if to == s.len() || !class.contains(s[to]) {
        lemma_run_end_unique(s, class, from, to);
    }
}

/// A run as a stretch of bytes of the class.
proof fn lemma_run_all_in(s: Seq<u8>, class: Class, from: int)
    requires
        0 <= from <= s.len(),
    ensures
        all_in(s, class, from, run_end(s, class, from)),
        run_end(s, class, from) < s.len() ==> !class.contains(s[run_end(s, class, from)]),
{
    lemma_run_end(s, class, from);
}

/// The match that a rule other than the two for floats finds is a match.
proof fn lemma_plain_match_end_matches(rule: Rule, s: Seq<u8>, i: int)
    requires
        0 <= i < rule.match_end(s, i),
        i <= s.len(),
        rule != Rule::HexFloat,
        rule != Rule::DecimalFloat,
    ensures
        rule.matches(s, i, rule.match_end(s, i)),
{
    let end = rule.match_end(s, i);
    let t = s.subrange(i, end);
    match rule {
        Rule::Keyword => {
            let k = keyword_at(s, i).unwrap();
            assert(t == k.spelling());
        },
        Rule::Identifier => {
            lemma_run_all_in(s, Class::Word, i + 1);
            lemma_all_in_stretch(s, i, end, Class::Word, i + 1, end);
        },
        Rule::HexInteger => {
            lemma_run_all_in(s, Class::HexDigitOrUnderscore, i + 2);
            lemma_all_in_stretch(s, i, end, Class::HexDigitOrUnderscore, i + 2, end);
        },
        Rule::DecimalInteger => {
            lemma_run_all_in(s, Class::DigitOrUnderscore, i + 1);
            lemma_all_in_stretch(s, i, end, Class::DigitOrUnderscore, i + 1, end);
        },
        Rule::OuterDocstring => {
            lemma_comment_end_matches(s, i, seq![SLASH]);
        },
        Rule::InnerDocstring => {
            lemma_comment_end_matches(s, i, seq![BANG]);
        },
        Rule::Comment => {
            lemma_comment_end_matches(s, i, Seq::empty());
        },
        Rule::Newline => {
            if s[i] == LINE_FEED {
                assert(t =~= seq![LINE_FEED]);
            } else {
                assert(t =~= seq![CARRIAGE_RETURN, LINE_FEED]);
            }
        },
        _ => {},
    }
}

proof fn lemma_comment_end_matches(s: Seq<u8>, i: int, mark: Seq<u8>)
    requires
        0 <= i < comment_end(s, i, mark),
        mark.len() == 0 || (mark.len() == 1 && mark[0] != CARRIAGE_RETURN),
    ensures
        comment_end(s, i, mark) <= s.len(),
        is_comment(s.subrange(i, comment_end(s, i, mark)), mark),
        !splits_line_break(s, comment_end(s, i, mark)),
{
    let from = i + 2 + mark.len();
    let end = comment_end(s, i, mark);
    let t = s.subrange(i, end);
    lemma_line_end(s, from);
    lemma_run_all_in(s, Class::Except(LINE_FEED), from);
    lemma_all_in_stretch(s, i, end, Class::Except(LINE_FEED), from, end);
    assert(t.subrange(2, 2 + mark.len() as int) =~= s.subrange(i + 2, i + 2 + mark.len()));
    if splits_line_break(s, end) {
        if from < end {
            assert(line_break_at(s, end - 1));
        } else if mark.len() == 1 {
            assert(s.subrange(i + 2, i + 3)[0] == s[end - 1]);
        }
    }
}

/// No rule other than the two for floats matches more than it finds.
proof fn lemma_plain_no_longer_match(rule: Rule, s: Seq<u8>, i: int, n: int)
    requires
        rule.matches(s, i, n),
        rule != Rule::HexFloat,
        rule != Rule::DecimalFloat,
    ensures
        n <= rule.match_end(s, i),
{
    let t = s.subrange(i, n);
    assert(t[0] == s[i]);
    match rule {
        Rule::Keyword => {
            let k = choose|k: Keyword| t == #[trigger] k.spelling();
            assert(has_at(s, i, k.spelling()));
            let found = keyword_at(s, i).unwrap();
            if found != k {
                let j = lemma_keywords_differ(found, k);
                assert(s.subrange(i, i + found.spelling().len())[j] == s[i + j]);
                assert(s.subrange(i, i + k.spelling().len())[j] == s[i + j]);
            }
        },
        Rule::Identifier => {
            lemma_all_in_stretch(s, i, n, Class::Word, i + 1, n);
            lemma_run_over(s, Class::Word, i + 1, n);
        },
        Rule::HexInteger => {
            assert(t[1] == s[i + 1]);
            lemma_all_in_stretch(s, i, n, Class::HexDigitOrUnderscore, i + 2, n);
            lemma_run_over(s, Class::HexDigitOrUnderscore, i + 2, n);
        },
        Rule::DecimalInteger => {
            lemma_all_in_stretch(s, i, n, Class::DigitOrUnderscore, i + 1, n);
            lemma_run_over(s, Class::DigitOrUnderscore, i + 1, n);
        },
        Rule::OuterDocstring => {
            lemma_comment_no_longer(s, i, n, seq![SLASH]);
        },
        Rule::InnerDocstring => {
            lemma_comment_no_longer(s, i, n, seq![BANG]);
        },
        Rule::Comment => {
            lemma_comment_no_longer(s, i, n, Seq::empty());
        },
        Rule::Newline => {
            if t == seq![CARRIAGE_RETURN, LINE_FEED] {
                assert(t[1] == s[i + 1]);
            }
        },
        _ => {},
    }
}

proof fn lemma_comment_no_longer(s: Seq<u8>, i: int, n: int, mark: Seq<u8>)
    requires
        0 <= i < n <= s.len(),
        is_comment(s.subrange(i, n), mark),
        !splits_line_break(s, n),
    ensures
        n <= comment_end(s, i, mark),
{
    let t = s.subrange(i, n);
    let from = i + 2 + mark.len();
    assert(t[0] == s[i]);
    assert(t[1] == s[i + 1]);
    assert(t.subrange(2, 2 + mark.len() as int) =~= s.subrange(i + 2, i + 2 + mark.len()));
    lemma_all_in_stretch(s, i, n, Class::Except(LINE_FEED), from, n);
    lemma_run_over(s, Class::Except(LINE_FEED), from, n);
    lemma_run_end(s, Class::Except(LINE_FEED), from);
}

/// The exponent that is found is one.
proof fn lemma_exponent_end_matches(s: Seq<u8>, i: int, from: int, lower: u8, upper: u8)
    requires
        0 <= i <= from < exponent_end(s, from, lower, upper),
        from <= s.len(),
    ensures
        exponent_end(s, from, lower, upper) <= s.len(),
        is_exponent(s.subrange(i, exponent_end(s, from, lower, upper)), from - i, lower, upper),
{
    let end = exponent_end(s, from, lower, upper);
    let t = s.subrange(i, end);
    let digits = if s[from + 1] == PLUS || s[from + 1] == MINUS {
        from + 2
    } else {
        from + 1
    };
    lemma_run_all_in(s, Class::Digit, digits);
    lemma_all_in_stretch(s, i, end, Class::Digit, digits, end);
    assert(t[from - i] == s[from]);
    assert(t[from + 1 - i] == s[from + 1]);
}

/// No exponent is longer than the one that is found.
proof fn lemma_exponent_no_longer(s: Seq<u8>, i: int, n: int, from: int, lower: u8, upper: u8)
    requires
        0 <= i <= from < n <= s.len(),
        is_exponent(s.subrange(i, n), from - i, lower, upper),
    ensures
        n <= exponent_end(s, from, lower, upper),
{
    let t = s.subrange(i, n);
    assert(t[from - i] == s[from]);
    assert(t[from + 1 - i] == s[from + 1]);
    if from + 1 < n && all_in(t, Class::Digit, from + 1 - i, n - i) {
        lemma_all_in_stretch(s, i, n, Class::Digit, from + 1, n);
        assert(Class::Digit.contains(s[from + 1]));
        lemma_run_over(s, Class::Digit, from + 1, n);
    } else {
        lemma_all_in_stretch(s, i, n, Class::Digit, from + 2, n);
        lemma_run_over(s, Class::Digit, from + 2, n);
    }
}

/// The mantissa that is found is one, in every text that holds it.
proof fn lemma_mantissa_end_matches(s: Seq<u8>, i: int, n: int, from: int, class: Class, bare: bool)
    requires
        0 <= i <= from < mantissa_end(s, from, class, bare) <= n <= s.len(),
    ensures
        is_mantissa(s.subrange(i, n), class, from - i, mantissa_end(s, from, class, bare) - i, bare),
{
    let t = s.subrange(i, n);
    let end = mantissa_end(s, from, class, bare);
    let whole = run_end(s, class, from);
    lemma_run_all_in(s, class, from);
    if whole < s.len() && s[whole] == PERIOD {
        lemma_run_all_in(s, class, whole + 1);
        lemma_all_in_stretch(s, i, n, class, from, whole);
        lemma_all_in_stretch(s, i, n, class, whole + 1, end);
        assert(t[whole - i] == s[whole]);
        assert(is_dotted(t, class, from - i, whole - i, end - i));
    } else {
        lemma_all_in_stretch(s, i, n, class, from, end);
    }
}

/// A mantissa in the text up to `n` that ends at `to`, with nothing or
/// with a byte after it that is neither a digit of the class nor a `.`:
/// the mantissa that is found ends at `to` too, or later where the text
/// ends there.
proof fn lemma_mantissa_no_longer(
    s: Seq<u8>,
    i: int,
    n: int,
    from: int,
    to: int,
    class: Class,
    bare: bool,
)
    requires
        0 <= i <= from <= to <= n <= s.len(),
        is_mantissa(s.subrange(i, n), class, from - i, to - i, bare),
        !class.contains(PERIOD),
        to < n ==> !class.contains(s[to]) && s[to] != PERIOD,
    ensures
        from < to <= mantissa_end(s, from, class, bare) <= s.len(),
        to < n ==> mantissa_end(s, from, class, bare) == to,
{
    let t = s.subrange(i, n);
    lemma_mantissa_end_in_bounds(s, from, class, bare);
    if exists|dot: int| #[trigger] is_dotted(t, class, from - i, dot, to - i) {
        let d = choose|dot: int| #[trigger] is_dotted(t, class, from - i, dot, to - i);
        let dot = d + i;
        assert(t[d] == s[dot]);
        lemma_all_in_stretch(s, i, n, class, from, dot);
        lemma_all_in_stretch(s, i, n, class, dot + 1, to);
        lemma_run_over(s, class, from, dot);
        lemma_run_over(s, class, dot + 1, to);
    } else {
        lemma_all_in_stretch(s, i, n, class, from, to);
        lemma_run_over(s, class, from, to);
        let whole = run_end(s, class, from);
        if whole < s.len() {
            lemma_run_end(s, class, whole + 1);
        }
    }
}

/// The decimal float that is found is one.
proof fn lemma_decimal_float_end_matches(s: Seq<u8>, i: int)
    requires
        0 <= i < Rule::DecimalFloat.match_end(s, i),
        i <= s.len(),
    ensures
        Rule::DecimalFloat.matches(s, i, Rule::DecimalFloat.match_end(s, i)),
{
    let end = Rule::DecimalFloat.match_end(s, i);
    let t = s.subrange(i, end);
    let dotted = mantissa_end(s, i, Class::Digit, false);
    let whole = run_end(s, Class::Digit, i);
    lemma_mantissa_end_in_bounds(s, i, Class::Digit, false);
    lemma_run_all_in(s, Class::Digit, i);
    if i < dotted {
        lemma_exponent_end_in_bounds(s, dotted, LOWER_E, UPPER_E);
        lemma_mantissa_end_matches(s, i, end, i, Class::Digit, false);
        if dotted < end {
            lemma_exponent_end_matches(s, i, dotted, LOWER_E, UPPER_E);
        }
        assert(is_dotted_float(t, dotted - i));
    } else {
        lemma_exponent_end_matches(s, i, whole, LOWER_E, UPPER_E);
        lemma_all_in_stretch(s, i, end, Class::Digit, i, whole);
        assert(is_whole_float(t, whole - i));
    }
}

/// No decimal float is longer than the one that is found.
proof fn lemma_decimal_float_no_longer(s: Seq<u8>, i: int, n: int)
    requires
        Rule::DecimalFloat.matches(s, i, n),
    ensures
        n <= Rule::DecimalFloat.match_end(s, i),
{
    let t = s.subrange(i, n);
    if exists|m: int| #[trigger] is_dotted_float(t, m) {
        let m = choose|m: int| #[trigger] is_dotted_float(t, m);
        lemma_mantissa_bounds(t, Class::Digit, 0, m, false);
        if m < n - i {
            assert(t[m] == s[i + m]);
        }
        lemma_mantissa_no_longer(s, i, n, i, i + m, Class::Digit, false);
        let dotted = mantissa_end(s, i, Class::Digit, false);
        lemma_exponent_end_in_bounds(s, dotted, LOWER_E, UPPER_E);
        if m < n - i {
            lemma_exponent_no_longer(s, i, n, i + m, LOWER_E, UPPER_E);
        }
    } else {
        let m = choose|m: int| #[trigger] is_whole_float(t, m);
        assert(t[m] == s[i + m]);
        lemma_all_in_stretch(s, i, n, Class::Digit, i, i + m);
        lemma_run_over(s, Class::Digit, i, i + m);
        lemma_exponent_no_longer(s, i, n, i + m, LOWER_E, UPPER_E);
    }
}

/// A mantissa lies within its text and is not empty.
proof fn lemma_mantissa_bounds(t: Seq<u8>, class: Class, from: int, to: int, bare: bool)
    requires
        is_mantissa(t, class, from, to, bare),
    ensures
        0 <= from < to <= t.len(),
{
    if exists|dot: int| #[trigger] is_dotted(t, class, from, dot, to) {
        let dot = choose|dot: int| #[trigger] is_dotted(t, class, from, dot, to);
    }
}

/// The hexadecimal float that is found is one.
proof fn lemma_hex_float_end_matches(s: Seq<u8>, i: int)
    requires
        0 <= i < Rule::HexFloat.match_end(s, i),
        i <= s.len(),
    ensures
        Rule::HexFloat.matches(s, i, Rule::HexFloat.match_end(s, i)),
{
    let end = Rule::HexFloat.match_end(s, i);
    let t = s.subrange(i, end);
    let mantissa = mantissa_end(s, i + 2, Class::HexDigit, true);
    lemma_mantissa_end_in_bounds(s, i + 2, Class::HexDigit, true);
    lemma_exponent_end_matches(s, i, mantissa, LOWER_P, UPPER_P);
    lemma_mantissa_end_matches(s, i, end, i + 2, Class::HexDigit, true);
    assert(t[0] == s[i]);
    assert(t[1] == s[i + 1]);
    assert(is_hex_float(t, mantissa - i));
}

/// No hexadecimal float is longer than the one that is found.
proof fn lemma_hex_float_no_longer(s: Seq<u8>, i: int, n: int)
    requires
        Rule::HexFloat.matches(s, i, n),
    ensures
        n <= Rule::HexFloat.match_end(s, i),
{
    let t = s.subrange(i, n);
    let m = choose|m: int| #[trigger] is_hex_float(t, m);
    lemma_mantissa_bounds(t, Class::HexDigit, 2, m, true);
    assert(t[0] == s[i]);
    assert(t[1] == s[i + 1]);
    assert(t[m] == s[i + m]);
    lemma_mantissa_no_longer(s, i, n, i + 2, i + m, Class::HexDigit, true);
    lemma_exponent_no_longer(s, i, n, i + m, LOWER_P, UPPER_P);
}

/// `Rule::match_end` finds the longest match: where it moves on from `i`,
/// the rule matches the text from `i` up to there, and the rule matches no
/// text from `i` that ends later. Where it stays at `i`, the rule matches
/// nothing that starts at `i`.
pub proof fn lemma_match_end_is_longest(rule: Rule, s: Seq<u8>, i: int)
    requires
        0 <= i <= s.len(),
    ensures
        i <= rule.match_end(s, i) <= s.len(),
        i < rule.match_end(s, i) ==> rule.matches(s, i, rule.match_end(s, i)),
        forall|n: int| #[trigger] rule.matches(s, i, n) ==> n <= rule.match_end(s, i),
{
    lemma_match_end_in_bounds(s, i);
    if i < rule.match_end(s, i) {
        match rule {
            Rule::HexFloat => lemma_hex_float_end_matches(s, i),
            Rule::DecimalFloat => lemma_decimal_float_end_matches(s, i),
            _ => lemma_plain_match_end_matches(rule, s, i),
        }
    }
    assert forall|n: int| #[trigger] rule.matches(s, i, n) implies n <= rule.match_end(s, i) by {
        match rule {
            Rule::HexFloat => lemma_hex_float_no_longer(s, i, n),
            Rule::DecimalFloat => lemma_decimal_float_no_longer(s, i, n),
            _ => lemma_plain_no_longer_match(rule, s, i, n),
        }
    }
}

/// Longest match, then priority: the classifier's rule matches the text
/// from `i` up to where its match ends; no rule matches a longer text from
/// `i`; and every rule that matches as much is declared after it. Where
/// the classifier's rule does not move on from `i`, no rule matches
/// anything that starts at `i`.
pub proof fn lemma_winner_is_longest_match(s: Seq<u8>, i: int)
    requires
        0 <= i <= s.len(),
    ensures
        i < winner(s, i).match_end(s, i) ==> winner(s, i).matches(
            s,
            i,
            winner(s, i).match_end(s, i),
        ),
        forall|rule: Rule, n: int| #[trigger]
            rule.matches(s, i, n) ==> n < winner(s, i).match_end(s, i) || (n == winner(
                s,
                i,
            ).match_end(s, i) && winner(s, i).rank() <= rule.rank()),
{
    lemma_match_end_is_longest(winner(s, i), s, i);
    assert forall|rule: Rule, n: int| #[trigger] rule.matches(s, i, n) implies n < winner(
        s,
        i,
    ).match_end(s, i) || (n == winner(s, i).match_end(s, i) && winner(s, i).rank()
        <= rule.rank()) by {
        lemma_match_end_is_longest(rule, s, i);
        lemma_winner_is_longest_then_first(s, i, rule);
    }
}

} // verus!
