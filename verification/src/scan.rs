//! The matchers: for each rule, the executable scan that finds where its
//! longest match ends, and the classifier that keeps the best of them.
use vstd::prelude::*;
use crate::classes::{
    scan_run, Class, BANG, CARRIAGE_RETURN, DIGIT_0, DOUBLE_QUOTE, LINE_FEED, LOWER_E, LOWER_P,
    LOWER_X, MINUS, PERIOD, PLUS, SINGLE_QUOTE, SLASH, UPPER_E, UPPER_P, UPPER_X,
};
use crate::rules::{
    comment_end, decimal_float_end, decimal_integer_end, exponent_end, has_at, hex_float_end,
    hex_integer_end, identifier_end, keyword_at, line_end, longer, mantissa_end, newline_end,
    winner, Rule,
};
use crate::token::{Keyword, Symbol};

verus! {

/// Whether the bytes of `pat` stand in `bytes` from position `i` on.
pub fn starts_with_at(bytes: &[u8], i: usize, pat: &[u8]) -> (r: bool)
    requires
        i <= bytes@.len(),
    ensures
        r == has_at(bytes@, i as int, pat@),
{
    if bytes.len() - i < pat.len() {
        return false;
    }
    let mut k: usize = 0;
    while k < pat.len()
        invariant
            i + pat@.len() <= bytes@.len() <= usize::MAX,
            k <= pat@.len(),
            forall|j: int| 0 <= j < k ==> bytes@[i + j] == pat@[j],
        decreases pat@.len() - k,
    {
        if bytes[i + k] != pat[k] {
            proof {
                let sub = bytes@.subrange(i as int, i + pat@.len());
                assert(sub[k as int] == bytes@[i + k]);
            }
            return false;
        }
        k = k + 1;
    }
    assert(bytes@.subrange(i as int, i + pat@.len()) =~= pat@);
    true
}

/// Finds the reserved word that is spelled at position `i`.
pub fn scan_keyword(bytes: &[u8], i: usize) -> (r: Option<Keyword>)
    requires
        i <= bytes@.len(),
    ensures
        r == keyword_at(bytes@, i as int),
{
    if starts_with_at(bytes, i, Keyword::Include.to_string().as_bytes()) {
        Some(Keyword::Include)
    } else if starts_with_at(bytes, i, Keyword::NativeInclude.to_string().as_bytes()) {
        Some(Keyword::NativeInclude)
    } else if starts_with_at(bytes, i, Keyword::Namespace.to_string().as_bytes()) {
        Some(Keyword::Namespace)
    } else if starts_with_at(bytes, i, Keyword::Attribute.to_string().as_bytes()) {
        Some(Keyword::Attribute)
    } else if starts_with_at(bytes, i, Keyword::Table.to_string().as_bytes()) {
        Some(Keyword::Table)
    } else if starts_with_at(bytes, i, Keyword::Struct.to_string().as_bytes()) {
        Some(Keyword::Struct)
    } else if starts_with_at(bytes, i, Keyword::Enum.to_string().as_bytes()) {
        Some(Keyword::Enum)
    } else if starts_with_at(bytes, i, Keyword::Union.to_string().as_bytes()) {
        Some(Keyword::Union)
    } else if starts_with_at(bytes, i, Keyword::RootType.to_string().as_bytes()) {
        Some(Keyword::RootType)
    } else if starts_with_at(bytes, i, Keyword::RpcService.to_string().as_bytes()) {
        Some(Keyword::RpcService)
    } else if starts_with_at(bytes, i, Keyword::FileExtension.to_string().as_bytes()) {
        Some(Keyword::FileExtension)
    } else if starts_with_at(bytes, i, Keyword::FileIdentifier.to_string().as_bytes()) {
        Some(Keyword::FileIdentifier)
    } else {
        None
    }
}

/// Scans an exponent: a marker byte, an optional sign, digits.
pub fn scan_exponent(bytes: &[u8], i: usize, lower: u8, upper: u8) -> (end: usize)
    requires
        i <= bytes@.len(),
    ensures
        end == exponent_end(bytes@, i as int, lower, upper),
        i <= end <= bytes@.len(),
{
    if i < bytes.len() && (bytes[i] == lower || bytes[i] == upper) {
        let signed = i + 1 < bytes.len() && (bytes[i + 1] == PLUS || bytes[i + 1] == MINUS);
        let digits: usize = if signed {
            i + 2
        } else {
            i + 1
        };
        let end = scan_run(bytes, Class::Digit, digits);
        if digits < end {
            end
        } else {
            i
        }
    } else {
        i
    }
}

/// Scans a mantissa: digits of `class` around a `.`, or, where `bare`
/// allows it, digits alone.
pub fn scan_mantissa(bytes: &[u8], i: usize, class: Class, bare: bool) -> (end: usize)
    requires
        i <= bytes@.len(),
    ensures
        end == mantissa_end(bytes@, i as int, class, bare),
        i <= end <= bytes@.len(),
{
    let whole = scan_run(bytes, class, i);
    if whole < bytes.len() && bytes[whole] == PERIOD {
        let fraction = scan_run(bytes, class, whole + 1);
        if i < whole || whole + 1 < fraction {
            fraction
        } else {
            i
        }
    } else if bare {
        whole
    } else {
        i
    }
}

pub fn scan_identifier(bytes: &[u8], i: usize) -> (end: usize)
    requires
        i <= bytes@.len(),
    ensures
        end == identifier_end(bytes@, i as int),
        i <= end <= bytes@.len(),
{
    if i < bytes.len() && !Class::Digit.has(bytes[i]) && Class::Word.has(bytes[i]) {
        scan_run(bytes, Class::Word, i + 1)
    } else {
        i
    }
}

pub fn scan_decimal_integer(bytes: &[u8], i: usize) -> (end: usize)
    requires
        i <= bytes@.len(),
    ensures
        end == decimal_integer_end(bytes@, i as int),
        i <= end <= bytes@.len(),
{
    if i < bytes.len() && Class::Digit.has(bytes[i]) {
        scan_run(bytes, Class::DigitOrUnderscore, i + 1)
    } else {
        i
    }
}

pub fn scan_hex_integer(bytes: &[u8], i: usize) -> (end: usize)
    requires
        i <= bytes@.len(),
    ensures
        end == hex_integer_end(bytes@, i as int),
        i <= end <= bytes@.len(),
{
    if i < bytes.len() && bytes[i] == DIGIT_0 && i + 1 < bytes.len() && bytes[i + 1] == LOWER_X {
        let end = scan_run(bytes, Class::HexDigitOrUnderscore, i + 2);
        if i + 2 < end {
            end
        } else {
            i
        }
    } else {
        i
    }
}

pub fn scan_decimal_float(bytes: &[u8], i: usize) -> (end: usize)
    requires
        i <= bytes@.len(),
    ensures
        end == decimal_float_end(bytes@, i as int),
        i <= end <= bytes@.len(),
{
    let dotted = scan_mantissa(bytes, i, Class::Digit, false);
    if i < dotted {
        return scan_exponent(bytes, dotted, LOWER_E, UPPER_E);
    }
    let whole = scan_run(bytes, Class::Digit, i);
    if i < whole {
        let end = scan_exponent(bytes, whole, LOWER_E, UPPER_E);
        if whole < end {
            return end;
        }
    }
    i
}

pub fn scan_hex_float(bytes: &[u8], i: usize) -> (end: usize)
    requires
        i <= bytes@.len(),
    ensures
        end == hex_float_end(bytes@, i as int),
        i <= end <= bytes@.len(),
{
    if i < bytes.len() && bytes[i] == DIGIT_0 && i + 1 < bytes.len() && (bytes[i + 1] == LOWER_X
        || bytes[i + 1] == UPPER_X) {
        let mantissa = scan_mantissa(bytes, i + 2, Class::HexDigit, true);
        if i + 2 < mantissa {
            let end = scan_exponent(bytes, mantissa, LOWER_P, UPPER_P);
            if mantissa < end {
                return end;
            }
        }
    }
    i
}

/// Scans to the end of the line: to the first line break at or after
/// `from`, or to the end of the text.
pub fn scan_line(bytes: &[u8], from: usize) -> (end: usize)
    requires
        from <= bytes@.len(),
    ensures
        end == line_end(bytes@, from as int),
        from <= end <= bytes@.len(),
{
    let feed = scan_run(bytes, Class::Except(LINE_FEED), from);
    if from < feed && feed < bytes.len() && bytes[feed - 1] == CARRIAGE_RETURN {
        feed - 1
    } else {
        feed
    }
}

/// Scans a comment that starts with `//` and then the bytes of `mark`.
pub fn scan_comment(bytes: &[u8], i: usize, mark: &[u8]) -> (end: usize)
    requires
        i <= bytes@.len(),
    ensures
        end == comment_end(bytes@, i as int, mark@),
        i <= end <= bytes@.len(),
{
    if i < bytes.len() && bytes[i] == SLASH && i + 1 < bytes.len() && bytes[i + 1] == SLASH
        && starts_with_at(bytes, i + 2, mark) {
        scan_line(bytes, i + 2 + mark.len())
    } else {
        i
    }
}

pub fn scan_newline(bytes: &[u8], i: usize) -> (end: usize)
    requires
        i <= bytes@.len(),
    ensures
        end == newline_end(bytes@, i as int),
        i <= end <= bytes@.len(),
{
    if i < bytes.len() && bytes[i] == LINE_FEED {
        i + 1
    } else if i < bytes.len() && bytes[i] == CARRIAGE_RETURN && i + 1 < bytes.len() && bytes[i
        + 1] == LINE_FEED {
        i + 2
    } else {
        i
    }
}

impl Rule {
    /// Finds where the longest match of the rule that starts at `i` ends.
    /// The result is `i` where the rule does not match there.
    pub fn scan(self, bytes: &[u8], i: usize) -> (end: usize)
        requires
            i <= bytes@.len(),
        ensures
            end == self.match_end(bytes@, i as int),
            i <= end <= bytes@.len(),
    {
        match self {
            Rule::Symbol => {
                if i < bytes.len() && Symbol::from_byte(bytes[i]).is_some() {
                    i + 1
                } else {
                    i
                }
            },
            Rule::Keyword => match scan_keyword(bytes, i) {
                Some(k) => {
                    let spelling = k.to_string().as_bytes();
                    let room = bytes.len() - i;
                    assert(has_at(bytes@, i as int, spelling@));
                    assert(spelling@.len() <= room);
                    i + spelling.len()
                },
                None => i,
            },
            Rule::Identifier => scan_identifier(bytes, i),
            Rule::HexFloat => scan_hex_float(bytes, i),
            Rule::HexInteger => scan_hex_integer(bytes, i),
            Rule::DecimalFloat => scan_decimal_float(bytes, i),
            Rule::DecimalInteger => scan_decimal_integer(bytes, i),
            Rule::OuterDocstring => {
                let mark: [u8; 1] = [SLASH];
                assert(mark@ =~= seq![SLASH]);
                scan_comment(bytes, i, mark.as_slice())
            },
            Rule::InnerDocstring => {
                let mark: [u8; 1] = [BANG];
                assert(mark@ =~= seq![BANG]);
                scan_comment(bytes, i, mark.as_slice())
            },
            Rule::Comment => {
                let mark: [u8; 0] = [];
                assert(mark@ =~= Seq::<u8>::empty());
                scan_comment(bytes, i, mark.as_slice())
            },
            Rule::Newline => scan_newline(bytes, i),
            Rule::Quote => {
                if i < bytes.len() && (bytes[i] == DOUBLE_QUOTE || bytes[i] == SINGLE_QUOTE) {
                    i + 1
                } else {
                    i
                }
            },
        }
    }
}

/// Of two rules, keeps the one whose match at `i` is longer; on a tie the
/// first.
fn keep_longer(bytes: &[u8], i: usize, first: (Rule, usize), second: Rule) -> (r: (Rule, usize))
    requires
        i <= bytes@.len(),
        first.1 == first.0.match_end(bytes@, i as int),
    ensures
        r.0 == longer(bytes@, i as int, first.0, second),
        r.1 == r.0.match_end(bytes@, i as int),
{
    let end = second.scan(bytes, i);
    if first.1 < end {
        (second, end)
    } else {
        first
    }
}

/// Classifies the text at `i`: tries every rule and keeps the longest
/// match, and among matches of equal length that of the rule declared
/// first. Returns that rule and where its match ends, or `None` where no
/// rule matches at `i`.
pub fn classify(bytes: &[u8], i: usize) -> (r: Option<(Rule, usize)>)
    requires
        i <= bytes@.len(),
    ensures
        r is None <==> winner(bytes@, i as int).match_end(bytes@, i as int) == i,
        r matches Some((rule, end)) ==> {
            &&& rule == winner(bytes@, i as int)
            &&& end == rule.match_end(bytes@, i as int)
            &&& i < end <= bytes@.len()
        },
{
    let first = Rule::Symbol.scan(bytes, i);
    let best = (Rule::Symbol, first);
    let best = keep_longer(bytes, i, best, Rule::Keyword);
    let best = keep_longer(bytes, i, best, Rule::Identifier);
    let best = keep_longer(bytes, i, best, Rule::HexFloat);
    let best = keep_longer(bytes, i, best, Rule::HexInteger);
    let best = keep_longer(bytes, i, best, Rule::DecimalFloat);
    let best = keep_longer(bytes, i, best, Rule::DecimalInteger);
    let best = keep_longer(bytes, i, best, Rule::OuterDocstring);
    let best = keep_longer(bytes, i, best, Rule::InnerDocstring);
    let best = keep_longer(bytes, i, best, Rule::Comment);
    let best = keep_longer(bytes, i, best, Rule::Newline);
    let best = keep_longer(bytes, i, best, Rule::Quote);
    let end = best.0.scan(bytes, i);
    if i < end {
        Some((best.0, end))
    } else {
        None
    }
}

} // verus!
