//! Classes of bytes, and maximal runs of bytes of one class.
use vstd::prelude::*;

verus! {

pub const DIGIT_0: u8 = 0x30;

pub const DIGIT_9: u8 = 0x39;

pub const LOWER_A: u8 = 0x61;

pub const LOWER_F: u8 = 0x66;

pub const LOWER_Z: u8 = 0x7A;

pub const UPPER_A: u8 = 0x41;

pub const UPPER_F: u8 = 0x46;

pub const UPPER_Z: u8 = 0x5A;

pub const UNDERSCORE: u8 = 0x5F;

pub const SPACE: u8 = 0x20;

pub const TAB: u8 = 0x09;

pub const FORM_FEED: u8 = 0x0C;

pub const LINE_FEED: u8 = 0x0A;

pub const CARRIAGE_RETURN: u8 = 0x0D;

pub const PERIOD: u8 = 0x2E;

pub const PLUS: u8 = 0x2B;

pub const MINUS: u8 = 0x2D;

pub const SLASH: u8 = 0x2F;

pub const BANG: u8 = 0x21;

pub const DOUBLE_QUOTE: u8 = 0x22;

pub const SINGLE_QUOTE: u8 = 0x27;

pub const LOWER_E: u8 = 0x65;

pub const UPPER_E: u8 = 0x45;

pub const LOWER_P: u8 = 0x70;

pub const UPPER_P: u8 = 0x50;

pub const LOWER_X: u8 = 0x78;

pub const UPPER_X: u8 = 0x58;

pub open spec fn is_digit(b: u8) -> bool {
    DIGIT_0 <= b <= DIGIT_9
}

pub open spec fn is_hex_digit(b: u8) -> bool {
    is_digit(b) || (LOWER_A <= b <= LOWER_F) || (UPPER_A <= b <= UPPER_F)
}

pub open spec fn is_letter(b: u8) -> bool {
    (LOWER_A <= b <= LOWER_Z) || (UPPER_A <= b <= UPPER_Z)
}

/// A set of bytes that a rule repeats.
#[derive(Copy, Clone, Debug, PartialEq, Eq, Structural)]
pub enum Class {
    /// `0` to `9`.
    Digit,
    /// A digit or `_`.
    DigitOrUnderscore,
    /// `0` to `9`, `a` to `f`, `A` to `F`.
    HexDigit,
    /// A hexadecimal digit or `_`.
    HexDigitOrUnderscore,
    /// A letter, a digit or `_`.
    Word,
    /// Space, tab or form feed: the white space that separates tokens
    /// within a line.
    Blank,
    /// Any byte but the given one.
    Except(u8),
}

impl Class {
    /// Whether the byte belongs to the class.
    pub open spec fn contains(self, b: u8) -> bool {
        match self {
            Class::Digit => is_digit(b),
            Class::DigitOrUnderscore => is_digit(b) || b == UNDERSCORE,
            Class::HexDigit => is_hex_digit(b),
            Class::HexDigitOrUnderscore => is_hex_digit(b) || b == UNDERSCORE,
            Class::Word => is_letter(b) || is_digit(b) || b == UNDERSCORE,
            Class::Blank => b == SPACE || b == TAB || b == FORM_FEED,
            Class::Except(other) => b != other,
        }
    }

    pub fn has(self, b: u8) -> (r: bool)
        ensures
            r == self.contains(b),
    {
        let digit = DIGIT_0 <= b && b <= DIGIT_9;
        let hex = digit || (LOWER_A <= b && b <= LOWER_F) || (UPPER_A <= b && b <= UPPER_F);
        let letter = (LOWER_A <= b && b <= LOWER_Z) || (UPPER_A <= b && b <= UPPER_Z);
        match self {
            Class::Digit => digit,
            Class::DigitOrUnderscore => digit || b == UNDERSCORE,
            Class::HexDigit => hex,
            Class::HexDigitOrUnderscore => hex || b == UNDERSCORE,
            Class::Word => letter || digit || b == UNDERSCORE,
            Class::Blank => b == SPACE || b == TAB || b == FORM_FEED,
            Class::Except(other) => b != other,
        }
    }
}

/// Where the maximal run of bytes of `class` that starts at `from` ends:
/// the first position at or after `from` that holds no byte of the class,
/// or the end of `s`.
pub open spec fn run_end(s: Seq<u8>, class: Class, from: int) -> int
    decreases s.len() - from,
{
    if 0 <= from < s.len() && class.contains(s[from]) {
        run_end(s, class, from + 1)
    } else {
        from
    }
}

/// A run ends at or after its start and within the text, every byte in it
/// belongs to the class, and the byte that follows it, if any, does not.
pub proof fn lemma_run_end(s: Seq<u8>, class: Class, from: int)
    requires
        0 <= from <= s.len(),
    ensures
        from <= run_end(s, class, from) <= s.len(),
        forall|k: int| from <= k < run_end(s, class, from) ==> class.contains(#[trigger] s[k]),
        run_end(s, class, from) < s.len() ==> !class.contains(s[run_end(s, class, from)]),
    decreases s.len() - from,
{
    if from < s.len() && class.contains(s[from]) {
        lemma_run_end(s, class, from + 1);
    }
}

/// A run is determined by its defining property: if every byte of
/// `from..end` belongs to the class and the byte at `end`, if any, does not,
/// then the run from `from` ends at `end`.
pub proof fn lemma_run_end_unique(s: Seq<u8>, class: Class, from: int, end: int)
    requires
        0 <= from <= end <= s.len(),
        forall|k: int| from <= k < end ==> class.contains(#[trigger] s[k]),
        end < s.len() ==> !class.contains(s[end]),
    ensures
        run_end(s, class, from) == end,
    decreases end - from,
{
    if from < end {
        lemma_run_end_unique(s, class, from + 1, end);
    }
}

/// A run reaches at least as far as bytes of the class stand without a gap.
pub proof fn lemma_run_end_at_least(s: Seq<u8>, class: Class, from: int, to: int)
    requires
        0 <= from <= to <= s.len(),
        forall|k: int| from <= k < to ==> class.contains(#[trigger] s[k]),
    ensures
        to <= run_end(s, class, from) <= s.len(),
    decreases to - from,
{
    if from < to {
        lemma_run_end_at_least(s, class, from + 1, to);
    } else {
        lemma_run_end(s, class, from);
    }
}

/// Scans the maximal run of bytes of `class` that starts at `from`.
pub fn scan_run(bytes: &[u8], class: Class, from: usize) -> (end: usize)
    requires
        from <= bytes@.len(),
    ensures
        end == run_end(bytes@, class, from as int),
        from <= end <= bytes@.len(),
{
    let mut end: usize = from;
    while end < bytes.len() && class.has(bytes[end])
        invariant
            from <= end <= bytes@.len(),
            run_end(bytes@, class, from as int) == run_end(bytes@, class, end as int),
        decreases bytes@.len() - end,
    {
        end = end + 1;
    }
    proof {
        lemma_run_end(bytes@, class, from as int);
    }
    end
}

} // verus!
