//! Slices of the input text by byte positions.
//!
//! The tokenizer works on the bytes of the input and hands out pieces of it
//! as text. A piece can be cut out at character boundaries only; the
//! lemmas here show that a position at or right after an ASCII byte is
//! one, which is all that the tokenizer needs.
use vstd::prelude::*;
use vstd::string::StringSliceAdditionalSpecFns;
use vstd::utf8::{
    encode_utf8_valid_utf8, is_char_boundary, is_char_boundary_iff_not_is_continuation_byte,
    is_char_boundary_start_end_of_seq, length_of_first_scalar, pop_first_scalar, valid_utf8,
};

verus! {

/// Whether the byte is an ASCII character on its own.
pub open spec fn is_ascii_byte(b: u8) -> bool {
    b < 0x80
}

/// Whether a piece of text can start or end at position `i`: at the end of
/// the text, at an ASCII byte, or right after one.
pub open spec fn is_cut(s: Seq<u8>, i: int) -> bool {
    ||| i == 0
    ||| i == s.len()
    ||| 0 <= i < s.len() && is_ascii_byte(s[i])
    ||| 0 < i <= s.len() && is_ascii_byte(s[i - 1])
}

/// In well-formed UTF-8 the position of an ASCII byte is a character
/// boundary.
pub proof fn lemma_boundary_at_ascii(bytes: Seq<u8>, i: int)
    requires
        valid_utf8(bytes),
        0 <= i < bytes.len(),
        is_ascii_byte(bytes[i]),
    ensures
        is_char_boundary(bytes, i),
{
    is_char_boundary_iff_not_is_continuation_byte(bytes, i);
}

/// In well-formed UTF-8 the position right after an ASCII byte is a
/// character boundary.
pub proof fn lemma_boundary_after_ascii(bytes: Seq<u8>, i: int)
    requires
        valid_utf8(bytes),
        0 <= i < bytes.len(),
        is_ascii_byte(bytes[i]),
    ensures
        is_char_boundary(bytes, i + 1),
    decreases bytes.len(),
{
    let n = length_of_first_scalar(bytes);
    if i == 0 {
        reveal_with_fuel(is_char_boundary, 2);
    } else if i < n {
    } else {
        let rest = pop_first_scalar(bytes);
        assert(rest[i - n] == bytes[i]);
        lemma_boundary_after_ascii(rest, i - n);
    }
}

/// Every cut of well-formed UTF-8 is a character boundary.
pub proof fn lemma_cut_is_boundary(bytes: Seq<u8>, i: int)
    requires
        valid_utf8(bytes),
        is_cut(bytes, i),
    ensures
        is_char_boundary(bytes, i),
{
    if i == 0 || i == bytes.len() {
        is_char_boundary_start_end_of_seq(bytes);
    } else if 0 <= i < bytes.len() && is_ascii_byte(bytes[i]) {
        lemma_boundary_at_ascii(bytes, i);
    } else {
        lemma_boundary_after_ascii(bytes, i - 1);
    }
}

/// In a text two cuts are character boundaries.
pub proof fn lemma_cuts_of_text(s: &str, from: int, to: int)
    requires
        is_cut(s.spec_bytes(), from),
        is_cut(s.spec_bytes(), to),
    ensures
        is_char_boundary(s.spec_bytes(), from),
        is_char_boundary(s.spec_bytes(), to),
{
    encode_utf8_valid_utf8(s@);
    lemma_cut_is_boundary(s.spec_bytes(), from);
    lemma_cut_is_boundary(s.spec_bytes(), to);
}

/// The piece of `s` between the byte positions `from` and `to`, which are
/// character boundaries.
pub fn slice_of<'a>(s: &'a str, from: usize, to: usize) -> (r: &'a str)
    requires
        from <= to <= s.spec_bytes().len(),
        is_char_boundary(s.spec_bytes(), from as int),
        is_char_boundary(s.spec_bytes(), to as int),
    ensures
        r.spec_bytes() == s.spec_bytes().subrange(from as int, to as int),
{
    proof {
        encode_utf8_valid_utf8(s@);
    }
    let (head, _) = s.split_at(to);
    proof {
        encode_utf8_valid_utf8(head@);
        if from < to {
            is_char_boundary_iff_not_is_continuation_byte(s.spec_bytes(), from as int);
            is_char_boundary_iff_not_is_continuation_byte(head.spec_bytes(), from as int);
        } else {
            is_char_boundary_start_end_of_seq(head.spec_bytes());
        }
    }
    let (_, r) = head.split_at(from);
    assert(r.spec_bytes() =~= s.spec_bytes().subrange(from as int, to as int));
    r
}

} // verus!
