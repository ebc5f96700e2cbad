//! Facts about the spelling of the reserved words.
use vstd::prelude::*;
use vstd::utf8::{is_ascii_chars, is_ascii_chars_encode_utf8};
use crate::classes::{is_letter, Class, LOWER_X, UNDERSCORE};
use crate::rules::keyword_at;
use crate::token::Keyword;

verus! {

/// Whether the character is a small letter or `_`.
pub open spec fn is_small_or_underscore(c: char) -> bool {
    ('a' <= c <= 'z') || c == '_'
}

/// The text of a reserved word, character by character.
pub open spec fn letters(k: Keyword) -> Seq<char> {
    match k {
        Keyword::Include => seq!['i', 'n', 'c', 'l', 'u', 'd', 'e'],
        Keyword::NativeInclude => seq![
            'n',
            'a',
            't',
            'i',
            'v',
            'e',
            '_',
            'i',
            'n',
            'c',
            'l',
            'u',
            'd',
            'e',
        ],
        Keyword::Namespace => seq!['n', 'a', 'm', 'e', 's', 'p', 'a', 'c', 'e'],
        Keyword::Attribute => seq!['a', 't', 't', 'r', 'i', 'b', 'u', 't', 'e'],
        Keyword::Table => seq!['t', 'a', 'b', 'l', 'e'],
        Keyword::Struct => seq!['s', 't', 'r', 'u', 'c', 't'],
        Keyword::Enum => seq!['e', 'n', 'u', 'm'],
        Keyword::Union => seq!['u', 'n', 'i', 'o', 'n'],
        Keyword::RootType => seq!['r', 'o', 'o', 't', '_', 't', 'y', 'p', 'e'],
        Keyword::RpcService => seq!['r', 'p', 'c', '_', 's', 'e', 'r', 'v', 'i', 'c', 'e'],
        Keyword::FileExtension => seq![
            'f',
            'i',
            'l',
            'e',
            '_',
            'e',
            'x',
            't',
            'e',
            'n',
            's',
            'i',
            'o',
            'n',
        ],
        Keyword::FileIdentifier => seq![
            'f',
            'i',
            'l',
            'e',
            '_',
            'i',
            'd',
            'e',
            'n',
            't',
            'i',
            'f',
            'i',
            'e',
            'r',
        ],
    }
}

/// The text of a reserved word is made of the letters listed for it.
pub proof fn lemma_keyword_letters(k: Keyword)
    ensures
        k.text() == letters(k),
{
    reveal_strlit("include");
    reveal_strlit("native_include");
    reveal_strlit("namespace");
    reveal_strlit("attribute");
    reveal_strlit("table");
    reveal_strlit("struct");
    reveal_strlit("enum");
    reveal_strlit("union");
    reveal_strlit("root_type");
    reveal_strlit("rpc_service");
    reveal_strlit("file_extension");
    reveal_strlit("file_identifier");
    assert(k.text() =~= letters(k));
}

/// The text of a reserved word is made of small letters and `_`, starts
/// with a letter, and has between four and fifteen characters.
pub proof fn lemma_keyword_text(k: Keyword)
    ensures
        4 <= k.text().len() <= 15,
        forall|j: int| 0 <= j < k.text().len() ==> is_small_or_underscore(#[trigger] k.text()[j]),
        k.text()[0] != '_',
{
    lemma_keyword_letters(k);
}

/// The spelling of a reserved word has one byte for each character of its
/// text, and each is the character's code.
pub proof fn lemma_keyword_spelling(k: Keyword)
    ensures
        k.spelling().len() == k.text().len(),
        forall|j: int| 0 <= j < k.text().len() ==> #[trigger] k.spelling()[j] == k.text()[j] as u8,
{
    lemma_keyword_text(k);
    assert(is_ascii_chars(k.text())) by {
        assert forall|j: int| 0 <= j < k.text().len() implies '\0' <= #[trigger] k.text()[j]
            <= '\u{7f}' by {
            assert(is_small_or_underscore(k.text()[j]));
        }
    }
    is_ascii_chars_encode_utf8(k.text());
}

/// The spelling of a reserved word is an identifier: a letter first, then
/// letters and `_`.
pub proof fn lemma_keyword_is_word(k: Keyword)
    ensures
        4 <= k.spelling().len() <= 15,
        is_letter(k.spelling()[0]),
        forall|j: int|
            0 <= j < k.spelling().len() ==> is_letter(#[trigger] k.spelling()[j]) || k.spelling()[j]
                == UNDERSCORE,
        forall|j: int|
            0 <= j < k.spelling().len() ==> Class::Word.contains(#[trigger] k.spelling()[j]),
{
    lemma_keyword_text(k);
    lemma_keyword_spelling(k);
    assert forall|j: int| 0 <= j < k.spelling().len() implies is_letter(#[trigger] k.spelling()[j])
        || k.spelling()[j] == UNDERSCORE by {
        assert(is_small_or_underscore(k.text()[j]));
    }
    assert(is_small_or_underscore(k.text()[0]));
}

/// No reserved word starts at a byte that is not a letter.
pub proof fn lemma_no_keyword_at(s: Seq<u8>, p: int)
    requires
        0 <= p < s.len(),
        !is_letter(s[p]),
    ensures
        keyword_at(s, p) is None,
{
    match keyword_at(s, p) {
        Some(k) => {
            lemma_keyword_is_word(k);
            assert(s.subrange(p, p + k.spelling().len())[0] == s[p]);
        },
        None => {},
    }
}

/// No reserved word starts with `x`.
pub proof fn lemma_keyword_initial(k: Keyword)
    ensures
        k.spelling()[0] != LOWER_X,
{
    lemma_keyword_letters(k);
    lemma_keyword_spelling(k);
    assert(is_small_or_underscore(k.text()[0]));
}

/// No reserved word begins another: the spellings of two of them differ
/// at a position that both have.
pub proof fn lemma_keywords_differ(a: Keyword, b: Keyword) -> (j: int)
    requires
        a != b,
    ensures
        0 <= j < a.spelling().len(),
        j < b.spelling().len(),
        a.spelling()[j] != b.spelling()[j],
{
    lemma_keyword_letters(a);
    lemma_keyword_letters(b);
    lemma_keyword_text(a);
    lemma_keyword_text(b);
    lemma_keyword_spelling(a);
    lemma_keyword_spelling(b);
    let j: int = if a.text()[0] != b.text()[0] {
        0
    } else if a.text()[1] != b.text()[1] {
        1
    } else if a.text()[2] != b.text()[2] {
        2
    } else {
        5
    };
    assert(a.text()[j] != b.text()[j]);
    assert(is_small_or_underscore(a.text()[j]));
    assert(is_small_or_underscore(b.text()[j]));
    j
}

} // verus!
