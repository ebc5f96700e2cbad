//! Tokens as text for diagnostics, and the tests for a token's variant.
use vstd::prelude::*;
use vstd::string::StringExecFns;
use crate::token::{CommentKind, Token};

verus! {

/// What the standard library's `Debug` formatting makes of a text: the text
/// between double quotes, with the characters escaped that would not read
/// as themselves there.
pub uninterp spec fn debug_text(text: Seq<char>) -> Seq<char>;

/// Formats a text with the standard library's `Debug` formatting of `str`
/// (`{:?}`). The contract gives the result its name, `debug_text`, and says
/// nothing of what the escaped text looks like.
#[verifier::external_body]
fn debug_quoted(text: &str) -> (r: String)
    ensures
        r@ == debug_text(text@),
{
    format!("{:?}", text)
}

impl CommentKind {
    /// The name of the kind.
    pub open spec fn name(self) -> Seq<char> {
        match self {
            CommentKind::Comment => "Comment"@,
            CommentKind::InnerDocstring => "InnerDocstring"@,
            CommentKind::OuterDocstring => "OuterDocstring"@,
        }
    }
}

/// The description of a token that carries a text: what the token is, a
/// space, and the quoted text.
pub open spec fn labelled(label: Seq<char>, quoted: Seq<char>) -> Seq<char> {
    label + " "@ + quoted
}

/// The description of a comment: its kind by name and its quoted content.
pub open spec fn comment_text(kind: CommentKind, quoted: Seq<char>) -> Seq<char> {
    "comment CommentToken { kind: "@ + kind.name() + ", content: "@ + quoted + " }"@
}

/// Describes a token that carries a text, given the text in quotes.
pub fn describe_labelled(label: &str, quoted: &str) -> (r: String)
    ensures
        r@ == labelled(label@, quoted@),
{
    let mut out = String::from_str(label);
    out.append(" ");
    out.append(quoted);
    out
}

/// Describes a comment, given its content in quotes.
pub fn describe_comment(kind: CommentKind, quoted: &str) -> (r: String)
    ensures
        r@ == comment_text(kind, quoted@),
{
    let mut out = String::from_str("comment CommentToken { kind: ");
    match kind {
        CommentKind::Comment => out.append("Comment"),
        CommentKind::InnerDocstring => out.append("InnerDocstring"),
        CommentKind::OuterDocstring => out.append("OuterDocstring"),
    }
    out.append(", content: ");
    out.append(quoted);
    out.append(" }");
    out
}

impl<'input> Token<'input> {
    /// The description of the token for diagnostics.
    pub open spec fn description(&self) -> Seq<char> {
        match *self {
            Token::Ident(s) => labelled("identifier"@, debug_text(s@)),
            Token::Symbol(sym) => sym.text(),
            Token::Keyword(keyword) => keyword.text(),
            Token::StringLiteral(s) => labelled("string literal"@, debug_text(s@)),
            Token::IntegerLiteral(s) => labelled("integer literal"@, debug_text(s@)),
            Token::FloatLiteral(s) => labelled("float literal"@, debug_text(s@)),
            Token::Comment(c) => comment_text(c.kind, debug_text(c.content@)),
            Token::Newline => "newline"@,
            Token::UnexpectedToken => "unexpected token"@,
            Token::EndOfStream => "end-of-stream token"@,
        }
    }

    /// Describes the token for diagnostics: a symbol or a reserved word by
    /// its spelling, a token that carries a text by what it is and the
    /// quoted text, the others by what they are.
    pub fn fmt(&self) -> (r: String)
        ensures
            r@ == self.description(),
    {
        match self {
            Token::Ident(s) => describe_labelled("identifier", debug_quoted(s).as_str()),
            Token::Symbol(sym) => String::from_str(sym.to_string()),
            Token::Keyword(keyword) => String::from_str(keyword.to_string()),
            Token::StringLiteral(s) => describe_labelled(
                "string literal",
                debug_quoted(s.as_str()).as_str(),
            ),
            Token::IntegerLiteral(s) => describe_labelled(
                "integer literal",
                debug_quoted(s).as_str(),
            ),
            Token::FloatLiteral(s) => describe_labelled("float literal", debug_quoted(s).as_str()),
            Token::Comment(c) => describe_comment(c.kind, debug_quoted(c.content).as_str()),
            Token::Newline => String::from_str("newline"),
            Token::UnexpectedToken => String::from_str("unexpected token"),
            Token::EndOfStream => String::from_str("end-of-stream token"),
        }
    }

    pub fn is_ident(&self) -> (r: bool)
        ensures
            r == (self is Ident),
    {
        matches!(self, Token::Ident(_))
    }

    pub fn is_symbol(&self) -> (r: bool)
        ensures
            r == (self is Symbol),
    {
        matches!(self, Token::Symbol(_))
    }

    pub fn is_keyword(&self) -> (r: bool)
        ensures
            r == (self is Keyword),
    {
        matches!(self, Token::Keyword(_))
    }

    pub fn is_string_literal(&self) -> (r: bool)
        ensures
            r == (self is StringLiteral),
    {
        matches!(self, Token::StringLiteral(_))
    }

    pub fn is_integer_literal(&self) -> (r: bool)
        ensures
            r == (self is IntegerLiteral),
    {
        matches!(self, Token::IntegerLiteral(_))
    }

    pub fn is_float_literal(&self) -> (r: bool)
        ensures
            r == (self is FloatLiteral),
    {
        matches!(self, Token::FloatLiteral(_))
    }

    pub fn is_comment(&self) -> (r: bool)
        ensures
            r == (self is Comment),
    {
        matches!(self, Token::Comment(_))
    }

    pub fn is_newline(&self) -> (r: bool)
        ensures
            r == (self is Newline),
    {
        matches!(self, Token::Newline)
    }

    pub fn is_unexpected_token(&self) -> (r: bool)
        ensures
            r == (self is UnexpectedToken),
    {
        matches!(self, Token::UnexpectedToken)
    }

    pub fn is_end_of_stream(&self) -> (r: bool)
        ensures
            r == (self is EndOfStream),
    {
        matches!(self, Token::EndOfStream)
    }
}

} // verus!
