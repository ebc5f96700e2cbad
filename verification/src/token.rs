//! The vocabulary of the tokenizer: the closed set of token kinds, their
//! payloads, and the canonical spelling of every symbol, keyword and comment
//! prefix.
use vstd::prelude::*;
use vstd::string::StringSliceAdditionalSpecFns;
use vstd::utf8::encode_utf8;

verus! {

/// One of the thirteen single-character punctuation marks.
#[derive(Copy, Clone, Debug, PartialEq, Eq, Structural)]
pub enum Symbol {
    Plus,
    Minus,
    Semicolon,
    Colon,
    Comma,
    Period,
    Equals,
    ParenOpen,
    ParenClose,
    BraceOpen,
    BraceClose,
    BracketOpen,
    BracketClose,
}

/// One of the twelve reserved words.
#[derive(Copy, Clone, Debug, PartialEq, Eq, Structural)]
pub enum Keyword {
    Include,
    NativeInclude,
    Namespace,
    Attribute,
    Table,
    Struct,
    Enum,
    Union,
    RootType,
    RpcService,
    FileExtension,
    FileIdentifier,
}

/// How a comment was introduced: `//`, `//!` or `///`.
#[derive(Copy, Clone, Debug, PartialEq, Eq, Structural)]
pub enum CommentKind {
    Comment,
    InnerDocstring,
    OuterDocstring,
}

/// A comment: its kind and the text that follows the prefix on the same line.
#[derive(Copy, Clone, Debug, PartialEq, Eq)]
pub struct CommentToken<'input> {
    pub kind: CommentKind,
    pub content: &'input str,
}

/// A summary of a run of white space: whether it crossed a line break.
#[derive(Copy, Clone, Debug, PartialEq, Eq, Structural)]
pub struct Whitespace {
    pub contains_newline: bool,
}

/// A token. Text payloads borrow from the input, except the content of a
/// string literal, which is owned.
#[derive(Clone, Debug, PartialEq, Eq)]
pub enum Token<'input> {
    Ident(&'input str),
    Symbol(Symbol),
    Keyword(Keyword),
    StringLiteral(String),
    IntegerLiteral(&'input str),
    FloatLiteral(&'input str),
    Comment(CommentToken<'input>),
    Newline,
    UnexpectedToken,
    EndOfStream,
}

/// The mathematical value of a token: the same variants, with every text
/// payload given as the bytes of its UTF-8 encoding.
pub enum TokenView {
    Ident(Seq<u8>),
    Symbol(Symbol),
    Keyword(Keyword),
    StringLiteral(Seq<u8>),
    IntegerLiteral(Seq<u8>),
    FloatLiteral(Seq<u8>),
    Comment(CommentKind, Seq<u8>),
    Newline,
    UnexpectedToken,
    EndOfStream,
}

impl<'input> View for Token<'input> {
    type V = TokenView;

    open spec fn view(&self) -> TokenView {
        match *self {
            Token::Ident(s) => TokenView::Ident(s.spec_bytes()),
            Token::Symbol(s) => TokenView::Symbol(s),
            Token::Keyword(k) => TokenView::Keyword(k),
            Token::StringLiteral(s) => TokenView::StringLiteral(encode_utf8(s@)),
            Token::IntegerLiteral(s) => TokenView::IntegerLiteral(s.spec_bytes()),
            Token::FloatLiteral(s) => TokenView::FloatLiteral(s.spec_bytes()),
            Token::Comment(c) => TokenView::Comment(c.kind, c.content.spec_bytes()),
            Token::Newline => TokenView::Newline,
            Token::UnexpectedToken => TokenView::UnexpectedToken,
            Token::EndOfStream => TokenView::EndOfStream,
        }
    }
}

impl CommentKind {
    /// The prefix that introduces a comment of this kind.
    pub open spec fn text(self) -> Seq<char> {
        match self {
            CommentKind::Comment => "//"@,
            CommentKind::InnerDocstring => "//!"@,
            CommentKind::OuterDocstring => "///"@,
        }
    }

    /// The number of bytes of the prefix.
    pub open spec fn prefix_len(self) -> int {
        match self {
            CommentKind::Comment => 2,
            CommentKind::InnerDocstring => 3,
            CommentKind::OuterDocstring => 3,
        }
    }

    pub fn to_string(self) -> (r: &'static str)
        ensures
            r@ == self.text(),
    {
        match self {
            CommentKind::Comment => "//",
            CommentKind::InnerDocstring => "//!",
            CommentKind::OuterDocstring => "///",
        }
    }
}

impl Symbol {
    /// The byte that spells this symbol.
    pub open spec fn byte(self) -> u8 {
        match self {
            Symbol::Plus => 0x2Bu8,
            Symbol::Minus => 0x2Du8,
            Symbol::Semicolon => 0x3Bu8,
            Symbol::Colon => 0x3Au8,
            Symbol::Comma => 0x2Cu8,
            Symbol::Period => 0x2Eu8,
            Symbol::Equals => 0x3Du8,
            Symbol::ParenOpen => 0x28u8,
            Symbol::ParenClose => 0x29u8,
            Symbol::BraceOpen => 0x7Bu8,
            Symbol::BraceClose => 0x7Du8,
            Symbol::BracketOpen => 0x5Bu8,
            Symbol::BracketClose => 0x5Du8,
        }
    }

    /// The symbol that the byte spells, if it spells one.
    pub open spec fn of_byte(b: u8) -> Option<Symbol> {
        if b == Symbol::Plus.byte() {
            Some(Symbol::Plus)
        } else if b == Symbol::Minus.byte() {
            Some(Symbol::Minus)
        } else if b == Symbol::Semicolon.byte() {
            Some(Symbol::Semicolon)
        } else if b == Symbol::Colon.byte() {
            Some(Symbol::Colon)
        } else if b == Symbol::Comma.byte() {
            Some(Symbol::Comma)
        } else if b == Symbol::Period.byte() {
            Some(Symbol::Period)
        } else if b == Symbol::Equals.byte() {
            Some(Symbol::Equals)
        } else if b == Symbol::ParenOpen.byte() {
            Some(Symbol::ParenOpen)
        } else if b == Symbol::ParenClose.byte() {
            Some(Symbol::ParenClose)
        } else if b == Symbol::BraceOpen.byte() {
            Some(Symbol::BraceOpen)
        } else if b == Symbol::BraceClose.byte() {
            Some(Symbol::BraceClose)
        } else if b == Symbol::BracketOpen.byte() {
            Some(Symbol::BracketOpen)
        } else if b == Symbol::BracketClose.byte() {
            Some(Symbol::BracketClose)
        } else {
            None
        }
    }

    /// Finds the symbol that a byte spells.
    pub fn from_byte(b: u8) -> (r: Option<Symbol>)
        ensures
            r == Symbol::of_byte(b),
            r matches Some(sym) ==> sym.byte() == b,
    {
        if b == 0x2B {
            Some(Symbol::Plus)
        } else if b == 0x2D {
            Some(Symbol::Minus)
        } else if b == 0x3B {
            Some(Symbol::Semicolon)
        } else if b == 0x3A {
            Some(Symbol::Colon)
        } else if b == 0x2C {
            Some(Symbol::Comma)
        } else if b == 0x2E {
            Some(Symbol::Period)
        } else if b == 0x3D {
            Some(Symbol::Equals)
        } else if b == 0x28 {
            Some(Symbol::ParenOpen)
        } else if b == 0x29 {
            Some(Symbol::ParenClose)
        } else if b == 0x7B {
            Some(Symbol::BraceOpen)
        } else if b == 0x7D {
            Some(Symbol::BraceClose)
        } else if b == 0x5B {
            Some(Symbol::BracketOpen)
        } else if b == 0x5D {
            Some(Symbol::BracketClose)
        } else {
            None
        }
    }

    /// The symbol as text: one character.
    pub open spec fn text(self) -> Seq<char> {
        match self {
            Symbol::Plus => "+"@,
            Symbol::Minus => "-"@,
            Symbol::Semicolon => ";"@,
            Symbol::Colon => ":"@,
            Symbol::Comma => ","@,
            Symbol::Period => "."@,
            Symbol::Equals => "="@,
            Symbol::ParenOpen => "("@,
            Symbol::ParenClose => ")"@,
            Symbol::BraceOpen => "{"@,
            Symbol::BraceClose => "}"@,
            Symbol::BracketOpen => "["@,
            Symbol::BracketClose => "]"@,
        }
    }

    pub fn to_string(&self) -> (r: &'static str)
        ensures
            r@ == self.text(),
    {
        match self {
            Symbol::Plus => "+",
            Symbol::Minus => "-",
            Symbol::Semicolon => ";",
            Symbol::Colon => ":",
            Symbol::Comma => ",",
            Symbol::Period => ".",
            Symbol::Equals => "=",
            Symbol::ParenOpen => "(",
            Symbol::ParenClose => ")",
            Symbol::BraceOpen => "{",
            Symbol::BraceClose => "}",
            Symbol::BracketOpen => "[",
            Symbol::BracketClose => "]",
        }
    }
}

impl Keyword {
    /// The reserved word as text.
    pub open spec fn text(self) -> Seq<char> {
        match self {
            Keyword::Include => "include"@,
            Keyword::NativeInclude => "native_include"@,
            Keyword::Namespace => "namespace"@,
            Keyword::Attribute => "attribute"@,
            Keyword::Table => "table"@,
            Keyword::Struct => "struct"@,
            Keyword::Enum => "enum"@,
            Keyword::Union => "union"@,
            Keyword::RootType => "root_type"@,
            Keyword::RpcService => "rpc_service"@,
            Keyword::FileExtension => "file_extension"@,
            Keyword::FileIdentifier => "file_identifier"@,
        }
    }

    /// The bytes that spell the reserved word in the input.
    pub open spec fn spelling(self) -> Seq<u8> {
        encode_utf8(self.text())
    }

    pub fn to_string(&self) -> (r: &'static str)
        ensures
            r@ == self.text(),
    {
        match self {
            Keyword::Include => "include",
            Keyword::NativeInclude => "native_include",
            Keyword::Namespace => "namespace",
            Keyword::Attribute => "attribute",
            Keyword::Table => "table",
            Keyword::Struct => "struct",
            Keyword::Enum => "enum",
            Keyword::Union => "union",
            Keyword::RootType => "root_type",
            Keyword::RpcService => "rpc_service",
            Keyword::FileExtension => "file_extension",
            Keyword::FileIdentifier => "file_identifier",
        }
    }
}

} // verus!
