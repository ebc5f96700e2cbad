use planus_lexer::render::{describe_comment, describe_labelled};
use planus_lexer::token::{CommentKind, CommentToken, Keyword, Symbol, Token, Whitespace};

#[test]
fn symbols_render_as_their_character() {
    let all = [
        (Symbol::Plus, "+"),
        (Symbol::Minus, "-"),
        (Symbol::Semicolon, ";"),
        (Symbol::Colon, ":"),
        (Symbol::Comma, ","),
        (Symbol::Period, "."),
        (Symbol::Equals, "="),
        (Symbol::ParenOpen, "("),
        (Symbol::ParenClose, ")"),
        (Symbol::BraceOpen, "{"),
        (Symbol::BraceClose, "}"),
        (Symbol::BracketOpen, "["),
        (Symbol::BracketClose, "]"),
    ];
    for (symbol, text) in all.iter() {
        assert_eq!(symbol.to_string(), *text);
        assert_eq!(Symbol::from_byte(text.as_bytes()[0]), Some(*symbol));
    }
    assert_eq!(Symbol::from_byte(b'%'), None);
    assert_eq!(Symbol::from_byte(b'a'), None);
}

#[test]
fn keywords_render_as_their_spelling() {
    let all = [
        (Keyword::Include, "include"),
        (Keyword::NativeInclude, "native_include"),
        (Keyword::Namespace, "namespace"),
        (Keyword::Attribute, "attribute"),
        (Keyword::Table, "table"),
        (Keyword::Struct, "struct"),
        (Keyword::Enum, "enum"),
        (Keyword::Union, "union"),
        (Keyword::RootType, "root_type"),
        (Keyword::RpcService, "rpc_service"),
        (Keyword::FileExtension, "file_extension"),
        (Keyword::FileIdentifier, "file_identifier"),
    ];
    for (keyword, text) in all.iter() {
        assert_eq!(keyword.to_string(), *text);
        let mut lexer = Token::lexer(text);
        assert_eq!(lexer.next(), Some(Token::Keyword(*keyword)));
        assert_eq!(lexer.next(), None);
    }
}

#[test]
fn comment_kinds_render_as_their_prefix() {
    assert_eq!(CommentKind::Comment.to_string(), "//");
    assert_eq!(CommentKind::InnerDocstring.to_string(), "//!");
    assert_eq!(CommentKind::OuterDocstring.to_string(), "///");
}

#[test]
fn tokens_describe_themselves() {
    assert_eq!(Token::Ident("foo").fmt(), "identifier \"foo\"");
    assert_eq!(Token::Symbol(Symbol::BraceOpen).fmt(), "{");
    assert_eq!(Token::Keyword(Keyword::RpcService).fmt(), "rpc_service");
    assert_eq!(
        Token::StringLiteral("a \"b\"\n".to_string()).fmt(),
        "string literal \"a \\\"b\\\"\\n\""
    );
    assert_eq!(Token::IntegerLiteral("0x_99").fmt(), "integer literal \"0x_99\"");
    assert_eq!(Token::FloatLiteral("1.1e4").fmt(), "float literal \"1.1e4\"");
    assert_eq!(
        Token::Comment(CommentToken { kind: CommentKind::OuterDocstring, content: " bar" }).fmt(),
        "comment CommentToken { kind: OuterDocstring, content: \" bar\" }"
    );
    assert_eq!(Token::Newline.fmt(), "newline");
    assert_eq!(Token::UnexpectedToken.fmt(), "unexpected token");
    assert_eq!(Token::EndOfStream.fmt(), "end-of-stream token");
}

#[test]
fn comment_description_matches_the_derived_format() {
    let comment = CommentToken { kind: CommentKind::InnerDocstring, content: " a\tb" };
    assert_eq!(Token::Comment(comment).fmt(), format!("comment {:?}", comment));
    let comment = CommentToken { kind: CommentKind::Comment, content: "" };
    assert_eq!(Token::Comment(comment).fmt(), format!("comment {:?}", comment));
}

#[test]
fn descriptions_are_put_together_from_their_parts() {
    assert_eq!(describe_labelled("identifier", "\"x\""), "identifier \"x\"");
    assert_eq!(describe_labelled("", ""), " ");
    assert_eq!(
        describe_comment(CommentKind::Comment, "<c>"),
        "comment CommentToken { kind: Comment, content: <c> }"
    );
    assert_eq!(
        describe_comment(CommentKind::InnerDocstring, ""),
        "comment CommentToken { kind: InnerDocstring, content:  }"
    );
}

#[test]
fn variant_tests() {
    let tokens = [
        Token::Ident("a"),
        Token::Symbol(Symbol::Plus),
        Token::Keyword(Keyword::Enum),
        Token::StringLiteral(String::new()),
        Token::IntegerLiteral("1"),
        Token::FloatLiteral("1.0"),
        Token::Comment(CommentToken { kind: CommentKind::Comment, content: "" }),
        Token::Newline,
        Token::UnexpectedToken,
        Token::EndOfStream,
    ];
    for (i, token) in tokens.iter().enumerate() {
        let answers = [
            token.is_ident(),
            token.is_symbol(),
            token.is_keyword(),
            token.is_string_literal(),
            token.is_integer_literal(),
            token.is_float_literal(),
            token.is_comment(),
            token.is_newline(),
            token.is_unexpected_token(),
            token.is_end_of_stream(),
        ];
        for (j, answer) in answers.iter().enumerate() {
            assert_eq!(*answer, i == j);
        }
    }
}

#[test]
fn whitespace_records_a_line_break() {
    let a = Whitespace { contains_newline: true };
    let b = a;
    assert_eq!(a, b);
    assert_ne!(a, Whitespace { contains_newline: false });
}
