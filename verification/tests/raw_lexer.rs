use planus_lexer::token::{CommentKind, CommentToken, Keyword, Symbol, Token};

#[test]
fn test_raw_lexer() {
    let mut lexer = Token::lexer(
        r#"+-;:,.=%%(){}[]"include namespace
              attribute:table struct enum union
              root_type rpc_service file_extension
              file_identifier foo _foo _foo99 enume
              99 9_9 99_ _99 0x99 0x_99 0x9_9 0x99_
              0x_ 0x99
              .1 1.1 .1e4 1.1e4 1e4
              0x.1p4 0x1.1p4 0x1p4 0x.p2 true false
              // foo
              /// bar

              //! baz
            "#,
    );

    let expected = [
        Token::Symbol(Symbol::Plus),
        Token::Symbol(Symbol::Minus),
        Token::Symbol(Symbol::Semicolon),
        Token::Symbol(Symbol::Colon),
        Token::Symbol(Symbol::Comma),
        Token::Symbol(Symbol::Period),
        Token::Symbol(Symbol::Equals),
        Token::UnexpectedToken,
        Token::UnexpectedToken,
        Token::Symbol(Symbol::ParenOpen),
        Token::Symbol(Symbol::ParenClose),
        Token::Symbol(Symbol::BraceOpen),
        Token::Symbol(Symbol::BraceClose),
        Token::Symbol(Symbol::BracketOpen),
        Token::Symbol(Symbol::BracketClose),
        Token::StringLiteral(String::new()),
        Token::Keyword(Keyword::Include),
        Token::Keyword(Keyword::Namespace),
        Token::Newline,
        Token::Keyword(Keyword::Attribute),
        Token::Symbol(Symbol::Colon),
        Token::Keyword(Keyword::Table),
        Token::Keyword(Keyword::Struct),
        Token::Keyword(Keyword::Enum),
        Token::Keyword(Keyword::Union),
        Token::Newline,
        Token::Keyword(Keyword::RootType),
        Token::Keyword(Keyword::RpcService),
        Token::Keyword(Keyword::FileExtension),
        Token::Newline,
        Token::Keyword(Keyword::FileIdentifier),
        Token::Ident("foo"),
        Token::Ident("_foo"),
        Token::Ident("_foo99"),
        Token::Ident("enume"),
        Token::Newline,
        Token::IntegerLiteral("99"),
        Token::IntegerLiteral("9_9"),
        Token::IntegerLiteral("99_"),
        Token::Ident("_99"),
        Token::IntegerLiteral("0x99"),
        Token::IntegerLiteral("0x_99"),
        Token::IntegerLiteral("0x9_9"),
        Token::IntegerLiteral("0x99_"),
        Token::Newline,
        Token::IntegerLiteral("0x_"),
        Token::IntegerLiteral("0x99"),
        Token::Newline,
        Token::FloatLiteral(".1"),
        Token::FloatLiteral("1.1"),
        Token::FloatLiteral(".1e4"),
        Token::FloatLiteral("1.1e4"),
        Token::FloatLiteral("1e4"),
        Token::Newline,
        Token::FloatLiteral("0x.1p4"),
        Token::FloatLiteral("0x1.1p4"),
        Token::FloatLiteral("0x1p4"),
        Token::IntegerLiteral("0"),
        Token::Ident("x"),
        Token::Symbol(Symbol::Period),
        Token::Ident("p2"),
        Token::Ident("true"),
        Token::Ident("false"),
        Token::Newline,
        Token::Comment(CommentToken {
            kind: CommentKind::Comment,
            content: " foo",
        }),
        Token::Newline,
        Token::Comment(CommentToken {
            kind: CommentKind::OuterDocstring,
            content: " bar",
        }),
        Token::Newline,
        Token::Newline,
        Token::Comment(CommentToken {
            kind: CommentKind::InnerDocstring,
            content: " baz",
        }),
        Token::Newline,
    ];

    for expected in expected.iter() {
        let actual = lexer.next().expect("a token for each expected one");
        println!("{actual:?}");
        assert_eq!(&actual, expected);
    }
    assert_eq!(lexer.next(), None);
}
