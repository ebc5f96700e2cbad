use planus_lexer::lexer::{LexError, Lexer, Mode, Step};
use planus_lexer::raw::Span;
use planus_lexer::token::{CommentKind, CommentToken, Keyword, Symbol, Token};

fn all_tokens(input: &str) -> Vec<Result<Token<'_>, LexError>> {
    let mut lexer = Lexer::new(input);
    let mut out = Vec::new();
    while let Some(item) = lexer.next_token() {
        out.push(item);
    }
    assert_eq!(lexer.next_token(), None);
    out
}

#[test]
fn empty_input_yields_end_of_stream_once() {
    let mut lexer = Lexer::new("");
    assert_eq!(lexer.next_token(), Some(Ok(Token::EndOfStream)));
    assert_eq!(lexer.next_token(), None);
    assert_eq!(lexer.next_token(), None);
}

#[test]
fn string_literal_is_one_token_without_its_quotes() {
    assert_eq!(
        all_tokens("include \"a b.fbs\";"),
        vec![
            Ok(Token::Keyword(Keyword::Include)),
            Ok(Token::StringLiteral("a b.fbs".to_string())),
            Ok(Token::Symbol(Symbol::Semicolon)),
            Ok(Token::EndOfStream),
        ]
    );
}

#[test]
fn single_quoted_string_literal() {
    assert_eq!(
        all_tokens("'x'"),
        vec![Ok(Token::StringLiteral("x".to_string())), Ok(Token::EndOfStream)]
    );
}

#[test]
fn empty_string_literal() {
    assert_eq!(
        all_tokens("\"\"x"),
        vec![
            Ok(Token::StringLiteral(String::new())),
            Ok(Token::Ident("x")),
            Ok(Token::EndOfStream),
        ]
    );
}

#[test]
fn other_quote_does_not_close_a_string_literal() {
    assert_eq!(
        all_tokens("\"it's\" 'say \"hi\"'"),
        vec![
            Ok(Token::StringLiteral("it's".to_string())),
            Ok(Token::StringLiteral("say \"hi\"".to_string())),
            Ok(Token::EndOfStream),
        ]
    );
}

#[test]
fn mismatched_quotes_run_to_the_end_of_input() {
    assert_eq!(
        all_tokens("\"abc' def"),
        vec![Err(LexError::UnterminatedString), Ok(Token::EndOfStream)]
    );
}

#[test]
fn unterminated_string_literal_is_reported() {
    let mut lexer = Lexer::new("x = \"abc\n1");
    assert_eq!(lexer.next_token(), Some(Ok(Token::Ident("x"))));
    assert_eq!(lexer.next_token(), Some(Ok(Token::Symbol(Symbol::Equals))));
    assert_eq!(lexer.next_token(), Some(Err(LexError::UnterminatedString)));
    assert_eq!(lexer.span(), Span { start: 4, end: 10 });
    assert_eq!(lexer.mode(), Mode::Raw);
    assert_eq!(lexer.next_token(), Some(Ok(Token::EndOfStream)));
    assert_eq!(lexer.next_token(), None);
}

#[test]
fn string_literal_passes_bytes_through() {
    assert_eq!(
        all_tokens("\"a\\n\n// no comment \u{e9}\" b"),
        vec![
            Ok(Token::StringLiteral("a\\n\n// no comment \u{e9}".to_string())),
            Ok(Token::Ident("b")),
            Ok(Token::EndOfStream),
        ]
    );
}

#[test]
fn backslash_does_not_escape_a_quote() {
    assert_eq!(
        all_tokens("\"a\\\"b"),
        vec![
            Ok(Token::StringLiteral("a\\".to_string())),
            Ok(Token::Ident("b")),
            Ok(Token::EndOfStream),
        ]
    );
}

#[test]
fn steps_show_the_two_modes() {
    let mut lexer = Lexer::new(" 'ab' ");
    assert_eq!(lexer.mode(), Mode::Raw);
    assert_eq!(lexer.step(), Step::Opened);
    assert_eq!(lexer.mode(), Mode::StringLiteral(b'\''));
    assert_eq!(lexer.span(), Span { start: 1, end: 2 });
    assert_eq!(lexer.step(), Step::Token(Token::StringLiteral("ab".to_string())));
    assert_eq!(lexer.mode(), Mode::Raw);
    assert_eq!(lexer.span(), Span { start: 1, end: 5 });
    assert_eq!(lexer.step(), Step::Token(Token::EndOfStream));
    assert_eq!(lexer.span(), Span { start: 6, end: 6 });
    assert_eq!(lexer.step(), Step::Finished);
    assert_eq!(lexer.step(), Step::Finished);
}

#[test]
fn next_token_finishes_a_literal_that_a_step_opened() {
    let mut lexer = Lexer::new("\"ab\"c");
    assert_eq!(lexer.step(), Step::Opened);
    assert_eq!(lexer.next_token(), Some(Ok(Token::StringLiteral("ab".to_string()))));
    assert_eq!(lexer.next_token(), Some(Ok(Token::Ident("c"))));
}

#[test]
fn spans_are_byte_positions() {
    let mut lexer = Lexer::new("  table \u{e9}x\r\n//! d");
    assert_eq!(lexer.next_token(), Some(Ok(Token::Keyword(Keyword::Table))));
    assert_eq!(lexer.span(), Span { start: 2, end: 7 });
    assert_eq!(lexer.next_token(), Some(Ok(Token::UnexpectedToken)));
    assert_eq!(lexer.span(), Span { start: 8, end: 9 });
    assert_eq!(lexer.next_token(), Some(Ok(Token::UnexpectedToken)));
    assert_eq!(lexer.span(), Span { start: 9, end: 10 });
    assert_eq!(lexer.next_token(), Some(Ok(Token::Ident("x"))));
    assert_eq!(lexer.span(), Span { start: 10, end: 11 });
    assert_eq!(lexer.next_token(), Some(Ok(Token::Newline)));
    assert_eq!(lexer.span(), Span { start: 11, end: 13 });
    assert_eq!(
        lexer.next_token(),
        Some(Ok(Token::Comment(CommentToken {
            kind: CommentKind::InnerDocstring,
            content: " d",
        })))
    );
    assert_eq!(lexer.span(), Span { start: 13, end: 18 });
    assert_eq!(lexer.next_token(), Some(Ok(Token::EndOfStream)));
    assert_eq!(lexer.span(), Span { start: 18, end: 18 });
}

#[test]
fn enume_is_an_identifier() {
    assert_eq!(
        all_tokens("enume enum enu"),
        vec![
            Ok(Token::Ident("enume")),
            Ok(Token::Keyword(Keyword::Enum)),
            Ok(Token::Ident("enu")),
            Ok(Token::EndOfStream),
        ]
    );
}

#[test]
fn keywords_are_case_sensitive() {
    assert_eq!(
        all_tokens("Table STRUCT native_include"),
        vec![
            Ok(Token::Ident("Table")),
            Ok(Token::Ident("STRUCT")),
            Ok(Token::Keyword(Keyword::NativeInclude)),
            Ok(Token::EndOfStream),
        ]
    );
}

#[test]
fn bare_hex_prefix_falls_back_to_zero() {
    assert_eq!(
        all_tokens("0x.p2"),
        vec![
            Ok(Token::IntegerLiteral("0")),
            Ok(Token::Ident("x")),
            Ok(Token::Symbol(Symbol::Period)),
            Ok(Token::Ident("p2")),
            Ok(Token::EndOfStream),
        ]
    );
}

#[test]
fn malformed_integers_are_kept_verbatim() {
    assert_eq!(
        all_tokens("0x99_ 99_ 0x_99"),
        vec![
            Ok(Token::IntegerLiteral("0x99_")),
            Ok(Token::IntegerLiteral("99_")),
            Ok(Token::IntegerLiteral("0x_99")),
            Ok(Token::EndOfStream),
        ]
    );
}

#[test]
fn blank_line_between_comments_gives_two_newlines() {
    assert_eq!(
        all_tokens("// a\n\n// b"),
        vec![
            Ok(Token::Comment(CommentToken { kind: CommentKind::Comment, content: " a" })),
            Ok(Token::Newline),
            Ok(Token::Newline),
            Ok(Token::Comment(CommentToken { kind: CommentKind::Comment, content: " b" })),
            Ok(Token::EndOfStream),
        ]
    );
}

#[test]
fn blank_line_between_comments_with_carriage_returns() {
    assert_eq!(
        all_tokens("// a\r\n\r\n// b"),
        vec![
            Ok(Token::Comment(CommentToken { kind: CommentKind::Comment, content: " a" })),
            Ok(Token::Newline),
            Ok(Token::Newline),
            Ok(Token::Comment(CommentToken { kind: CommentKind::Comment, content: " b" })),
            Ok(Token::EndOfStream),
        ]
    );
    let input = "//! a\r\n\n/// b\r\n";
    let mut lexer = Lexer::new(input);
    let mut lines = Vec::new();
    while let Some(item) = lexer.next_token() {
        if let Ok(Token::Comment(c)) = item {
            lines.push(format!("{}{}", c.kind.to_string(), c.content));
        }
    }
    assert_eq!(lines, vec!["//! a".to_string(), "/// b".to_string()]);
}

#[test]
fn comment_kinds_by_prefix() {
    assert_eq!(
        all_tokens("// foo"),
        vec![
            Ok(Token::Comment(CommentToken { kind: CommentKind::Comment, content: " foo" })),
            Ok(Token::EndOfStream),
        ]
    );
    assert_eq!(
        all_tokens("/// bar"),
        vec![
            Ok(Token::Comment(CommentToken { kind: CommentKind::OuterDocstring, content: " bar" })),
            Ok(Token::EndOfStream),
        ]
    );
    assert_eq!(
        all_tokens("//! baz"),
        vec![
            Ok(Token::Comment(CommentToken { kind: CommentKind::InnerDocstring, content: " baz" })),
            Ok(Token::EndOfStream),
        ]
    );
    assert_eq!(
        all_tokens("////"),
        vec![
            Ok(Token::Comment(CommentToken { kind: CommentKind::OuterDocstring, content: "/" })),
            Ok(Token::EndOfStream),
        ]
    );
    assert_eq!(
        all_tokens("//"),
        vec![
            Ok(Token::Comment(CommentToken { kind: CommentKind::Comment, content: "" })),
            Ok(Token::EndOfStream),
        ]
    );
}

#[test]
fn only_white_space_and_line_breaks() {
    assert_eq!(
        all_tokens(" \t\n\x0c \r\n\n  "),
        vec![Ok(Token::Newline), Ok(Token::Newline), Ok(Token::Newline), Ok(Token::EndOfStream)]
    );
    assert_eq!(all_tokens(" \t "), vec![Ok(Token::EndOfStream)]);
}

#[test]
fn lone_carriage_return_is_unexpected() {
    assert_eq!(
        all_tokens("a\rb"),
        vec![
            Ok(Token::Ident("a")),
            Ok(Token::UnexpectedToken),
            Ok(Token::Ident("b")),
            Ok(Token::EndOfStream),
        ]
    );
}

#[test]
fn slash_alone_is_unexpected() {
    assert_eq!(
        all_tokens("/ /"),
        vec![Ok(Token::UnexpectedToken), Ok(Token::UnexpectedToken), Ok(Token::EndOfStream)]
    );
}

#[test]
fn spans_and_gaps_rebuild_the_input() {
    let input = "table T { a: [ubyte] = 0x1p-3; } // c\r\nx 'lit' \u{e9} \"open";
    let mut lexer = Lexer::new(input);
    let mut rebuilt: Vec<u8> = Vec::new();
    let mut cursor = 0;
    while lexer.next_token().is_some() {
        let span = lexer.span();
        assert!(cursor <= span.start && span.start <= span.end);
        let gap = &input.as_bytes()[cursor..span.start];
        assert!(gap.iter().all(|b| *b == b' ' || *b == b'\t' || *b == 0x0c));
        rebuilt.extend_from_slice(gap);
        rebuilt.extend_from_slice(&input.as_bytes()[span.start..span.end]);
        cursor = span.end;
    }
    assert_eq!(rebuilt, input.as_bytes());
}
