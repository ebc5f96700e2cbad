use planus_lexer::classes::{scan_run, Class};
use planus_lexer::raw::{raw_token_at, Span};
use planus_lexer::rules::Rule;
use planus_lexer::scan::{
    classify, scan_comment, scan_decimal_float, scan_decimal_integer, scan_exponent,
    scan_hex_float, scan_hex_integer, scan_identifier, scan_keyword, scan_line, scan_mantissa,
    scan_newline, starts_with_at,
};
use planus_lexer::text::slice_of;
use planus_lexer::token::{CommentKind, CommentToken, Keyword, Symbol, Token};

fn raw_tokens(input: &str) -> Vec<Token<'_>> {
    let mut lexer = Token::lexer(input);
    let mut out = Vec::new();
    while let Some(token) = lexer.next() {
        out.push(token);
    }
    out
}

#[test]
fn classes_hold_their_bytes() {
    for b in 0..=255u8 {
        let c = b as char;
        assert_eq!(Class::Digit.has(b), c.is_ascii_digit());
        assert_eq!(Class::DigitOrUnderscore.has(b), c.is_ascii_digit() || c == '_');
        assert_eq!(Class::HexDigit.has(b), c.is_ascii_hexdigit());
        assert_eq!(Class::HexDigitOrUnderscore.has(b), c.is_ascii_hexdigit() || c == '_');
        assert_eq!(Class::Word.has(b), c.is_ascii_alphanumeric() || c == '_');
        assert_eq!(Class::Blank.has(b), b == b' ' || b == b'\t' || b == 0x0c);
        assert_eq!(Class::Except(b'\n').has(b), b != b'\n');
        assert_eq!(Class::Except(b).has(b), false);
    }
}

#[test]
fn runs_end_at_the_first_byte_outside_the_class() {
    assert_eq!(scan_run(b"123abc", Class::Digit, 0), 3);
    assert_eq!(scan_run(b"123abc", Class::Digit, 3), 3);
    assert_eq!(scan_run(b"123abc", Class::Word, 1), 6);
    assert_eq!(scan_run(b"123abc", Class::Word, 6), 6);
    assert_eq!(scan_run(b"", Class::Word, 0), 0);
    assert_eq!(scan_run(b" \t\x0c\r", Class::Blank, 0), 3);
    assert_eq!(scan_run(b"ab\ncd", Class::Except(b'\n'), 0), 2);
}

#[test]
fn prefix_test_stays_within_the_text() {
    assert!(starts_with_at(b"table", 0, b"table"));
    assert!(starts_with_at(b"a table", 2, b"tab"));
    assert!(starts_with_at(b"abc", 3, b""));
    assert!(!starts_with_at(b"tabl", 0, b"table"));
    assert!(!starts_with_at(b"tible", 0, b"table"));
    assert!(!starts_with_at(b"table", 1, b"table"));
}

#[test]
fn keyword_is_found_by_its_spelling() {
    assert_eq!(scan_keyword(b"enum", 0), Some(Keyword::Enum));
    assert_eq!(scan_keyword(b"enume", 0), Some(Keyword::Enum));
    assert_eq!(scan_keyword(b"native_include", 0), Some(Keyword::NativeInclude));
    assert_eq!(scan_keyword(b"native_include", 7), Some(Keyword::Include));
    assert_eq!(scan_keyword(b"file_ident", 0), None);
    assert_eq!(scan_keyword(b"Enum", 0), None);
    assert_eq!(scan_keyword(b"", 0), None);
}

#[test]
fn exponent_needs_a_digit() {
    assert_eq!(scan_exponent(b"e4", 0, b'e', b'E'), 2);
    assert_eq!(scan_exponent(b"E-12x", 0, b'e', b'E'), 4);
    assert_eq!(scan_exponent(b"e+7", 0, b'e', b'E'), 3);
    assert_eq!(scan_exponent(b"e", 0, b'e', b'E'), 0);
    assert_eq!(scan_exponent(b"e+", 0, b'e', b'E'), 0);
    assert_eq!(scan_exponent(b"e+-1", 0, b'e', b'E'), 0);
    assert_eq!(scan_exponent(b"p3", 0, b'e', b'E'), 0);
    assert_eq!(scan_exponent(b"1p3", 1, b'p', b'P'), 3);
    assert_eq!(scan_exponent(b"1p3", 3, b'p', b'P'), 3);
}

#[test]
fn mantissa_needs_a_digit() {
    assert_eq!(scan_mantissa(b"1.5", 0, Class::Digit, false), 3);
    assert_eq!(scan_mantissa(b"1.", 0, Class::Digit, false), 2);
    assert_eq!(scan_mantissa(b".5", 0, Class::Digit, false), 2);
    assert_eq!(scan_mantissa(b".", 0, Class::Digit, false), 0);
    assert_eq!(scan_mantissa(b"15", 0, Class::Digit, false), 0);
    assert_eq!(scan_mantissa(b"15", 0, Class::Digit, true), 2);
    assert_eq!(scan_mantissa(b"", 0, Class::Digit, true), 0);
    assert_eq!(scan_mantissa(b"a.Fp", 0, Class::HexDigit, true), 3);
    assert_eq!(scan_mantissa(b"1.2.3", 0, Class::Digit, false), 3);
}

#[test]
fn each_rule_finds_its_longest_match() {
    assert_eq!(scan_identifier(b"_a9-b", 0), 3);
    assert_eq!(scan_identifier(b"9a", 0), 0);
    assert_eq!(scan_decimal_integer(b"9_9_ ", 0), 4);
    assert_eq!(scan_decimal_integer(b"_9", 0), 0);
    assert_eq!(scan_hex_integer(b"0x_fF9g", 0), 6);
    assert_eq!(scan_hex_integer(b"0x", 0), 0);
    assert_eq!(scan_hex_integer(b"0X1", 0), 0);
    assert_eq!(scan_decimal_float(b"1.1e4", 0), 5);
    assert_eq!(scan_decimal_float(b"1.1e", 0), 3);
    assert_eq!(scan_decimal_float(b"1e4", 0), 3);
    assert_eq!(scan_decimal_float(b"1e", 0), 0);
    assert_eq!(scan_decimal_float(b"1", 0), 0);
    assert_eq!(scan_decimal_float(b".e4", 0), 0);
    assert_eq!(scan_hex_float(b"0x1p4", 0), 5);
    assert_eq!(scan_hex_float(b"0X.8P-2", 0), 7);
    assert_eq!(scan_hex_float(b"0x1.p+1", 0), 7);
    assert_eq!(scan_hex_float(b"0x1.8", 0), 0);
    assert_eq!(scan_hex_float(b"0xp1", 0), 0);
    assert_eq!(scan_hex_float(b"0x.p1", 0), 0);
    assert_eq!(scan_comment(b"//! x\ny", 0, b"!"), 5);
    assert_eq!(scan_comment(b"//! x\ny", 0, b"/"), 0);
    assert_eq!(scan_comment(b"//! x\ny", 0, b""), 5);
    assert_eq!(scan_comment(b"/", 0, b""), 0);
    assert_eq!(scan_newline(b"\r\n", 0), 2);
    assert_eq!(scan_newline(b"\n\r", 0), 1);
    assert_eq!(scan_newline(b"\r", 0), 0);
    assert_eq!(Rule::Symbol.scan(b"{}", 1), 2);
    assert_eq!(Rule::Symbol.scan(b"%", 0), 0);
    assert_eq!(Rule::Keyword.scan(b"rpc_service", 0), 11);
    assert_eq!(Rule::Quote.scan(b"'", 0), 1);
    assert_eq!(Rule::Quote.scan(b"`", 0), 0);
    assert_eq!(Rule::OuterDocstring.scan(b"///", 0), 3);
    assert_eq!(Rule::InnerDocstring.scan(b"///", 0), 0);
    assert_eq!(Rule::Comment.scan(b"///", 0), 3);
}

#[test]
fn longest_match_wins_and_then_the_first_rule() {
    assert_eq!(classify(b"enum", 0), Some((Rule::Keyword, 4)));
    assert_eq!(classify(b"enum_", 0), Some((Rule::Identifier, 5)));
    assert_eq!(classify(b"0x1p4", 0), Some((Rule::HexFloat, 5)));
    assert_eq!(classify(b"0x1p", 0), Some((Rule::HexInteger, 3)));
    assert_eq!(classify(b"0X1", 0), Some((Rule::DecimalInteger, 1)));
    assert_eq!(classify(b"1e4", 0), Some((Rule::DecimalFloat, 3)));
    assert_eq!(classify(b"1e", 0), Some((Rule::DecimalInteger, 1)));
    assert_eq!(classify(b".5", 0), Some((Rule::DecimalFloat, 2)));
    assert_eq!(classify(b".x", 0), Some((Rule::Symbol, 1)));
    assert_eq!(classify(b"/// a", 0), Some((Rule::OuterDocstring, 5)));
    assert_eq!(classify(b"//! a", 0), Some((Rule::InnerDocstring, 5)));
    assert_eq!(classify(b"// a", 0), Some((Rule::Comment, 4)));
    assert_eq!(classify(b"\r\n", 0), Some((Rule::Newline, 2)));
    assert_eq!(classify(b"\"", 0), Some((Rule::Quote, 1)));
    assert_eq!(classify(b"%", 0), None);
    assert_eq!(classify(b" x", 0), None);
    assert_eq!(classify(b"x", 1), None);
}

#[test]
fn floats_at_the_edges() {
    assert_eq!(raw_tokens("1."), vec![Token::FloatLiteral("1.")]);
    assert_eq!(raw_tokens("1.e5"), vec![Token::FloatLiteral("1.e5")]);
    assert_eq!(
        raw_tokens(".e5"),
        vec![Token::Symbol(Symbol::Period), Token::Ident("e5")]
    );
    assert_eq!(raw_tokens("1e"), vec![Token::IntegerLiteral("1"), Token::Ident("e")]);
    assert_eq!(
        raw_tokens("1e+"),
        vec![Token::IntegerLiteral("1"), Token::Ident("e"), Token::Symbol(Symbol::Plus)]
    );
    assert_eq!(raw_tokens("1E-5"), vec![Token::FloatLiteral("1E-5")]);
    assert_eq!(raw_tokens("0X1P-2"), vec![Token::FloatLiteral("0X1P-2")]);
    assert_eq!(raw_tokens("0x1.p4"), vec![Token::FloatLiteral("0x1.p4")]);
    assert_eq!(raw_tokens("0x1p"), vec![Token::IntegerLiteral("0x1"), Token::Ident("p")]);
    assert_eq!(
        raw_tokens("1..2"),
        vec![Token::FloatLiteral("1."), Token::FloatLiteral(".2")]
    );
    assert_eq!(
        raw_tokens("1.2.3"),
        vec![Token::FloatLiteral("1.2"), Token::FloatLiteral(".3")]
    );
    assert_eq!(
        raw_tokens("0x1.8"),
        vec![Token::IntegerLiteral("0x1"), Token::FloatLiteral(".8")]
    );
    assert_eq!(
        raw_tokens("1_000.5"),
        vec![Token::IntegerLiteral("1_000"), Token::FloatLiteral(".5")]
    );
    assert_eq!(raw_tokens("0x_p1"), vec![Token::IntegerLiteral("0x_"), Token::Ident("p1")]);
    assert_eq!(raw_tokens("0X99"), vec![Token::IntegerLiteral("0"), Token::Ident("X99")]);
    assert_eq!(
        raw_tokens("-1.5e-3"),
        vec![Token::Symbol(Symbol::Minus), Token::FloatLiteral("1.5e-3")]
    );
}

#[test]
fn raw_token_and_its_place() {
    assert_eq!(
        raw_token_at("  foo bar", 0),
        Some((Token::Ident("foo"), Span { start: 2, end: 5 }))
    );
    assert_eq!(
        raw_token_at("  foo bar", 5),
        Some((Token::Ident("bar"), Span { start: 6, end: 9 }))
    );
    assert_eq!(raw_token_at("  foo bar", 9), None);
    assert_eq!(raw_token_at(" \t ", 0), None);
    assert_eq!(
        raw_token_at("\"abc\"", 0),
        Some((Token::StringLiteral(String::new()), Span { start: 0, end: 1 }))
    );
    assert_eq!(
        raw_token_at("\u{20ac}", 1),
        Some((Token::UnexpectedToken, Span { start: 1, end: 2 }))
    );
}

#[test]
fn raw_stream_keeps_its_place() {
    let mut lexer = Token::lexer(" a\u{e9}= ");
    assert_eq!(lexer.span(), Span { start: 0, end: 0 });
    assert_eq!(lexer.next(), Some(Token::Ident("a")));
    assert_eq!(lexer.span(), Span { start: 1, end: 2 });
    assert_eq!(lexer.next(), Some(Token::UnexpectedToken));
    assert_eq!(lexer.span(), Span { start: 2, end: 3 });
    assert_eq!(lexer.next(), Some(Token::UnexpectedToken));
    assert_eq!(lexer.span(), Span { start: 3, end: 4 });
    assert_eq!(lexer.next(), Some(Token::Symbol(Symbol::Equals)));
    assert_eq!(lexer.span(), Span { start: 4, end: 5 });
    assert_eq!(lexer.next(), None);
    assert_eq!(lexer.span(), Span { start: 6, end: 6 });
    assert_eq!(lexer.next(), None);
}

#[test]
fn text_is_cut_at_byte_positions() {
    let text = "a\u{e9}b \u{20ac}";
    assert_eq!(slice_of(text, 0, 1), "a");
    assert_eq!(slice_of(text, 1, 4), "\u{e9}b");
    assert_eq!(slice_of(text, 4, 5), " ");
    assert_eq!(slice_of(text, 5, 8), "\u{20ac}");
    assert_eq!(slice_of(text, 0, 8), text);
    assert_eq!(slice_of(text, 8, 8), "");
    assert_eq!(slice_of(text, 0, 0), "");
}

#[test]
fn comment_ends_before_the_line_break() {
    assert_eq!(
        raw_tokens("// foo\r\n"),
        vec![
            Token::Comment(CommentToken { kind: CommentKind::Comment, content: " foo" }),
            Token::Newline,
        ]
    );
    assert_eq!(
        raw_tokens("/// a\r\nb"),
        vec![
            Token::Comment(CommentToken { kind: CommentKind::OuterDocstring, content: " a" }),
            Token::Newline,
            Token::Ident("b"),
        ]
    );
    assert_eq!(
        raw_tokens("//\r\n//!\r\n"),
        vec![
            Token::Comment(CommentToken { kind: CommentKind::Comment, content: "" }),
            Token::Newline,
            Token::Comment(CommentToken { kind: CommentKind::InnerDocstring, content: "" }),
            Token::Newline,
        ]
    );
}

#[test]
fn line_break_after_a_comment_spans_both_bytes() {
    let mut lexer = Token::lexer("// foo\r\nx");
    assert_eq!(
        lexer.next(),
        Some(Token::Comment(CommentToken { kind: CommentKind::Comment, content: " foo" }))
    );
    assert_eq!(lexer.span(), Span { start: 0, end: 6 });
    assert_eq!(lexer.next(), Some(Token::Newline));
    assert_eq!(lexer.span(), Span { start: 6, end: 8 });
    assert_eq!(lexer.next(), Some(Token::Ident("x")));
    assert_eq!(lexer.span(), Span { start: 8, end: 9 });
}

#[test]
fn carriage_return_without_a_line_feed_stays_in_the_comment() {
    assert_eq!(
        raw_tokens("// a\rb\n"),
        vec![
            Token::Comment(CommentToken { kind: CommentKind::Comment, content: " a\rb" }),
            Token::Newline,
        ]
    );
    assert_eq!(
        raw_tokens("// a\r"),
        vec![Token::Comment(CommentToken { kind: CommentKind::Comment, content: " a\r" })]
    );
    assert_eq!(
        raw_tokens("// a\r\r\n"),
        vec![
            Token::Comment(CommentToken { kind: CommentKind::Comment, content: " a\r" }),
            Token::Newline,
        ]
    );
}

#[test]
fn lines_end_where_a_line_break_starts() {
    assert_eq!(scan_line(b"ab\ncd", 0), 2);
    assert_eq!(scan_line(b"ab\r\ncd", 0), 2);
    assert_eq!(scan_line(b"ab\r\ncd", 2), 2);
    assert_eq!(scan_line(b"ab\r\ncd", 3), 3);
    assert_eq!(scan_line(b"ab\r\ncd", 4), 6);
    assert_eq!(scan_line(b"ab\rcd", 0), 5);
    assert_eq!(scan_line(b"ab\r", 0), 3);
    assert_eq!(scan_line(b"\r\r\n", 0), 1);
    assert_eq!(scan_line(b"", 0), 0);
    assert_eq!(scan_comment(b"// a\r\nb", 0, b""), 4);
    assert_eq!(scan_comment(b"///\r\n", 0, b"/"), 3);
    assert_eq!(scan_comment(b"//\r\n", 0, b""), 2);
    assert_eq!(scan_comment(b"// a\rb", 0, b""), 6);
}

#[test]
fn text_is_cut_between_any_two_characters() {
    let text = "\u{e9}\u{20ac}\u{e9}";
    assert_eq!(slice_of(text, 2, 5), "\u{20ac}");
    assert_eq!(slice_of(text, 0, 2), "\u{e9}");
    assert_eq!(slice_of(text, 5, 7), "\u{e9}");
    assert_eq!(slice_of(text, 2, 2), "");
}
