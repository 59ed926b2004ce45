use sauce::errors::lex::LexError;
use sauce::lexer::{tokenize, Lexer, SpannedToken, Token};
use sauce::util::span::Span;

fn items(src: &str) -> Vec<Result<SpannedToken, LexError>> {
    Lexer::new(src).collect()
}

fn tokens_of(src: &str) -> Vec<Token> {
    tokenize(src).expect("lexing failed").into_iter().map(|t| t.token).collect()
}

fn ok(token: Token, start: usize, end: usize) -> Result<SpannedToken, LexError> {
    Ok(SpannedToken { token, span: Span { start, end } })
}

fn invalid(start: usize, end: usize) -> Result<SpannedToken, LexError> {
    Err(LexError::InvalidToken(Span { start, end }))
}

#[test]
fn empty_source_has_no_tokens() {
    assert_eq!(items(""), vec![]);
    assert_eq!(items(" \t\r\n\x0c"), vec![]);
    assert_eq!(tokenize(""), Ok(vec![]));
}

#[test]
fn every_punctuation_mark_is_a_token() {
    assert_eq!(
        tokens_of("= ( ) { } , ; |>"),
        vec![
            Token::Equals,
            Token::LParen,
            Token::RParen,
            Token::LBrace,
            Token::RBrace,
            Token::Comma,
            Token::Semicolon,
            Token::Pipe,
        ]
    );
}

#[test]
fn tokens_need_no_whitespace_between_them() {
    assert_eq!(
        items("grab x=(1|>y);"),
        vec![
            ok(Token::Grab, 0, 4),
            ok(Token::Ident("x".to_string()), 5, 6),
            ok(Token::Equals, 6, 7),
            ok(Token::LParen, 7, 8),
            ok(Token::Int(1), 8, 9),
            ok(Token::Pipe, 9, 11),
            ok(Token::Ident("y".to_string()), 11, 12),
            ok(Token::RParen, 12, 13),
            ok(Token::Semicolon, 13, 14),
        ]
    );
}

#[test]
fn keywords_are_reserved_only_as_whole_words() {
    assert_eq!(tokens_of("grab yell toss"), vec![Token::Grab, Token::Yell, Token::Toss]);
    assert_eq!(
        tokens_of("grabx yells to toss1 Grab _grab"),
        vec![
            Token::Ident("grabx".to_string()),
            Token::Ident("yells".to_string()),
            Token::Ident("to".to_string()),
            Token::Ident("toss1".to_string()),
            Token::Ident("Grab".to_string()),
            Token::Ident("_grab".to_string()),
        ]
    );
}

#[test]
fn underscore_is_an_identifier() {
    assert_eq!(items("_"), vec![ok(Token::Ident("_".to_string()), 0, 1)]);
    assert_eq!(
        tokens_of("_a1 A_ z9_"),
        vec![
            Token::Ident("_a1".to_string()),
            Token::Ident("A_".to_string()),
            Token::Ident("z9_".to_string()),
        ]
    );
}

#[test]
fn identifiers_take_the_longest_run() {
    assert_eq!(
        items("abc123 12abc"),
        vec![
            ok(Token::Ident("abc123".to_string()), 0, 6),
            ok(Token::Int(12), 7, 9),
            ok(Token::Ident("abc".to_string()), 9, 12),
        ]
    );
}

#[test]
fn integers_have_their_decimal_value() {
    assert_eq!(tokens_of("0"), vec![Token::Int(0)]);
    assert_eq!(tokens_of("007"), vec![Token::Int(7)]);
    assert_eq!(tokens_of("1234567890"), vec![Token::Int(1234567890)]);
    assert_eq!(tokens_of("9223372036854775807"), vec![Token::Int(i64::MAX)]);
    assert_eq!(tokens_of("9223372036854775806"), vec![Token::Int(i64::MAX - 1)]);
    assert_eq!(tokens_of("0009223372036854775807"), vec![Token::Int(i64::MAX)]);
}

#[test]
fn integer_too_large_is_invalid_as_a_whole() {
    assert_eq!(items("9223372036854775808"), vec![invalid(0, 19)]);
    assert_eq!(items("9223372036854775810"), vec![invalid(0, 19)]);
    assert_eq!(items("92233720368547758070"), vec![invalid(0, 20)]);
    assert_eq!(
        items("1 99999999999999999999999 2"),
        vec![ok(Token::Int(1), 0, 1), invalid(2, 25), ok(Token::Int(2), 26, 27)]
    );
}

#[test]
fn string_token_keeps_the_lexeme_as_written() {
    assert_eq!(items("\"sauce\""), vec![ok(Token::String("\"sauce\"".to_string()), 0, 7)]);
    assert_eq!(items("\"\""), vec![ok(Token::String("\"\"".to_string()), 0, 2)]);
    assert_eq!(
        items("\"a b;|>\" x"),
        vec![
            ok(Token::String("\"a b;|>\"".to_string()), 0, 8),
            ok(Token::Ident("x".to_string()), 9, 10),
        ]
    );
}

#[test]
fn string_escape_tab_is_kept() {
    assert_eq!(items("\"a\\tb\""), vec![ok(Token::String("\"a\\tb\"".to_string()), 0, 6)]);
}

#[test]
fn string_escape_newline_is_kept() {
    assert_eq!(items("\"a\\nb\""), vec![ok(Token::String("\"a\\nb\"".to_string()), 0, 6)]);
}

#[test]
fn string_escape_u_is_kept() {
    assert_eq!(items("\"a\\ub\""), vec![ok(Token::String("\"a\\ub\"".to_string()), 0, 6)]);
}

#[test]
fn string_escape_quote_is_kept() {
    assert_eq!(items("\"a\\\"b\""), vec![ok(Token::String("\"a\\\"b\"".to_string()), 0, 6)]);
    assert_eq!(items("\"\\\"\""), vec![ok(Token::String("\"\\\"\"".to_string()), 0, 4)]);
}

#[test]
fn string_may_hold_line_breaks_and_other_scripts() {
    assert_eq!(items("\"a\nb\""), vec![ok(Token::String("\"a\nb\"".to_string()), 0, 5)]);
    // "é" takes two bytes, "日" three.
    assert_eq!(items("\"é日\""), vec![ok(Token::String("\"é日\"".to_string()), 0, 7)]);
}

#[test]
fn unknown_escape_makes_the_quote_invalid() {
    // No string starts at the first quote; the characters behind it are read
    // on their own.
    assert_eq!(
        items("\"a\\qb\""),
        vec![
            invalid(0, 1),
            ok(Token::Ident("a".to_string()), 1, 2),
            invalid(2, 3),
            ok(Token::Ident("qb".to_string()), 3, 5),
            invalid(5, 6),
        ]
    );
    assert_eq!(items("\"\\\\\"")[0], invalid(0, 1));
}

#[test]
fn unterminated_string_makes_the_quote_invalid() {
    assert_eq!(
        items("\"abc"),
        vec![invalid(0, 1), ok(Token::Ident("abc".to_string()), 1, 4)]
    );
    assert_eq!(items("\""), vec![invalid(0, 1)]);
    assert_eq!(items("\"a\\"), vec![invalid(0, 1), ok(Token::Ident("a".to_string()), 1, 2), invalid(2, 3)]);
}

#[test]
fn lone_bar_is_invalid() {
    assert_eq!(items("|"), vec![invalid(0, 1)]);
    assert_eq!(items("| >"), vec![invalid(0, 1), invalid(2, 3)]);
    assert_eq!(items("||>"), vec![invalid(0, 1), ok(Token::Pipe, 1, 3)]);
}

#[test]
fn invalid_character_is_reported_alone_and_scanning_resumes() {
    assert_eq!(
        items("a @# b"),
        vec![
            ok(Token::Ident("a".to_string()), 0, 1),
            invalid(2, 3),
            invalid(3, 4),
            ok(Token::Ident("b".to_string()), 5, 6),
        ]
    );
}

#[test]
fn invalid_character_of_several_bytes_is_covered_whole() {
    // "é" takes two bytes, "日" three, "😀" four.
    assert_eq!(items("é"), vec![invalid(0, 2)]);
    assert_eq!(items("日"), vec![invalid(0, 3)]);
    assert_eq!(items("😀"), vec![invalid(0, 4)]);
    assert_eq!(
        items("xé日y"),
        vec![
            ok(Token::Ident("x".to_string()), 0, 1),
            invalid(1, 3),
            invalid(3, 6),
            ok(Token::Ident("y".to_string()), 6, 7),
        ]
    );
}

#[test]
fn other_whitespace_is_not_skipped() {
    // A vertical tab and a no-break space are no whitespace of the language.
    assert_eq!(items("\x0b"), vec![invalid(0, 1)]);
    assert_eq!(items("\u{a0}"), vec![invalid(0, 2)]);
}

#[test]
fn tokenize_stops_at_the_first_invalid_input() {
    assert_eq!(tokenize("grab @ # x"), Err(LexError::InvalidToken(Span { start: 5, end: 6 })));
    assert_eq!(
        tokenize("x;"),
        Ok(vec![
            SpannedToken { token: Token::Ident("x".to_string()), span: Span { start: 0, end: 1 } },
            SpannedToken { token: Token::Semicolon, span: Span { start: 1, end: 2 } },
        ])
    );
}

#[test]
fn lexer_hands_out_items_one_by_one() {
    let mut lexer = Lexer::new(" yell  7 ");
    assert_eq!(lexer.next(), Some(ok(Token::Yell, 1, 5)));
    assert_eq!(lexer.next(), Some(ok(Token::Int(7), 7, 8)));
    assert_eq!(lexer.next(), None);
    assert_eq!(lexer.next(), None);
}

#[test]
fn collect_after_next_gives_the_rest() {
    let mut lexer = Lexer::new("a b c");
    assert_eq!(lexer.next(), Some(ok(Token::Ident("a".to_string()), 0, 1)));
    assert_eq!(
        lexer.collect(),
        vec![ok(Token::Ident("b".to_string()), 2, 3), ok(Token::Ident("c".to_string()), 4, 5)]
    );
}

#[test]
fn relexing_gives_the_same_items() {
    let src = "grab x = \"a\\tb\" |> yell; @ 99999999999999999999 toss é";
    let first = items(src);
    let second = items(src);
    let third = items(&src.to_string());
    assert_eq!(first, second);
    assert_eq!(first, third);
    assert_eq!(tokenize(src), tokenize(src));
}

#[test]
fn spans_are_separated_by_whitespace_only() {
    let src = "  grab  x=10\t|>\r\n yell ;\x0c \"s t\" @ é 7 ";
    let bytes = src.as_bytes();
    let found = items(src);
    assert_eq!(found.len(), 11);
    let is_space = |b: u8| b == b' ' || b == b'\t' || b == b'\r' || b == b'\n' || b == 0x0c;
    let mut at = 0;
    for item in &found {
        let span = match item {
            Ok(token) => token.span,
            Err(LexError::InvalidToken(span)) => *span,
        };
        assert!(at <= span.start);
        assert!(span.start < span.end);
        assert!(span.end <= bytes.len());
        assert!(bytes[at..span.start].iter().all(|b| is_space(*b)));
        assert!(!is_space(bytes[span.start]));
        at = span.end;
    }
    assert!(bytes[at..].iter().all(|b| is_space(*b)));
}

#[test]
fn each_token_is_the_text_under_its_span() {
    let src = "grab total_1 = 42 |> (toss oops \"b\\n\"); yell{,}";
    for item in items(src) {
        let token = item.expect("every item is a token");
        let text = &src[token.span.start..token.span.end];
        match &token.token {
            Token::Grab => assert_eq!(text, "grab"),
            Token::Yell => assert_eq!(text, "yell"),
            Token::Toss => assert_eq!(text, "toss"),
            Token::Pipe => assert_eq!(text, "|>"),
            Token::Equals => assert_eq!(text, "="),
            Token::Ident(name) => assert_eq!(text, name),
            Token::Int(value) => assert_eq!(text.parse::<i64>().unwrap(), *value),
            Token::String(lexeme) => assert_eq!(text, lexeme),
            Token::LParen => assert_eq!(text, "("),
            Token::RParen => assert_eq!(text, ")"),
            Token::LBrace => assert_eq!(text, "{"),
            Token::RBrace => assert_eq!(text, "}"),
            Token::Comma => assert_eq!(text, ","),
            Token::Semicolon => assert_eq!(text, ";"),
        }
    }
}

#[test]
fn spanned_token_new_keeps_its_parts() {
    let token = SpannedToken::new(Token::Int(3), Span::new(4, 5));
    assert_eq!(token.token, Token::Int(3));
    assert_eq!(token.span, Span { start: 4, end: 5 });
}
