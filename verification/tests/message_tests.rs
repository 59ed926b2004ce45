use sauce::errors::lex::LexError;
use sauce::errors::parse::ParseError;
use sauce::interpreter::error::RuntimeError;
use sauce::typechecker::errors::TypeError;
use sauce::util::span::Span;
use sauce::util::text::{push_decimal, str_eq, substring};

#[test]
fn span_length_is_end_minus_start() {
    assert_eq!(Span::new(3, 10).len(), 7);
    assert_eq!(Span::new(4, 4).len(), 0);
    assert_eq!(Span::new(0, usize::MAX).len(), usize::MAX);
}

#[test]
fn span_is_empty_when_it_covers_nothing() {
    assert!(Span::new(4, 4).is_empty());
    assert!(Span::new(0, 0).is_empty());
    assert!(!Span::new(4, 5).is_empty());
}

#[test]
fn span_union_is_the_smallest_cover() {
    assert_eq!(Span::new(2, 5).union(Span::new(7, 9)), Span { start: 2, end: 9 });
    assert_eq!(Span::new(7, 9).union(Span::new(2, 5)), Span { start: 2, end: 9 });
    assert_eq!(Span::new(2, 9).union(Span::new(4, 5)), Span { start: 2, end: 9 });
    assert_eq!(Span::new(2, 6).union(Span::new(4, 8)), Span { start: 2, end: 8 });
    assert_eq!(Span::new(3, 3).union(Span::new(3, 3)), Span { start: 3, end: 3 });
}

#[test]
fn span_is_written_with_both_ends() {
    let mut text = "at ".to_string();
    Span::new(5, 16).write_to(&mut text);
    assert_eq!(text, "at Span { start: 5, end: 16 }");
    assert_eq!(text, format!("at {:?}", Span::new(5, 16)));
}

#[test]
fn decimal_numeral_has_no_leading_zeros() {
    for (n, expected) in [
        (0usize, "0"),
        (7, "7"),
        (9, "9"),
        (10, "10"),
        (11, "11"),
        (99, "99"),
        (100, "100"),
        (1234567890, "1234567890"),
    ] {
        let mut text = String::new();
        push_decimal(&mut text, n);
        assert_eq!(text, expected);
    }
    let mut text = "n=".to_string();
    push_decimal(&mut text, usize::MAX);
    assert_eq!(text, format!("n={}", usize::MAX));
}

#[test]
fn strings_are_equal_when_their_characters_are() {
    assert!(str_eq("", ""));
    assert!(str_eq("abc", "abc"));
    assert!(str_eq("é日", "é日"));
    assert!(!str_eq("abc", "abd"));
    assert!(!str_eq("abc", "ab"));
    assert!(!str_eq("", "a"));
    assert!(!str_eq("e", "é"));
}

#[test]
fn substring_is_the_text_between_two_offsets() {
    assert_eq!(substring("grab x", 0, 4), "grab");
    assert_eq!(substring("grab x", 5, 6), "x");
    assert_eq!(substring("grab x", 3, 3), "");
    assert_eq!(substring("aé日b", 1, 6), "é日");
    assert_eq!(substring("aé日b", 0, 7), "aé日b");
}

#[test]
fn lex_error_message() {
    assert_eq!(
        LexError::InvalidToken(Span::new(5, 6)).message(),
        "invalid token at Span { start: 5, end: 6 }"
    );
}

#[test]
fn parse_error_messages() {
    assert_eq!(
        ParseError::UnexpectedToken(Span::new(0, 12)).message(),
        "unexpected token at Span { start: 0, end: 12 }"
    );
    assert_eq!(
        ParseError::Incomplete(Span::new(13, 13)).message(),
        "Incomplete input at Span { start: 13, end: 13 }"
    );
    assert_eq!(ParseError::Generic("oh no".to_string()).message(), "generic parse error: oh no");
}

#[test]
fn type_error_messages() {
    assert_eq!(
        TypeError::UnknownIdent(Span::new(1, 2), "x".to_string()).message(),
        "unknown identifier `x` at Span { start: 1, end: 2 }"
    );
    assert_eq!(
        TypeError::Mismatch(Span::new(3, 40), "Int".to_string(), "String".to_string()).message(),
        "type mismatch at Span { start: 3, end: 40 }: expected Int, found String"
    );
    assert_eq!(
        TypeError::InvalidPipeline(Span::new(0, 0)).message(),
        "invalid pipeline at Span { start: 0, end: 0 }: right side must be callable"
    );
    assert_eq!(
        TypeError::Generic("unknown identifier `x`".to_string()).message(),
        "generic type error: unknown identifier `x`"
    );
}

#[test]
fn runtime_error_messages() {
    assert_eq!(
        RuntimeError::UnknownVariable("x".to_string()).message(),
        "unknown variable `x`"
    );
    assert_eq!(
        RuntimeError::UnhandledEffect("oops".to_string()).message(),
        "effect `oops` was not handled"
    );
}
