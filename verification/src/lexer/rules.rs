//! The lexical rules, stated over the UTF-8 bytes of the source.
//!
//! Whitespace is `[ \t\r\n\f]+` and separates tokens without being one.
//! An identifier is `[a-zA-Z_][a-zA-Z0-9_]*`, unless it spells one of the
//! keywords `grab`, `yell`, `toss`. An integer is `[0-9]+` and must fit an
//! `i64`. A string is `"([^"\\]|\\t|\\u|\\n|\\")*"`; its token keeps the
//! lexeme as written, quotes and escapes included. Each rule takes the
//! longest run that matches. A character at which no rule matches is
//! reported as invalid, alone, and scanning goes on behind it; an integer
//! too large for an `i64` is reported as invalid as a whole.

use crate::errors::lex::LexError;
use crate::lexer::lexer::SpannedTokenView;
use crate::lexer::token::TokenView;
use crate::util::span::Span;
use vstd::prelude::*;
use vstd::utf8::{decode_utf8, is_continuation_byte};

verus! {

pub const TAB: u8 = 0x09;

pub const LINE_FEED: u8 = 0x0a;

pub const FORM_FEED: u8 = 0x0c;

pub const CARRIAGE_RETURN: u8 = 0x0d;

pub const BLANK: u8 = 0x20;

pub const QUOTE: u8 = 0x22;

pub const LEFT_PAREN: u8 = 0x28;

pub const RIGHT_PAREN: u8 = 0x29;

pub const COMMA: u8 = 0x2c;

pub const DIGIT_ZERO: u8 = 0x30;

pub const DIGIT_NINE: u8 = 0x39;

pub const SEMICOLON: u8 = 0x3b;

pub const EQUALS_SIGN: u8 = 0x3d;

pub const GREATER_THAN: u8 = 0x3e;

pub const UPPER_A: u8 = 0x41;

pub const UPPER_Z: u8 = 0x5a;

pub const BACKSLASH: u8 = 0x5c;

pub const UNDERSCORE: u8 = 0x5f;

pub const LOWER_A: u8 = 0x61;

pub const LOWER_N: u8 = 0x6e;

pub const LOWER_T: u8 = 0x74;

pub const LOWER_U: u8 = 0x75;

pub const LOWER_Z: u8 = 0x7a;

pub const LEFT_BRACE: u8 = 0x7b;

pub const VERTICAL_BAR: u8 = 0x7c;

pub const RIGHT_BRACE: u8 = 0x7d;

/// The classes of bytes of which the rules take runs.
#[derive(Debug, Clone, Copy, PartialEq, Eq, Structural)]
pub enum ByteClass {
    /// `[ \t\r\n\f]`
    Space,
    /// `[a-zA-Z0-9_]`
    IdentContinue,
    /// `[0-9]`
    Digit,
    /// A byte that continues a multi-byte character.
    Continuation,
}

pub open spec fn is_space(b: u8) -> bool {
    b == BLANK || b == TAB || b == CARRIAGE_RETURN || b == LINE_FEED || b == FORM_FEED
}

pub open spec fn is_digit(b: u8) -> bool {
    DIGIT_ZERO <= b <= DIGIT_NINE
}

pub open spec fn is_ident_start(b: u8) -> bool {
    (LOWER_A <= b <= LOWER_Z) || (UPPER_A <= b <= UPPER_Z) || b == UNDERSCORE
}

pub open spec fn is_ident_continue(b: u8) -> bool {
    is_ident_start(b) || is_digit(b)
}

pub open spec fn in_class(class: ByteClass, b: u8) -> bool {
    match class {
        ByteClass::Space => is_space(b),
        ByteClass::IdentContinue => is_ident_continue(b),
        ByteClass::Digit => is_digit(b),
        ByteClass::Continuation => is_continuation_byte(b),
    }
}

/// The end of the longest run of bytes of `class` that starts at `pos`.
pub open spec fn run_end(bytes: Seq<u8>, pos: int, class: ByteClass) -> int
    decreases bytes.len() - pos,
{
    if 0 <= pos < bytes.len() && in_class(class, bytes[pos]) {
        run_end(bytes, pos + 1, class)
    } else {
        pos
    }
}

/// The letters that may follow a backslash inside a string.
pub open spec fn is_escape_letter(b: u8) -> bool {
    b == LOWER_T || b == LOWER_U || b == LOWER_N || b == QUOTE
}

/// The end of the string whose opening quote stands just before `pos`: the
/// position behind the first quote that no backslash escapes. There is none
/// when the input ends first or a backslash is followed by anything but an
/// escape letter.
pub open spec fn string_end(bytes: Seq<u8>, pos: int) -> Option<int>
    decreases bytes.len() - pos,
{
    if pos < 0 || pos >= bytes.len() {
        None
    } else if bytes[pos] == QUOTE {
        Some(pos + 1)
    } else if bytes[pos] == BACKSLASH {
        if pos + 1 < bytes.len() && is_escape_letter(bytes[pos + 1]) {
            string_end(bytes, pos + 2)
        } else {
            None
        }
    } else {
        string_end(bytes, pos + 1)
    }
}

/// The number a run of decimal digits denotes.
pub open spec fn decimal_value(digits: Seq<u8>) -> nat
    decreases digits.len(),
{
    if digits.len() == 0 {
        0
    } else {
        decimal_value(digits.drop_last()) * 10 + (digits.last() - DIGIT_ZERO) as nat
    }
}

/// The bytes of `grab`.
pub open spec fn grab_text() -> Seq<u8> {
    seq![0x67u8, 0x72u8, 0x61u8, 0x62u8]
}

/// The bytes of `yell`.
pub open spec fn yell_text() -> Seq<u8> {
    seq![0x79u8, 0x65u8, 0x6cu8, 0x6cu8]
}

/// The bytes of `toss`.
pub open spec fn toss_text() -> Seq<u8> {
    seq![0x74u8, 0x6fu8, 0x73u8, 0x73u8]
}

/// The token a word stands for: a keyword where it spells one, an
/// identifier otherwise.
pub open spec fn word_token(word: Seq<u8>) -> TokenView {
    if word == grab_text() {
        TokenView::Grab
    } else if word == yell_text() {
        TokenView::Yell
    } else if word == toss_text() {
        TokenView::Toss
    } else {
        TokenView::Ident(decode_utf8(word))
    }
}

/// The token that a single byte is, if it is one.
pub open spec fn punctuation(b: u8) -> Option<TokenView> {
    if b == EQUALS_SIGN {
        Some(TokenView::Equals)
    } else if b == LEFT_PAREN {
        Some(TokenView::LParen)
    } else if b == RIGHT_PAREN {
        Some(TokenView::RParen)
    } else if b == LEFT_BRACE {
        Some(TokenView::LBrace)
    } else if b == RIGHT_BRACE {
        Some(TokenView::RBrace)
    } else if b == COMMA {
        Some(TokenView::Comma)
    } else if b == SEMICOLON {
        Some(TokenView::Semicolon)
    } else {
        None
    }
}

/// The end of the character that starts at `p`.
pub open spec fn char_end(bytes: Seq<u8>, p: int) -> int {
    run_end(bytes, p + 1, ByteClass::Continuation)
}

/// What the rules read at a position: a token, or none where the input is
/// invalid, and the position behind what was read.
pub struct Scan {
    pub token: Option<TokenView>,
    pub end: int,
}

/// What the rules read at `p`, a position inside the input that holds no
/// whitespace.
pub open spec fn spec_scan(bytes: Seq<u8>, p: int) -> Scan {
    let b = bytes[p];
    if is_ident_start(b) {
        let end = run_end(bytes, p + 1, ByteClass::IdentContinue);
        Scan { token: Some(word_token(bytes.subrange(p, end))), end }
    } else if is_digit(b) {
        let end = run_end(bytes, p + 1, ByteClass::Digit);
        let value = decimal_value(bytes.subrange(p, end));
        Scan {
            token: if value <= i64::MAX {
                Some(TokenView::Int(value as i64))
            } else {
                None
            },
            end,
        }
    } else if b == QUOTE {
        match string_end(bytes, p + 1) {
            Some(end) => Scan {
                token: Some(TokenView::Str(decode_utf8(bytes.subrange(p, end)))),
                end,
            },
            None => Scan { token: None, end: char_end(bytes, p) },
        }
    } else if b == VERTICAL_BAR {
        if p + 1 < bytes.len() && bytes[p + 1] == GREATER_THAN {
            Scan { token: Some(TokenView::Pipe), end: p + 2 }
        } else {
            Scan { token: None, end: char_end(bytes, p) }
        }
    } else {
        match punctuation(b) {
            Some(token) => Scan { token: Some(token), end: p + 1 },
            None => Scan { token: None, end: char_end(bytes, p) },
        }
    }
}

/// One item of the lexer's output: a token with its span, or the span of
/// input that is no token.
pub type ItemView = Result<SpannedTokenView, LexError>;

/// The item read at `p`.
pub open spec fn spec_item(bytes: Seq<u8>, p: int) -> ItemView {
    let scan = spec_scan(bytes, p);
    let span = Span { start: p as usize, end: scan.end as usize };
    match scan.token {
        Some(token) => Ok(SpannedTokenView { token, span }),
        None => Err(LexError::InvalidToken(span)),
    }
}

/// The items read from `pos` to the end of the input.
pub open spec fn spec_lex_from(bytes: Seq<u8>, pos: int) -> Seq<ItemView>
    decreases bytes.len() - pos,
{
    let p = run_end(bytes, pos, ByteClass::Space);
    let end = spec_scan(bytes, p).end;
    if 0 <= pos <= p < end <= bytes.len() {
        seq![spec_item(bytes, p)] + spec_lex_from(bytes, end)
    } else {
        Seq::empty()
    }
}

/// The items read from a whole source text.
pub open spec fn spec_lex(bytes: Seq<u8>) -> Seq<ItemView> {
    spec_lex_from(bytes, 0)
}

/// A run ends inside the input, at a byte that is not of the class or at
/// the end, and holds bytes of the class only.
pub proof fn lemma_run_end(bytes: Seq<u8>, pos: int, class: ByteClass)
    requires
        0 <= pos <= bytes.len(),
    ensures
        pos <= run_end(bytes, pos, class) <= bytes.len(),
        run_end(bytes, pos, class) < bytes.len() ==> !in_class(
            class,
            bytes[run_end(bytes, pos, class)],
        ),
        forall|i: int| pos <= i < run_end(bytes, pos, class) ==> in_class(class, #[trigger] bytes[i]),
    decreases bytes.len() - pos,
{
    if pos < bytes.len() && in_class(class, bytes[pos]) {
        lemma_run_end(bytes, pos + 1, class);
    }
}

/// A string that ends, ends behind a quote, inside the input and behind its
/// start.
pub proof fn lemma_string_end(bytes: Seq<u8>, pos: int)
    requires
        0 <= pos,
    ensures
        string_end(bytes, pos) matches Some(end) ==> pos < end <= bytes.len() && bytes[end - 1]
            == QUOTE,
    decreases bytes.len() - pos,
{
    if pos < bytes.len() && bytes[pos] != QUOTE {
        if bytes[pos] == BACKSLASH {
            if pos + 1 < bytes.len() && is_escape_letter(bytes[pos + 1]) {
                lemma_string_end(bytes, pos + 2);
            }
        } else {
            lemma_string_end(bytes, pos + 1);
        }
    }
}

/// Whatever is read at a position inside the input ends behind that
/// position and inside the input.
pub proof fn lemma_scan_advances(bytes: Seq<u8>, p: int)
    requires
        0 <= p < bytes.len(),
    ensures
        p < spec_scan(bytes, p).end <= bytes.len(),
{
    lemma_run_end(bytes, p + 1, ByteClass::IdentContinue);
    lemma_run_end(bytes, p + 1, ByteClass::Digit);
    lemma_run_end(bytes, p + 1, ByteClass::Continuation);
    lemma_string_end(bytes, p + 1);
}

/// Whether the bytes in `from..to` are all whitespace.
pub open spec fn only_spaces(bytes: Seq<u8>, from: int, to: int) -> bool {
    forall|i: int| from <= i < to ==> is_space(#[trigger] bytes[i])
}

/// The span an item covers.
pub open spec fn item_span(item: ItemView) -> Span {
    match item {
        Ok(token) => token.span,
        Err(LexError::InvalidToken(span)) => span,
    }
}

/// `[a-zA-Z_][a-zA-Z0-9_]*`
pub open spec fn is_word(lexeme: Seq<u8>) -> bool {
    &&& lexeme.len() > 0
    &&& is_ident_start(lexeme[0])
    &&& forall|i: int| 0 < i < lexeme.len() ==> is_ident_continue(#[trigger] lexeme[i])
}

/// `[0-9]+`
pub open spec fn is_number(lexeme: Seq<u8>) -> bool {
    &&& lexeme.len() > 0
    &&& forall|i: int| 0 <= i < lexeme.len() ==> is_digit(#[trigger] lexeme[i])
}

/// `"([^"\\]|\\t|\\u|\\n|\\")*"`
pub open spec fn is_string(lexeme: Seq<u8>) -> bool {
    &&& lexeme.len() >= 2
    &&& lexeme[0] == QUOTE
    &&& string_end(lexeme, 1) == Some(lexeme.len() as int)
}

/// Whether `lexeme` is a text that the rule of `token` reads as `token`.
pub open spec fn matches_rule(token: TokenView, lexeme: Seq<u8>) -> bool {
    match token {
        TokenView::Grab => lexeme == grab_text(),
        TokenView::Yell => lexeme == yell_text(),
        TokenView::Toss => lexeme == toss_text(),
        TokenView::Pipe => lexeme == seq![VERTICAL_BAR, GREATER_THAN],
        TokenView::Equals => lexeme == seq![EQUALS_SIGN],
        TokenView::LParen => lexeme == seq![LEFT_PAREN],
        TokenView::RParen => lexeme == seq![RIGHT_PAREN],
        TokenView::LBrace => lexeme == seq![LEFT_BRACE],
        TokenView::RBrace => lexeme == seq![RIGHT_BRACE],
        TokenView::Comma => lexeme == seq![COMMA],
        TokenView::Semicolon => lexeme == seq![SEMICOLON],
        TokenView::Ident(name) => {
            &&& is_word(lexeme)
            &&& lexeme != grab_text()
            &&& lexeme != yell_text()
            &&& lexeme != toss_text()
            &&& name == decode_utf8(lexeme)
        },
        TokenView::Int(value) => is_number(lexeme) && decimal_value(lexeme) == value,
        TokenView::Str(text) => is_string(lexeme) && text == decode_utf8(lexeme),
    }
}

/// Whether a token that ends at `end` could not have been longer: behind a
/// word stands no byte of a word, behind a number no digit.
pub open spec fn is_longest(token: TokenView, bytes: Seq<u8>, end: int) -> bool {
    match token {
        TokenView::Grab | TokenView::Yell | TokenView::Toss | TokenView::Ident(_) => end
            < bytes.len() ==> !is_ident_continue(bytes[end]),
        TokenView::Int(_) => end < bytes.len() ==> !is_digit(bytes[end]),
        _ => true,
    }
}

/// The end of a string does not depend on what stands before its opening
/// quote or behind its closing one.
pub proof fn lemma_string_end_of_lexeme(bytes: Seq<u8>, start: int, pos: int, end: int)
    requires
        0 <= start <= pos,
        string_end(bytes, pos) == Some(end),
    ensures
        pos < end <= bytes.len(),
        string_end(bytes.subrange(start, end), pos - start) == Some(end - start),
    decreases bytes.len() - pos,
{
    lemma_string_end(bytes, pos);
    let lexeme = bytes.subrange(start, end);
    assert(lexeme[pos - start] == bytes[pos]);
    if bytes[pos] == QUOTE {
    } else if bytes[pos] == BACKSLASH {
        lemma_string_end(bytes, pos + 2);
        assert(lexeme[pos + 1 - start] == bytes[pos + 1]);
        lemma_string_end_of_lexeme(bytes, start, pos + 2, end);
    } else {
        lemma_string_end(bytes, pos + 1);
        lemma_string_end_of_lexeme(bytes, start, pos + 1, end);
    }
}

/// Every token the rules read is a text of its own rule, and the longest
/// one that starts where it starts.
pub proof fn lemma_scan_matches_rule(bytes: Seq<u8>, p: int)
    requires
        0 <= p < bytes.len(),
    ensures
        p < spec_scan(bytes, p).end <= bytes.len(),
        spec_scan(bytes, p).token matches Some(token) ==> matches_rule(
            token,
            bytes.subrange(p, spec_scan(bytes, p).end),
        ) && is_longest(token, bytes, spec_scan(bytes, p).end),
{
    lemma_scan_advances(bytes, p);
    let b = bytes[p];
    let end = spec_scan(bytes, p).end;
    let lexeme = bytes.subrange(p, end);
    if is_ident_start(b) {
        lemma_run_end(bytes, p + 1, ByteClass::IdentContinue);
        assert(lexeme[0] == b);
        assert forall|i: int| 0 < i < lexeme.len() implies is_ident_continue(
            #[trigger] lexeme[i],
        ) by {
            assert(lexeme[i] == bytes[p + i]);
        }
    } else if is_digit(b) {
        lemma_run_end(bytes, p + 1, ByteClass::Digit);
        assert forall|i: int| 0 <= i < lexeme.len() implies is_digit(#[trigger] lexeme[i]) by {
            assert(lexeme[i] == bytes[p + i]);
        }
    } else if b == QUOTE {
        if string_end(bytes, p + 1) is Some {
            lemma_string_end_of_lexeme(bytes, p, p + 1, end);
            assert(lexeme[0] == b);
        }
    } else if b == VERTICAL_BAR {
        if p + 1 < bytes.len() && bytes[p + 1] == GREATER_THAN {
            assert(lexeme =~= seq![VERTICAL_BAR, GREATER_THAN]);
        }
    } else {
        if punctuation(b) is Some {
            assert(lexeme =~= seq![b]);
        }
    }
}

/// Whether `items`, read from `pos` on, lie in the text as tokens should:
/// each covers at least one byte of the text, they follow one another in
/// order, nothing but whitespace stands before the first, between two
/// neighbours and behind the last, and each token is a text of its rule,
/// the longest there is.
pub open spec fn well_laid_out(bytes: Seq<u8>, pos: int, items: Seq<ItemView>) -> bool {
    &&& forall|i: int|
        0 <= i < items.len() ==> item_span(#[trigger] items[i]).start < item_span(items[i]).end
            <= bytes.len()
    &&& forall|i: int|
        0 <= i < items.len() ==> {
            let gap_start = if i == 0 {
                pos
            } else {
                item_span(items[i - 1]).end as int
            };
            gap_start <= item_span(#[trigger] items[i]).start && only_spaces(
                bytes,
                gap_start,
                item_span(items[i]).start as int,
            )
        }
    &&& only_spaces(
        bytes,
        if items.len() == 0 {
            pos
        } else {
            item_span(items.last()).end as int
        },
        bytes.len() as int,
    )
    &&& forall|i: int|
        0 <= i < items.len() ==> ((#[trigger] items[i]) matches Ok(t) ==> matches_rule(
            t.token,
            bytes.subrange(t.span.start as int, t.span.end as int),
        ) && is_longest(t.token, bytes, t.span.end as int))
}

/// The items read from any position of any text lie in it as tokens should.
pub proof fn lemma_lex_layout(bytes: Seq<u8>, pos: int)
    requires
        0 <= pos <= bytes.len() <= usize::MAX,
    ensures
        well_laid_out(bytes, pos, spec_lex_from(bytes, pos)),
    decreases bytes.len() - pos,
{
    let items = spec_lex_from(bytes, pos);
    let p = run_end(bytes, pos, ByteClass::Space);
    lemma_run_end(bytes, pos, ByteClass::Space);
    if p < bytes.len() {
        lemma_scan_matches_rule(bytes, p);
        let end = spec_scan(bytes, p).end;
        let rest = spec_lex_from(bytes, end);
        lemma_lex_layout(bytes, end);
        assert(items =~= seq![spec_item(bytes, p)] + rest);
        assert(item_span(items[0]) == Span { start: p as usize, end: end as usize });
        assert forall|i: int| 0 <= i < items.len() implies item_span(#[trigger] items[i]).start
            < item_span(items[i]).end <= bytes.len() by {
            if i > 0 {
                assert(items[i] == rest[i - 1]);
            }
        }
        assert forall|i: int| 0 <= i < items.len() implies {
            let gap_start = if i == 0 {
                pos
            } else {
                item_span(items[i - 1]).end as int
            };
            gap_start <= item_span(#[trigger] items[i]).start && only_spaces(
                bytes,
                gap_start,
                item_span(items[i]).start as int,
            )
        } by {
            if i > 0 {
                assert(items[i] == rest[i - 1]);
                if i > 1 {
                    assert(items[i - 1] == rest[i - 2]);
                }
            }
        }
        if rest.len() > 0 {
            assert(items.last() == rest.last());
        }
        assert forall|i: int| 0 <= i < items.len() implies ((#[trigger] items[i]) matches Ok(t)
            ==> matches_rule(t.token, bytes.subrange(t.span.start as int, t.span.end as int))
            && is_longest(t.token, bytes, t.span.end as int)) by {
            if i > 0 {
                assert(items[i] == rest[i - 1]);
            }
        }
    }
}

/// The items of a whole text lie in it as tokens should.
pub proof fn lemma_lex_well_laid_out(bytes: Seq<u8>)
    requires
        bytes.len() <= usize::MAX,
    ensures
        well_laid_out(bytes, 0, spec_lex(bytes)),
{
    lemma_lex_layout(bytes, 0);
}

} // verus!
