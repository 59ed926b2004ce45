//! The lexer: a cursor over a source text that hands out one item at a
//! time, each a token with its span or the span of input that is no token.

use crate::errors::lex::LexError;
use crate::lexer::rules::{
    lemma_run_end, lemma_scan_advances, lemma_string_end, spec_lex, spec_lex_from, spec_scan,
    ByteClass, ItemView, COMMA, DIGIT_NINE, DIGIT_ZERO, EQUALS_SIGN, GREATER_THAN, LEFT_BRACE,
    LEFT_PAREN, LOWER_A, LOWER_Z, QUOTE, RIGHT_BRACE, RIGHT_PAREN, SEMICOLON, UNDERSCORE,
    UPPER_A, UPPER_Z, VERTICAL_BAR,
};
use crate::lexer::scan::{read_decimal, scan_run, scan_string};
use crate::lexer::token::{Token, TokenView};
use crate::util::span::Span;
use crate::util::text::{lemma_boundary_after_ascii, substring};
use vstd::prelude::*;
use vstd::string::StringSliceAdditionalSpecFns;
use vstd::utf8::encode_utf8_valid_utf8;

verus! {

/// A token together with the bytes of the source it occupies.
#[derive(Debug, Clone, PartialEq)]
pub struct SpannedToken {
    pub token: Token,
    pub span: Span,
}

/// Mathematical value of a [`SpannedToken`].
pub struct SpannedTokenView {
    pub token: TokenView,
    pub span: Span,
}

impl View for SpannedToken {
    type V = SpannedTokenView;

    open spec fn view(&self) -> SpannedTokenView {
        SpannedTokenView { token: self.token@, span: self.span }
    }
}

impl SpannedToken {
    pub fn new(token: Token, span: Span) -> (t: SpannedToken)
        ensures
            t.token == token,
            t.span == span,
    {
        SpannedToken { token, span }
    }
}

/// The views of a run of tokens.
pub open spec fn token_views(tokens: Seq<SpannedToken>) -> Seq<SpannedTokenView> {
    tokens.map_values(|t: SpannedToken| t@)
}

/// The view of one item of the lexer's output.
pub open spec fn item_view(item: Result<SpannedToken, LexError>) -> ItemView {
    match item {
        Ok(token) => Ok(token@),
        Err(e) => Err(e),
    }
}

/// The views of a run of items.
pub open spec fn item_views(items: Seq<Result<SpannedToken, LexError>>) -> Seq<ItemView> {
    items.map_values(|item: Result<SpannedToken, LexError>| item_view(item))
}

/// Whether the four bytes `a b c d` are all there is in `from..to`.
fn spells(bytes: &[u8], from: usize, to: usize, a: u8, b: u8, c: u8, d: u8) -> (r: bool)
    requires
        from <= to <= bytes.len(),
    ensures
        r == (bytes@.subrange(from as int, to as int) == seq![a, b, c, d]),
{
    let ghost word = bytes@.subrange(from as int, to as int);
    if to - from != 4 {
        proof {
            assert(seq![a, b, c, d].len() == 4);
        }
        return false;
    }
    let r = bytes[from] == a && bytes[from + 1] == b && bytes[from + 2] == c && bytes[from + 3]
        == d;
    proof {
        if r {
            assert(word =~= seq![a, b, c, d]);
        } else {
            assert(word[0] == bytes@[from as int]);
            assert(word[1] == bytes@[from + 1]);
            assert(word[2] == bytes@[from + 2]);
            assert(word[3] == bytes@[from + 3]);
        }
    }
    r
}

/// Reads what stands at `p`: a token, or nothing where the input is
/// invalid, and the position behind it.
fn scan_token(src: &str, p: usize) -> (r: (Option<Token>, usize))
    requires
        p < src.spec_bytes().len(),
    ensures
        r.1 == spec_scan(src.spec_bytes(), p as int).end,
        p < r.1 <= src.spec_bytes().len(),
        match r.0 {
            Some(token) => spec_scan(src.spec_bytes(), p as int).token == Some(token@),
            None => spec_scan(src.spec_bytes(), p as int).token is None,
        },
{
    let bytes = src.as_bytes();
    let b = bytes[p];
    proof {
        lemma_scan_advances(bytes@, p as int);
        encode_utf8_valid_utf8(src@);
    }
    if (LOWER_A <= b && b <= LOWER_Z) || (UPPER_A <= b && b <= UPPER_Z) || b == UNDERSCORE {
        let end = scan_run(bytes, p + 1, ByteClass::IdentContinue);
        if spells(bytes, p, end, 0x67, 0x72, 0x61, 0x62) {
            // g r a b
            (Some(Token::Grab), end)
        } else if spells(bytes, p, end, 0x79, 0x65, 0x6c, 0x6c) {
            // y e l l
            (Some(Token::Yell), end)
        } else if spells(bytes, p, end, 0x74, 0x6f, 0x73, 0x73) {
            // t o s s
            (Some(Token::Toss), end)
        } else {
            proof {
                lemma_run_end(bytes@, p + 1, ByteClass::IdentContinue);
                lemma_boundary_after_ascii(bytes@, p as int);
                lemma_boundary_after_ascii(bytes@, end - 1);
            }
            (Some(Token::Ident(substring(src, p, end))), end)
        }
    } else if DIGIT_ZERO <= b && b <= DIGIT_NINE {
        let end = scan_run(bytes, p + 1, ByteClass::Digit);
        proof {
            lemma_run_end(bytes@, p + 1, ByteClass::Digit);
        }
        match read_decimal(bytes, p, end) {
            Some(value) => (Some(Token::Int(value)), end),
            None => (None, end),
        }
    } else if b == QUOTE {
        match scan_string(bytes, p + 1) {
            Some(end) => {
                proof {
                    lemma_string_end(bytes@, p + 1);
                    lemma_boundary_after_ascii(bytes@, p as int);
                    lemma_boundary_after_ascii(bytes@, end - 1);
                }
                (Some(Token::String(substring(src, p, end))), end)
            },
            None => (None, scan_run(bytes, p + 1, ByteClass::Continuation)),
        }
    } else if b == VERTICAL_BAR {
        if p + 1 < bytes.len() && bytes[p + 1] == GREATER_THAN {
            (Some(Token::Pipe), p + 2)
        } else {
            (None, scan_run(bytes, p + 1, ByteClass::Continuation))
        }
    } else if b == EQUALS_SIGN {
        (Some(Token::Equals), p + 1)
    } else if b == LEFT_PAREN {
        (Some(Token::LParen), p + 1)
    } else if b == RIGHT_PAREN {
        (Some(Token::RParen), p + 1)
    } else if b == LEFT_BRACE {
        (Some(Token::LBrace), p + 1)
    } else if b == RIGHT_BRACE {
        (Some(Token::RBrace), p + 1)
    } else if b == COMMA {
        (Some(Token::Comma), p + 1)
    } else if b == SEMICOLON {
        (Some(Token::Semicolon), p + 1)
    } else {
        (None, scan_run(bytes, p + 1, ByteClass::Continuation))
    }
}

/// A cursor over a source text.
pub struct Lexer<'input> {
    src: &'input str,
    pos: usize,
}

impl<'input> Lexer<'input> {
    #[verifier::type_invariant]
    spec fn inside(&self) -> bool {
        self.pos <= self.src.spec_bytes().len()
    }

    /// The items the lexer has yet to hand out.
    pub closed spec fn remaining(&self) -> Seq<ItemView> {
        spec_lex_from(self.src.spec_bytes(), self.pos as int)
    }

    /// A lexer at the start of `src`.
    pub fn new(src: &'input str) -> (lexer: Lexer<'input>)
        ensures
            lexer.remaining() == spec_lex(src.spec_bytes()),
    {
        Lexer { src, pos: 0 }
    }

    /// Hands out the next item, or `None` when only whitespace is left.
    pub fn next(&mut self) -> (r: Option<Result<SpannedToken, LexError>>)
        ensures
            match r {
                Some(item) => old(self).remaining() == seq![item_view(item)]
                    + final(self).remaining(),
                None => old(self).remaining() == Seq::<ItemView>::empty()
                    && final(self).remaining() == Seq::<ItemView>::empty(),
            },
    {
        proof {
            use_type_invariant(&*self);
        }
        let bytes = self.src.as_bytes();
        let ghost from = self.pos as int;
        let p = scan_run(bytes, self.pos, ByteClass::Space);
        if p >= bytes.len() {
            proof {
                lemma_run_end(bytes@, p as int, ByteClass::Space);
            }
            self.pos = p;
            return None;
        }
        let (token, end) = scan_token(self.src, p);
        self.pos = end;
        let span = Span { start: p, end };
        match token {
            Some(token) => Some(Ok(SpannedToken { token, span })),
            None => Some(Err(LexError::InvalidToken(span))),
        }
    }

    /// Hands out every item that is left, in order.
    pub fn collect(self) -> (items: Vec<Result<SpannedToken, LexError>>)
        ensures
            item_views(items@) == self.remaining(),
    {
        let mut lexer = self;
        let mut items: Vec<Result<SpannedToken, LexError>> = Vec::new();
        proof {
            assert(item_views(items@) + lexer.remaining() =~= self.remaining());
        }
        loop
            invariant
                item_views(items@) + lexer.remaining() == self.remaining(),
            ensures
                item_views(items@) == self.remaining(),
            decreases lexer.remaining().len(),
        {
            let ghost before = lexer.remaining();
            match lexer.next() {
                Some(item) => {
                    proof {
                        assert(item_views(items@.push(item)) =~= item_views(items@) + seq![
                            item_view(item),
                        ]);
                        assert((item_views(items@) + seq![item_view(item)]) + lexer.remaining()
                            =~= item_views(items@) + before);
                    }
                    items.push(item);
                },
                None => {
                    proof {
                        assert(item_views(items@) + before =~= item_views(items@));
                    }
                    break ;
                },
            }
        }
        items
    }
}

/// The tokens of a run of items, if every item is a token; the first item
/// that is none, otherwise. `acc` holds the tokens of the items before
/// index `from`.
pub open spec fn spec_tokens_from(
    items: Seq<ItemView>,
    from: int,
    acc: Seq<SpannedTokenView>,
) -> Result<Seq<SpannedTokenView>, LexError>
    decreases items.len() - from,
{
    if from < 0 || from >= items.len() {
        Ok(acc)
    } else {
        match items[from] {
            Ok(token) => spec_tokens_from(items, from + 1, acc.push(token)),
            Err(e) => Err(e),
        }
    }
}

/// The tokens of a source text, or the first invalid input in it.
pub open spec fn spec_tokenize(bytes: Seq<u8>) -> Result<Seq<SpannedTokenView>, LexError> {
    spec_tokens_from(spec_lex(bytes), 0, Seq::empty())
}

/// The tokens `tokens`, each as an item.
pub open spec fn as_items(tokens: Seq<SpannedTokenView>) -> Seq<ItemView> {
    tokens.map_values(|t: SpannedTokenView| Ok::<SpannedTokenView, LexError>(t))
}

/// Reads a whole source text. The first invalid input ends the reading and
/// is the error returned.
pub fn tokenize(src: &str) -> (r: Result<Vec<SpannedToken>, LexError>)
    ensures
        match r {
            Ok(tokens) => spec_tokenize(src.spec_bytes()) == Ok::<Seq<SpannedTokenView>, LexError>(
                token_views(tokens@),
            ),
            Err(e) => spec_tokenize(src.spec_bytes()) == Err::<Seq<SpannedTokenView>, LexError>(e),
        },
{
    let ghost items = spec_lex(src.spec_bytes());
    let mut lexer = Lexer::new(src);
    let mut tokens: Vec<SpannedToken> = Vec::new();
    proof {
        assert(token_views(tokens@) =~= Seq::<SpannedTokenView>::empty());
        assert(as_items(token_views(tokens@)) + lexer.remaining() =~= items);
    }
    loop
        invariant
            items == spec_lex(src.spec_bytes()),
            items == as_items(token_views(tokens@)) + lexer.remaining(),
            spec_tokenize(src.spec_bytes()) == spec_tokens_from(
                items,
                tokens.len() as int,
                token_views(tokens@),
            ),
        decreases lexer.remaining().len(),
    {
        let ghost before = lexer.remaining();
        let ghost k = tokens.len() as int;
        match lexer.next() {
            Some(Ok(token)) => {
                proof {
                    assert(before[0] == Ok::<SpannedTokenView, LexError>(token@));
                    assert(items[k] == before[0]);
                    assert(token_views(tokens@.push(token)) =~= token_views(tokens@).push(token@));
                    assert(as_items(token_views(tokens@).push(token@)) + lexer.remaining()
                        =~= items);
                }
                tokens.push(token);
            },
            Some(Err(e)) => {
                proof {
                    assert(before[0] == Err::<SpannedTokenView, LexError>(e));
                    assert(items[k] == before[0]);
                }
                return Err(e);
            },
            None => {
                proof {
                    assert(items.len() == k);
                }
                return Ok(tokens);
            },
        }
    }
}

/// What reading a whole text amounts to: it gives tokens exactly when every
/// item is a token, and then gives them all, in order; otherwise it gives
/// the first item that is none.
pub proof fn lemma_tokens_from(items: Seq<ItemView>, from: int, acc: Seq<SpannedTokenView>)
    requires
        0 <= from <= items.len(),
    ensures
        match spec_tokens_from(items, from, acc) {
            Ok(tokens) => {
                &&& tokens.len() == acc.len() + items.len() - from
                &&& forall|i: int| 0 <= i < acc.len() ==> tokens[i] == acc[i]
                &&& forall|i: int|
                    from <= i < items.len() ==> items[i] == Ok::<SpannedTokenView, LexError>(
                        tokens[acc.len() + i - from],
                    )
            },
            Err(e) => exists|k: int|
                {
                    &&& from <= k < items.len()
                    &&& #[trigger] items[k] == Err::<SpannedTokenView, LexError>(e)
                    &&& forall|j: int| from <= j < k ==> (#[trigger] items[j]) is Ok
                },
        },
    decreases items.len() - from,
{
    if from < items.len() {
        match items[from] {
            Ok(token) => {
                lemma_tokens_from(items, from + 1, acc.push(token));
                match spec_tokens_from(items, from + 1, acc.push(token)) {
                    Ok(tokens) => {
                        assert(tokens[acc.len() as int] == acc.push(token)[acc.len() as int]);
                        assert forall|i: int| 0 <= i < acc.len() implies tokens[i] == acc[i] by {
                            assert(acc.push(token)[i] == acc[i]);
                        }
                    },
                    Err(e) => {
                        let k = choose|k: int|
                            {
                                &&& from + 1 <= k < items.len()
                                &&& #[trigger] items[k] == Err::<SpannedTokenView, LexError>(e)
                                &&& forall|j: int| from + 1 <= j < k ==> (#[trigger] items[j]) is Ok
                            };
                        assert(items[k] == Err::<SpannedTokenView, LexError>(e));
                        assert forall|j: int| from <= j < k implies (#[trigger] items[j]) is Ok by {}
                    },
                }
            },
            Err(e) => {
                assert(items[from] == Err::<SpannedTokenView, LexError>(e));
            },
        }
    }
}

/// Lexing is a function of the text alone: two texts of the same characters
/// give the same items and the same tokens, however often they are read.
pub proof fn lemma_lexing_is_repeatable(a: &str, b: &str)
    requires
        a@ == b@,
    ensures
        spec_lex(a.spec_bytes()) == spec_lex(b.spec_bytes()),
        spec_tokenize(a.spec_bytes()) == spec_tokenize(b.spec_bytes()),
{
}

} // verus!
