//! The token alphabet.

use vstd::prelude::*;

verus! {

/// A lexical token.
#[derive(Debug, Clone, PartialEq)]
pub enum Token {
    Grab,
    Yell,
    Toss,
    Pipe,
    Equals,
    Ident(String),
    Int(i64),
    String(String),
    LParen,
    RParen,
    LBrace,
    RBrace,
    Comma,
    Semicolon,
}

/// Mathematical value of a [`Token`]: the same alphabet with texts as
/// character sequences.
pub enum TokenView {
    Grab,
    Yell,
    Toss,
    Pipe,
    Equals,
    Ident(Seq<char>),
    Int(i64),
    Str(Seq<char>),
    LParen,
    RParen,
    LBrace,
    RBrace,
    Comma,
    Semicolon,
}

impl View for Token {
    type V = TokenView;

    open spec fn view(&self) -> TokenView {
        match self {
            Token::Grab => TokenView::Grab,
            Token::Yell => TokenView::Yell,
            Token::Toss => TokenView::Toss,
            Token::Pipe => TokenView::Pipe,
            Token::Equals => TokenView::Equals,
            Token::Ident(name) => TokenView::Ident(name@),
            Token::Int(value) => TokenView::Int(*value),
            Token::String(text) => TokenView::Str(text@),
            Token::LParen => TokenView::LParen,
            Token::RParen => TokenView::RParen,
            Token::LBrace => TokenView::LBrace,
            Token::RBrace => TokenView::RBrace,
            Token::Comma => TokenView::Comma,
            Token::Semicolon => TokenView::Semicolon,
        }
    }
}

} // verus!
