//! A predictive recursive-descent parser for the grammar
//!
//! ```text
//! program    := statement* EOF
//! statement  := let_stmt | yell_stmt | expr_stmt
//! let_stmt   := "grab" IDENT "=" expr ";"
//! yell_stmt  := "yell" expr ";"
//! expr_stmt  := expr ";"
//! expr       := pipeline
//! pipeline   := atom ( "|>" atom )*
//! atom       := INT | IDENT | STRING | toss_expr | "(" expr ")"
//! toss_expr  := "toss" IDENT expr?
//! ```
//!
//! The grammar is stated once as spec functions over token views; every
//! executable rule is proved to compute exactly what its spec function says,
//! including the position at which a malformed input is rejected.

use crate::ast::ast::{Ast, Expr, ExprView, Statement, StatementView};
use crate::errors::parse::{parse_error_text, ParseError, ParseErrorView};
use crate::lexer::lexer::{token_views, SpannedToken, SpannedTokenView};
use crate::lexer::token::{Token, TokenView};
use crate::util::span::Span;
use vstd::prelude::*;

verus! {

/// What a grammar rule yields at a position: the value it built and the
/// position after it, or the position of the token it cannot accept.
pub type Parsed<T> = Result<(T, int), int>;

/// The token at `pos`, if the input reaches that far.
pub open spec fn peek(ts: Seq<SpannedTokenView>, pos: int) -> Option<TokenView> {
    if 0 <= pos < ts.len() {
        Some(ts[pos].token)
    } else {
        None
    }
}

/// Whether a token can begin an expression.
pub open spec fn starts_expr(t: Option<TokenView>) -> bool {
    match t {
        Some(TokenView::Int(_)) => true,
        Some(TokenView::Ident(_)) => true,
        Some(TokenView::Str(_)) => true,
        Some(TokenView::Toss) => true,
        Some(TokenView::LParen) => true,
        _ => false,
    }
}

/// A rule that started at `from` and stopped at `to` consumed at least one
/// token and stayed inside the input.
pub open spec fn advances(ts: Seq<SpannedTokenView>, from: int, to: int) -> bool {
    from < to <= ts.len()
}

/// The empty span just behind the last token: the place where more input
/// was expected.
pub open spec fn end_of_input(ts: Seq<SpannedTokenView>) -> Span {
    if ts.len() == 0 {
        Span { start: 0, end: 0 }
    } else {
        Span { start: ts.last().span.end, end: ts.last().span.end }
    }
}

/// The error reported for a rejection at position `at`: the offending token
/// when there is one, the end of the input otherwise.
pub open spec fn error_at(ts: Seq<SpannedTokenView>, at: int) -> ParseErrorView {
    if 0 <= at < ts.len() {
        ParseErrorView::UnexpectedToken(ts[at].span)
    } else {
        ParseErrorView::Incomplete(end_of_input(ts))
    }
}

/// `INT`
pub open spec fn spec_integer(ts: Seq<SpannedTokenView>, pos: int) -> Parsed<ExprView> {
    match peek(ts, pos) {
        Some(TokenView::Int(value)) => Ok((ExprView::Int(value), pos + 1)),
        _ => Err(pos),
    }
}

/// `IDENT` as an expression
pub open spec fn spec_ident(ts: Seq<SpannedTokenView>, pos: int) -> Parsed<ExprView> {
    match peek(ts, pos) {
        Some(TokenView::Ident(name)) => Ok((ExprView::Ident(name), pos + 1)),
        _ => Err(pos),
    }
}

/// `STRING`
pub open spec fn spec_string(ts: Seq<SpannedTokenView>, pos: int) -> Parsed<ExprView> {
    match peek(ts, pos) {
        Some(TokenView::Str(text)) => Ok((ExprView::Str(text), pos + 1)),
        _ => Err(pos),
    }
}

/// `IDENT` as a bare name
pub open spec fn spec_name(ts: Seq<SpannedTokenView>, pos: int) -> Parsed<Seq<char>> {
    match peek(ts, pos) {
        Some(TokenView::Ident(name)) => Ok((name, pos + 1)),
        _ => Err(pos),
    }
}

/// `atom := INT | IDENT | STRING | "toss" IDENT expr? | "(" expr ")"`
///
/// After `toss IDENT` the argument is taken exactly when the next token can
/// begin an expression.
pub open spec fn spec_atom(ts: Seq<SpannedTokenView>, pos: int) -> Parsed<ExprView>
    decreases ts.len() - pos, 0int,
{
    match peek(ts, pos) {
        Some(TokenView::Int(value)) => Ok((ExprView::Int(value), pos + 1)),
        Some(TokenView::Ident(name)) => Ok((ExprView::Ident(name), pos + 1)),
        Some(TokenView::Str(text)) => Ok((ExprView::Str(text), pos + 1)),
        Some(TokenView::Toss) => match peek(ts, pos + 1) {
            Some(TokenView::Ident(effect)) => if starts_expr(peek(ts, pos + 2)) {
                match spec_expr(ts, pos + 2) {
                    Ok((arg, next)) => Ok(
                        (ExprView::Toss { effect, arg: Some(Box::new(arg)) }, next),
                    ),
                    Err(at) => Err(at),
                }
            } else {
                Ok((ExprView::Toss { effect, arg: None }, pos + 2))
            },
            _ => Err(pos + 1),
        },
        Some(TokenView::LParen) => match spec_expr(ts, pos + 1) {
            Ok((inner, next)) => if peek(ts, next) == Some(TokenView::RParen) {
                Ok((inner, next + 1))
            } else {
                Err(next)
            },
            Err(at) => Err(at),
        },
        _ => Err(pos),
    }
}

/// `( "|>" atom )*` behind an already parsed left operand, folded to the left.
pub open spec fn spec_pipeline_tail(
    ts: Seq<SpannedTokenView>,
    left: ExprView,
    pos: int,
) -> Parsed<ExprView>
    decreases ts.len() - pos, 1int,
{
    if peek(ts, pos) == Some(TokenView::Pipe) {
        match spec_atom(ts, pos + 1) {
            Ok((right, next)) => if advances(ts, pos, next) {
                spec_pipeline_tail(
                    ts,
                    ExprView::Pipeline(Box::new(left), Box::new(right)),
                    next,
                )
            } else {
                Err(pos)
            },
            Err(at) => Err(at),
        }
    } else {
        Ok((left, pos))
    }
}

/// `expr := atom ( "|>" atom )*`
pub open spec fn spec_expr(ts: Seq<SpannedTokenView>, pos: int) -> Parsed<ExprView>
    decreases ts.len() - pos, 2int,
{
    match spec_atom(ts, pos) {
        Ok((first, next)) => if advances(ts, pos, next) {
            spec_pipeline_tail(ts, first, next)
        } else {
            Err(pos)
        },
        Err(at) => Err(at),
    }
}

/// A parsed expression followed by `;`.
pub open spec fn spec_terminated(ts: Seq<SpannedTokenView>, parsed: Parsed<ExprView>) -> Parsed<
    ExprView,
> {
    match parsed {
        Ok((expr, next)) => if peek(ts, next) == Some(TokenView::Semicolon) {
            Ok((expr, next + 1))
        } else {
            Err(next)
        },
        Err(at) => Err(at),
    }
}

/// `let_stmt := "grab" IDENT "=" expr ";"`
pub open spec fn spec_let(ts: Seq<SpannedTokenView>, pos: int) -> Parsed<StatementView> {
    if peek(ts, pos) != Some(TokenView::Grab) {
        Err(pos)
    } else {
        match peek(ts, pos + 1) {
            Some(TokenView::Ident(name)) => if peek(ts, pos + 2) == Some(TokenView::Equals) {
                match spec_terminated(ts, spec_expr(ts, pos + 3)) {
                    Ok((expr, next)) => Ok((StatementView::Let { name, expr }, next)),
                    Err(at) => Err(at),
                }
            } else {
                Err(pos + 2)
            },
            _ => Err(pos + 1),
        }
    }
}

/// `yell_stmt := "yell" expr ";"`
pub open spec fn spec_yell(ts: Seq<SpannedTokenView>, pos: int) -> Parsed<StatementView> {
    if peek(ts, pos) != Some(TokenView::Yell) {
        Err(pos)
    } else {
        match spec_terminated(ts, spec_expr(ts, pos + 1)) {
            Ok((expr, next)) => Ok((StatementView::Yell { expr }, next)),
            Err(at) => Err(at),
        }
    }
}

/// `expr_stmt := expr ";"`
pub open spec fn spec_expr_stmt(ts: Seq<SpannedTokenView>, pos: int) -> Parsed<StatementView> {
    match spec_terminated(ts, spec_expr(ts, pos)) {
        Ok((expr, next)) => Ok((StatementView::ExprStmt(expr), next)),
        Err(at) => Err(at),
    }
}

/// `statement := let_stmt | yell_stmt | expr_stmt`, chosen by the first token.
pub open spec fn spec_statement(ts: Seq<SpannedTokenView>, pos: int) -> Parsed<StatementView> {
    match peek(ts, pos) {
        Some(TokenView::Grab) => spec_let(ts, pos),
        Some(TokenView::Yell) => spec_yell(ts, pos),
        _ => spec_expr_stmt(ts, pos),
    }
}

/// `statement*` up to the end of the input, appended to the statements `acc`
/// already read.
pub open spec fn spec_statements(
    ts: Seq<SpannedTokenView>,
    pos: int,
    acc: Seq<StatementView>,
) -> Result<Seq<StatementView>, int>
    decreases ts.len() - pos,
{
    if pos >= ts.len() {
        Ok(acc)
    } else {
        match spec_statement(ts, pos) {
            Ok((stmt, next)) => if advances(ts, pos, next) {
                spec_statements(ts, next, acc.push(stmt))
            } else {
                Err(pos)
            },
            Err(at) => Err(at),
        }
    }
}

/// `program := statement* EOF`
pub open spec fn spec_program(ts: Seq<SpannedTokenView>) -> Result<Seq<StatementView>, int> {
    spec_statements(ts, 0, Seq::empty())
}

/// How an executable rule's result relates to what the grammar says: the
/// same value and end position on success, and on failure the error for the
/// position at which the grammar rejects.
pub open spec fn result_is<T: View>(
    ts: Seq<SpannedTokenView>,
    pos: int,
    r: Result<(T, usize), ParseError>,
    expected: Parsed<T::V>,
) -> bool {
    match r {
        Ok((value, next)) => expected == Ok::<(T::V, int), int>((value@, next as int))
            && advances(ts, pos, next as int),
        Err(e) => expected is Err && e@ == error_at(ts, expected->Err_0),
    }
}

/// The error for a rejection at `pos`.
fn reject(tokens: &[SpannedToken], pos: usize) -> (e: ParseError)
    ensures
        e@ == error_at(token_views(tokens@), pos as int),
{
    let n = tokens.len();
    if pos < n {
        ParseError::UnexpectedToken(tokens[pos].span)
    } else if n == 0 {
        ParseError::Incomplete(Span { start: 0, end: 0 })
    } else {
        let end = tokens[n - 1].span.end;
        ParseError::Incomplete(Span { start: end, end })
    }
}

/// Parses an integer literal at `pos`.
pub fn parser_integer(tokens: &[SpannedToken], pos: usize) -> (r: Result<(Expr, usize), ParseError>)
    ensures
        result_is(token_views(tokens@), pos as int, r, spec_integer(token_views(tokens@), pos as int)),
{
    if pos < tokens.len() {
        if let Token::Int(value) = &tokens[pos].token {
            return Ok((Expr::Int(*value), pos + 1));
        }
    }
    Err(reject(tokens, pos))
}

/// Parses an identifier at `pos` as an expression.
pub fn parser_ident(tokens: &[SpannedToken], pos: usize) -> (r: Result<(Expr, usize), ParseError>)
    ensures
        result_is(token_views(tokens@), pos as int, r, spec_ident(token_views(tokens@), pos as int)),
{
    if pos < tokens.len() {
        if let Token::Ident(name) = &tokens[pos].token {
            return Ok((Expr::Ident(name.clone()), pos + 1));
        }
    }
    Err(reject(tokens, pos))
}

/// Parses a string literal at `pos`.
pub fn parser_string(tokens: &[SpannedToken], pos: usize) -> (r: Result<(Expr, usize), ParseError>)
    ensures
        result_is(token_views(tokens@), pos as int, r, spec_string(token_views(tokens@), pos as int)),
{
    if pos < tokens.len() {
        if let Token::String(text) = &tokens[pos].token {
            return Ok((Expr::String(text.clone()), pos + 1));
        }
    }
    Err(reject(tokens, pos))
}

/// Parses an identifier at `pos` as a bare name.
pub fn parser_name(tokens: &[SpannedToken], pos: usize) -> (r: Result<(String, usize), ParseError>)
    ensures
        result_is(token_views(tokens@), pos as int, r, spec_name(token_views(tokens@), pos as int)),
{
    if pos < tokens.len() {
        if let Token::Ident(name) = &tokens[pos].token {
            return Ok((name.clone(), pos + 1));
        }
    }
    Err(reject(tokens, pos))
}

/// Whether the token at `pos` can begin an expression.
fn at_expr_start(tokens: &[SpannedToken], pos: usize) -> (b: bool)
    ensures
        b == starts_expr(peek(token_views(tokens@), pos as int)),
        b ==> pos < tokens.len(),
{
    if pos < tokens.len() {
        match &tokens[pos].token {
            Token::Int(_) => true,
            Token::Ident(_) => true,
            Token::String(_) => true,
            Token::Toss => true,
            Token::LParen => true,
            _ => false,
        }
    } else {
        false
    }
}

/// Whether a token is a mark: a keyword, an operator or a punctuation
/// sign, which carries neither text nor value.
pub open spec fn is_mark(t: TokenView) -> bool {
    !(t is Ident) && !(t is Int) && !(t is Str)
}

/// Whether the token at `pos` is the mark `mark`.
fn at_mark(tokens: &[SpannedToken], pos: usize, mark: Token) -> (b: bool)
    requires
        is_mark(mark@),
    ensures
        b == (peek(token_views(tokens@), pos as int) == Some(mark@)),
        b ==> pos < tokens.len(),
{
    if pos < tokens.len() {
        match (&tokens[pos].token, &mark) {
            (Token::Grab, Token::Grab) => true,
            (Token::Yell, Token::Yell) => true,
            (Token::Toss, Token::Toss) => true,
            (Token::Pipe, Token::Pipe) => true,
            (Token::Equals, Token::Equals) => true,
            (Token::LParen, Token::LParen) => true,
            (Token::RParen, Token::RParen) => true,
            (Token::LBrace, Token::LBrace) => true,
            (Token::RBrace, Token::RBrace) => true,
            (Token::Comma, Token::Comma) => true,
            (Token::Semicolon, Token::Semicolon) => true,
            _ => false,
        }
    } else {
        false
    }
}

/// Parses one atom starting at `pos`.
pub fn parser_atom(tokens: &[SpannedToken], pos: usize) -> (r: Result<(Expr, usize), ParseError>)
    ensures
        result_is(token_views(tokens@), pos as int, r, spec_atom(token_views(tokens@), pos as int)),
    decreases tokens.len() - pos, 0int,
{
    if pos >= tokens.len() {
        return Err(reject(tokens, pos));
    }
    match &tokens[pos].token {
        Token::Int(_) => parser_integer(tokens, pos),
        Token::Ident(_) => parser_ident(tokens, pos),
        Token::String(_) => parser_string(tokens, pos),
        Token::Toss => {
            let (effect, after_name) = match parser_name(tokens, pos + 1) {
                Ok(named) => named,
                Err(e) => {
                    return Err(e);
                },
            };
            if at_expr_start(tokens, after_name) {
                match parser_expr(tokens, after_name) {
                    Ok((arg, next)) => Ok((Expr::Toss { effect, arg: Some(Box::new(arg)) }, next)),
                    Err(e) => Err(e),
                }
            } else {
                Ok((Expr::Toss { effect, arg: None }, after_name))
            }
        },
        Token::LParen => match parser_expr(tokens, pos + 1) {
            Ok((inner, next)) => {
                if at_mark(tokens, next, Token::RParen) {
                    Ok((inner, next + 1))
                } else {
                    Err(reject(tokens, next))
                }
            },
            Err(e) => Err(e),
        },
        _ => Err(reject(tokens, pos)),
    }
}

/// Parses one expression starting at `pos`: an atom and every `|> atom`
/// that follows it, folded to the left.
pub fn parser_expr(tokens: &[SpannedToken], pos: usize) -> (r: Result<(Expr, usize), ParseError>)
    ensures
        result_is(token_views(tokens@), pos as int, r, spec_expr(token_views(tokens@), pos as int)),
    decreases tokens.len() - pos, 2int,
{
    let ghost ts = token_views(tokens@);
    let (first, after_first) = match parser_atom(tokens, pos) {
        Ok(parsed) => parsed,
        Err(e) => {
            return Err(e);
        },
    };
    let mut left = first;
    let mut next = after_first;
    while at_mark(tokens, next, Token::Pipe)
        invariant
            ts == token_views(tokens@),
            advances(ts, pos as int, next as int),
            spec_expr(ts, pos as int) == spec_pipeline_tail(ts, left@, next as int),
        decreases tokens.len() - next,
    {
        match parser_atom(tokens, next + 1) {
            Ok((right, after)) => {
                left = Expr::Pipeline(Box::new(left), Box::new(right));
                next = after;
            },
            Err(e) => {
                return Err(e);
            },
        }
    }
    Ok((left, next))
}

/// Parses an expression and the `;` that ends it.
fn parser_terminated(tokens: &[SpannedToken], pos: usize) -> (r: Result<(Expr, usize), ParseError>)
    ensures
        result_is(
            token_views(tokens@),
            pos as int,
            r,
            spec_terminated(token_views(tokens@), spec_expr(token_views(tokens@), pos as int)),
        ),
{
    match parser_expr(tokens, pos) {
        Ok((expr, next)) => {
            if at_mark(tokens, next, Token::Semicolon) {
                Ok((expr, next + 1))
            } else {
                Err(reject(tokens, next))
            }
        },
        Err(e) => Err(e),
    }
}

/// Parses a `grab` statement starting at `pos`.
pub fn parser_let(tokens: &[SpannedToken], pos: usize) -> (r: Result<(Statement, usize), ParseError>)
    ensures
        result_is(token_views(tokens@), pos as int, r, spec_let(token_views(tokens@), pos as int)),
{
    if !at_mark(tokens, pos, Token::Grab) {
        return Err(reject(tokens, pos));
    }
    let (name, after_name) = match parser_name(tokens, pos + 1) {
        Ok(named) => named,
        Err(e) => {
            return Err(e);
        },
    };
    if !at_mark(tokens, after_name, Token::Equals) {
        return Err(reject(tokens, after_name));
    }
    match parser_terminated(tokens, after_name + 1) {
        Ok((expr, next)) => Ok((Statement::Let { name, expr }, next)),
        Err(e) => Err(e),
    }
}

/// Parses a `yell` statement starting at `pos`.
pub fn parser_yell(tokens: &[SpannedToken], pos: usize) -> (r: Result<(Statement, usize), ParseError>)
    ensures
        result_is(token_views(tokens@), pos as int, r, spec_yell(token_views(tokens@), pos as int)),
{
    if !at_mark(tokens, pos, Token::Yell) {
        return Err(reject(tokens, pos));
    }
    match parser_terminated(tokens, pos + 1) {
        Ok((expr, next)) => Ok((Statement::Yell { expr }, next)),
        Err(e) => Err(e),
    }
}

/// Parses an expression statement starting at `pos`.
pub fn parser_expr_stmt(tokens: &[SpannedToken], pos: usize) -> (r: Result<
    (Statement, usize),
    ParseError,
>)
    ensures
        result_is(
            token_views(tokens@),
            pos as int,
            r,
            spec_expr_stmt(token_views(tokens@), pos as int),
        ),
{
    match parser_terminated(tokens, pos) {
        Ok((expr, next)) => Ok((Statement::ExprStmt(expr), next)),
        Err(e) => Err(e),
    }
}

/// Parses one statement starting at `pos`, of the kind its first token
/// announces.
pub fn parser_statement(tokens: &[SpannedToken], pos: usize) -> (r: Result<
    (Statement, usize),
    ParseError,
>)
    ensures
        result_is(
            token_views(tokens@),
            pos as int,
            r,
            spec_statement(token_views(tokens@), pos as int),
        ),
{
    if at_mark(tokens, pos, Token::Grab) {
        parser_let(tokens, pos)
    } else if at_mark(tokens, pos, Token::Yell) {
        parser_yell(tokens, pos)
    } else {
        parser_expr_stmt(tokens, pos)
    }
}

/// Parses a whole program: statements up to the end of the input. The first
/// rejection ends the parse and is the error returned.
pub fn parser_program(tokens: &[SpannedToken]) -> (r: Result<Ast, ParseError>)
    ensures
        match r {
            Ok(ast) => spec_program(token_views(tokens@)) == Ok::<Seq<StatementView>, int>(ast@),
            Err(e) => spec_program(token_views(tokens@)) is Err && e@ == error_at(
                token_views(tokens@),
                spec_program(token_views(tokens@))->Err_0,
            ),
        },
{
    let ghost ts = token_views(tokens@);
    let mut items: Vec<Statement> = Vec::new();
    let mut pos: usize = 0;
    proof {
        assert(items@.map_values(|s: Statement| s@) =~= Seq::<StatementView>::empty());
    }
    while pos < tokens.len()
        invariant
            ts == token_views(tokens@),
            pos <= tokens.len(),
            spec_program(ts) == spec_statements(
                ts,
                pos as int,
                items@.map_values(|s: Statement| s@),
            ),
        decreases tokens.len() - pos,
    {
        match parser_statement(tokens, pos) {
            Ok((stmt, next)) => {
                proof {
                    assert(items@.push(stmt).map_values(|s: Statement| s@) =~= items@.map_values(
                        |s: Statement| s@,
                    ).push(stmt@));
                }
                items.push(stmt);
                pos = next;
            },
            Err(e) => {
                return Err(e);
            },
        }
    }
    Ok(Ast { items })
}

/// The parser of the language.
#[derive(Debug, Clone, Copy, PartialEq, Eq, Structural)]
pub struct SauceParser;

impl SauceParser {
    pub fn new() -> (parser: SauceParser)
        ensures
            parser == SauceParser,
    {
        SauceParser
    }

    /// Parses a whole program. A malformed input is reported as text: the
    /// message of the first rejection, carried by `Generic`.
    pub fn parse(&self, tokens: &[SpannedToken]) -> (r: Result<Ast, ParseError>)
        ensures
            match r {
                Ok(ast) => spec_program(token_views(tokens@)) == Ok::<Seq<StatementView>, int>(
                    ast@,
                ),
                Err(e) => spec_program(token_views(tokens@)) is Err && e@
                    == ParseErrorView::Generic(
                    parse_error_text(
                        error_at(token_views(tokens@), spec_program(token_views(tokens@))->Err_0),
                    ),
                ),
            },
    {
        match parser_program(tokens) {
            Ok(ast) => Ok(ast),
            Err(first) => Err(Self::map_error(&first)),
        }
    }

    /// Turns a rejection into the error that carries its message.
    fn map_error(err: &ParseError) -> (e: ParseError)
        ensures
            e@ == ParseErrorView::Generic(parse_error_text(err@)),
    {
        ParseError::Generic(err.message())
    }
}

/// A rule that accepts consumes at least one token and stays inside the
/// input; a rule that rejects does so at a position from its start on, at
/// most one behind the last token.
pub proof fn lemma_expr_progress(ts: Seq<SpannedTokenView>, pos: int)
    requires
        0 <= pos,
    ensures
        spec_atom(ts, pos) matches Ok((_, next)) ==> advances(ts, pos, next),
        spec_atom(ts, pos) matches Err(at) ==> pos <= at && (at <= ts.len() || at == pos),
        spec_expr(ts, pos) matches Ok((_, next)) ==> advances(ts, pos, next),
        spec_expr(ts, pos) matches Err(at) ==> pos <= at && (at <= ts.len() || at == pos),
    decreases ts.len() - pos, 3int,
{
    match peek(ts, pos) {
        Some(TokenView::Toss) => {
            if peek(ts, pos + 1) is Some && starts_expr(peek(ts, pos + 2)) {
                lemma_expr_progress(ts, pos + 2);
            }
        },
        Some(TokenView::LParen) => {
            lemma_expr_progress(ts, pos + 1);
        },
        _ => {},
    }
    match spec_atom(ts, pos) {
        Ok((first, next)) => {
            lemma_tail_progress(ts, first, next);
        },
        Err(_) => {},
    }
}

/// The same for the tail of a pipeline, which may consume nothing.
pub proof fn lemma_tail_progress(ts: Seq<SpannedTokenView>, left: ExprView, pos: int)
    requires
        0 <= pos <= ts.len(),
    ensures
        spec_pipeline_tail(ts, left, pos) matches Ok((_, next)) ==> pos <= next <= ts.len(),
        spec_pipeline_tail(ts, left, pos) matches Err(at) ==> pos < at <= ts.len(),
    decreases ts.len() - pos, 1int,
{
    if peek(ts, pos) == Some(TokenView::Pipe) {
        lemma_expr_progress(ts, pos + 1);
        match spec_atom(ts, pos + 1) {
            Ok((right, next)) => {
                lemma_tail_progress(
                    ts,
                    ExprView::Pipeline(Box::new(left), Box::new(right)),
                    next,
                );
            },
            Err(_) => {},
        }
    }
}

/// The pipeline operator associates to the left: where three atoms `a`, `b`
/// and `c` stand with `|>` between them and no `|>` behind them, the
/// expression read is `(a |> b) |> c`.
pub proof fn lemma_pipeline_associates_left(
    ts: Seq<SpannedTokenView>,
    pos: int,
    a: ExprView,
    b: ExprView,
    c: ExprView,
    after_a: int,
    after_b: int,
    after_c: int,
)
    requires
        0 <= pos,
        spec_atom(ts, pos) == Ok::<(ExprView, int), int>((a, after_a)),
        peek(ts, after_a) == Some(TokenView::Pipe),
        spec_atom(ts, after_a + 1) == Ok::<(ExprView, int), int>((b, after_b)),
        peek(ts, after_b) == Some(TokenView::Pipe),
        spec_atom(ts, after_b + 1) == Ok::<(ExprView, int), int>((c, after_c)),
        peek(ts, after_c) != Some(TokenView::Pipe),
    ensures
        spec_expr(ts, pos) == Ok::<(ExprView, int), int>(
            (
                ExprView::Pipeline(
                    Box::new(ExprView::Pipeline(Box::new(a), Box::new(b))),
                    Box::new(c),
                ),
                after_c,
            ),
        ),
{
    lemma_expr_progress(ts, pos);
    lemma_expr_progress(ts, after_a + 1);
    lemma_expr_progress(ts, after_b + 1);
    let ab = ExprView::Pipeline(Box::new(a), Box::new(b));
    let abc = ExprView::Pipeline(Box::new(ab), Box::new(c));
    assert(spec_pipeline_tail(ts, abc, after_c) == Ok::<(ExprView, int), int>((abc, after_c)));
    assert(spec_pipeline_tail(ts, ab, after_b) == spec_pipeline_tail(ts, abc, after_c));
    assert(spec_pipeline_tail(ts, a, after_a) == spec_pipeline_tail(ts, ab, after_b));
}

} // verus!
