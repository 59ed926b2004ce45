//! The concrete syntax of a tree: the tokens a tree is written with, and
//! the law that the parser reads every tree back from them.
//!
//! An operand that is itself a pipeline, and an effect with a payload, are
//! written in parentheses; the left operand of a pipeline that is a pipeline
//! is not, since the operator associates to the left.

use crate::ast::ast::{ExprView, StatementView};
use crate::lexer::lexer::SpannedTokenView;
use crate::lexer::token::TokenView;
use crate::parser::parser::{
    advances, peek, spec_atom, spec_expr, spec_pipeline_tail, spec_program, spec_statement,
    spec_statements, spec_terminated, starts_expr, Parsed,
};
use vstd::prelude::*;

verus! {

/// The tokens of an expression that is no pipeline.
pub open spec fn leaf_tokens(expr: ExprView) -> Seq<TokenView>
    decreases expr, 0int,
{
    match expr {
        ExprView::Int(value) => seq![TokenView::Int(value)],
        ExprView::Ident(name) => seq![TokenView::Ident(name)],
        ExprView::Str(text) => seq![TokenView::Str(text)],
        ExprView::Toss { effect, arg } => match arg {
            Some(payload) => seq![TokenView::LParen, TokenView::Toss, TokenView::Ident(effect)]
                + expr_tokens(*payload) + seq![TokenView::RParen],
            None => seq![TokenView::Toss, TokenView::Ident(effect)],
        },
        ExprView::Pipeline(_, _) => Seq::empty(),
    }
}

/// The tokens of an expression where an expression may stand.
pub open spec fn expr_tokens(expr: ExprView) -> Seq<TokenView>
    decreases expr, 1int,
{
    match expr {
        ExprView::Pipeline(left, right) => expr_tokens(*left) + seq![TokenView::Pipe]
            + atom_tokens(*right),
        _ => leaf_tokens(expr),
    }
}

/// The tokens of an expression where only an atom may stand.
pub open spec fn atom_tokens(expr: ExprView) -> Seq<TokenView>
    decreases expr, 2int,
{
    match expr {
        ExprView::Pipeline(_, _) => seq![TokenView::LParen] + expr_tokens(expr) + seq![
            TokenView::RParen,
        ],
        _ => leaf_tokens(expr),
    }
}

/// The statement a statement is read back as: an effect raised as a
/// statement has no syntax of its own and is written, and read, as an
/// expression statement.
pub open spec fn as_written(stmt: StatementView) -> StatementView {
    match stmt {
        StatementView::Toss { expr } => StatementView::ExprStmt(expr),
        _ => stmt,
    }
}

/// The tokens of a statement.
pub open spec fn stmt_tokens(stmt: StatementView) -> Seq<TokenView> {
    match stmt {
        StatementView::Let { name, expr } => seq![
            TokenView::Grab,
            TokenView::Ident(name),
            TokenView::Equals,
        ] + expr_tokens(expr) + seq![TokenView::Semicolon],
        StatementView::Yell { expr } => seq![TokenView::Yell] + expr_tokens(expr) + seq![
            TokenView::Semicolon,
        ],
        StatementView::ExprStmt(expr) => expr_tokens(expr) + seq![TokenView::Semicolon],
        StatementView::Toss { expr } => expr_tokens(expr) + seq![TokenView::Semicolon],
    }
}

/// The tokens of the statements from index `from` on.
pub open spec fn program_tokens(stmts: Seq<StatementView>, from: int) -> Seq<TokenView>
    decreases stmts.len() - from,
{
    if from < 0 || from >= stmts.len() {
        Seq::empty()
    } else {
        stmt_tokens(stmts[from]) + program_tokens(stmts, from + 1)
    }
}

/// The statements from index `from` on, each as it is read back.
pub open spec fn statements_as_written(stmts: Seq<StatementView>, from: int) -> Seq<
    StatementView,
>
    decreases stmts.len() - from,
{
    if from < 0 || from >= stmts.len() {
        Seq::empty()
    } else {
        seq![as_written(stmts[from])] + statements_as_written(stmts, from + 1)
    }
}

/// Whether `tokens` are the tokens that stand in `ts` from `pos` on,
/// whatever their spans.
pub open spec fn reads_at(ts: Seq<SpannedTokenView>, pos: int, tokens: Seq<TokenView>) -> bool {
    &&& 0 <= pos
    &&& pos + tokens.len() <= ts.len()
    &&& forall|i: int| 0 <= i < tokens.len() ==> (#[trigger] ts[pos + i]).token == tokens[i]
}

/// Whether an expression, as written, ends with an effect without payload:
/// the one place where what follows decides how it is read.
pub open spec fn ends_open(expr: ExprView) -> bool {
    match expr {
        ExprView::Pipeline(_, right) => *right matches ExprView::Toss { arg: None, .. },
        ExprView::Toss { arg: None, .. } => true,
        _ => false,
    }
}

/// Tokens that stand at a position stand there part by part.
pub proof fn lemma_reads_at_split(
    ts: Seq<SpannedTokenView>,
    pos: int,
    a: Seq<TokenView>,
    b: Seq<TokenView>,
)
    requires
        reads_at(ts, pos, a + b),
    ensures
        reads_at(ts, pos, a),
        reads_at(ts, pos + a.len(), b),
{
    assert forall|i: int| 0 <= i < a.len() implies (#[trigger] ts[pos + i]).token == a[i] by {
        assert((a + b)[i] == a[i]);
    }
    assert forall|i: int| 0 <= i < b.len() implies (#[trigger] ts[pos + a.len() + i]).token
        == b[i] by {
        assert((a + b)[a.len() + i] == b[i]);
        assert(ts[pos + (a.len() + i)].token == (a + b)[a.len() + i]);
    }
}

/// An expression is written with at least one token, and the first can
/// begin an expression.
pub proof fn lemma_first_token(expr: ExprView)
    ensures
        leaf_tokens(expr).len() > 0 || expr is Pipeline,
        !(expr is Pipeline) ==> starts_expr(Some(leaf_tokens(expr)[0])),
        expr_tokens(expr).len() > 0,
        starts_expr(Some(expr_tokens(expr)[0])),
        atom_tokens(expr).len() > 0,
        starts_expr(Some(atom_tokens(expr)[0])),
    decreases expr,
{
    match expr {
        ExprView::Pipeline(left, right) => {
            lemma_first_token(*left);
            lemma_first_token(*right);
            assert(expr_tokens(expr)[0] == expr_tokens(*left)[0]);
        },
        ExprView::Toss { effect, arg } => {
            match arg {
                Some(payload) => {
                    lemma_first_token(*payload);
                },
                None => {},
            }
        },
        _ => {},
    }
}

/// An expression that is no pipeline, written where an atom may stand, is
/// read back as an atom, up to the end of its tokens. Behind an effect
/// without payload no token may follow that can begin an expression.
pub proof fn lemma_reads_leaf(ts: Seq<SpannedTokenView>, pos: int, expr: ExprView)
    requires
        !(expr is Pipeline),
        reads_at(ts, pos, leaf_tokens(expr)),
        ends_open(expr) ==> !starts_expr(peek(ts, pos + leaf_tokens(expr).len())),
    ensures
        spec_atom(ts, pos) == Ok::<(ExprView, int), int>((expr, pos + leaf_tokens(expr).len())),
    decreases expr, 0int,
{
    let tokens = leaf_tokens(expr);
    match expr {
        ExprView::Int(_) => {
            assert(ts[pos + 0].token == tokens[0]);
        },
        ExprView::Ident(_) => {
            assert(ts[pos + 0].token == tokens[0]);
        },
        ExprView::Str(_) => {
            assert(ts[pos + 0].token == tokens[0]);
        },
        ExprView::Toss { effect, arg } => {
            match arg {
                None => {
                    assert(ts[pos + 0].token == tokens[0]);
                    assert(ts[pos + 1].token == tokens[1]);
                },
                Some(payload) => {
                    let head = seq![TokenView::LParen, TokenView::Toss, TokenView::Ident(effect)];
                    let body = expr_tokens(*payload);
                    let tail = seq![TokenView::RParen];
                    lemma_first_token(*payload);
                    lemma_reads_at_split(ts, pos, head + body, tail);
                    lemma_reads_at_split(ts, pos, head, body);
                    assert(ts[pos + 0].token == head[0]);
                    assert(ts[pos + 1].token == head[1]);
                    assert(ts[pos + 2].token == head[2]);
                    let end = pos + 3 + body.len();
                    assert(ts[end + 0].token == tail[0]);
                    assert(ts[pos + 3 + 0].token == body[0]);
                    assert(peek(ts, end) == Some(TokenView::RParen));
                    assert(starts_expr(peek(ts, pos + 3)));
                    lemma_reads_expr(ts, pos + 3, *payload);
                    assert(spec_expr(ts, pos + 3) == Ok::<(ExprView, int), int>((*payload, end)));
                    assert(spec_atom(ts, pos + 1) == Ok::<(ExprView, int), int>((expr, end)));
                    assert(spec_pipeline_tail(ts, expr, end) == Ok::<(ExprView, int), int>(
                        (expr, end),
                    ));
                    assert(spec_expr(ts, pos + 1) == Ok::<(ExprView, int), int>((expr, end)));
                    assert(tokens.len() == body.len() + 4);
                },
            }
        },
        ExprView::Pipeline(_, _) => {},
    }
}

/// An expression written where an expression may stand is read back up to
/// the end of its tokens, from where the parser goes on to look for `|>`.
pub proof fn lemma_reads_expr(ts: Seq<SpannedTokenView>, pos: int, expr: ExprView)
    requires
        reads_at(ts, pos, expr_tokens(expr)),
        ends_open(expr) ==> !starts_expr(peek(ts, pos + expr_tokens(expr).len())),
    ensures
        spec_expr(ts, pos) == spec_pipeline_tail(ts, expr, pos + expr_tokens(expr).len()),
    decreases expr, 1int,
{
    match expr {
        ExprView::Pipeline(left, right) => {
            let first = expr_tokens(*left);
            let bar = seq![TokenView::Pipe];
            let last = atom_tokens(*right);
            lemma_first_token(*right);
            lemma_reads_at_split(ts, pos, first + bar, last);
            lemma_reads_at_split(ts, pos, first, bar);
            let mid = pos + first.len();
            assert(ts[mid + 0].token == bar[0]);
            assert(peek(ts, mid) == Some(TokenView::Pipe));
            lemma_reads_expr(ts, pos, *left);
            let end = mid + 1 + last.len();
            assert(expr_tokens(expr).len() == first.len() + 1 + last.len());
            lemma_reads_atom(ts, mid + 1, *right);
            assert(spec_atom(ts, mid + 1) == Ok::<(ExprView, int), int>((*right, end)));
            assert(advances(ts, mid, end));
            assert(spec_pipeline_tail(ts, *left, mid) == spec_pipeline_tail(ts, expr, end));
        },
        _ => {
            lemma_first_token(expr);
            lemma_reads_leaf(ts, pos, expr);
        },
    }
}

/// An expression written where only an atom may stand is read back as an
/// atom, up to the end of its tokens.
pub proof fn lemma_reads_atom(ts: Seq<SpannedTokenView>, pos: int, expr: ExprView)
    requires
        reads_at(ts, pos, atom_tokens(expr)),
        expr matches ExprView::Toss { arg: None, .. } ==> !starts_expr(
            peek(ts, pos + atom_tokens(expr).len()),
        ),
    ensures
        spec_atom(ts, pos) == Ok::<(ExprView, int), int>((expr, pos + atom_tokens(expr).len())),
    decreases expr, 2int,
{
    match expr {
        ExprView::Pipeline(_, _) => {
            let open = seq![TokenView::LParen];
            let body = expr_tokens(expr);
            let close = seq![TokenView::RParen];
            lemma_first_token(expr);
            lemma_reads_at_split(ts, pos, open + body, close);
            lemma_reads_at_split(ts, pos, open, body);
            assert(ts[pos + 0].token == open[0]);
            let end = pos + 1 + body.len();
            assert(ts[end + 0].token == close[0]);
            assert(peek(ts, end) == Some(TokenView::RParen));
            lemma_reads_expr(ts, pos + 1, expr);
            assert(spec_pipeline_tail(ts, expr, end) == Ok::<(ExprView, int), int>((expr, end)));
            assert(atom_tokens(expr).len() == body.len() + 2);
        },
        _ => {
            lemma_reads_leaf(ts, pos, expr);
        },
    }
}

/// An expression and the `;` behind it are read back as the expression.
pub proof fn lemma_reads_terminated(ts: Seq<SpannedTokenView>, pos: int, expr: ExprView)
    requires
        reads_at(ts, pos, expr_tokens(expr) + seq![TokenView::Semicolon]),
    ensures
        spec_terminated(ts, spec_expr(ts, pos)) == Ok::<(ExprView, int), int>(
            (expr, pos + expr_tokens(expr).len() + 1),
        ),
{
    let body = expr_tokens(expr);
    let semi = seq![TokenView::Semicolon];
    lemma_reads_at_split(ts, pos, body, semi);
    let end = pos + body.len();
    assert(ts[end + 0].token == semi[0]);
    assert(peek(ts, end) == Some(TokenView::Semicolon));
    lemma_reads_expr(ts, pos, expr);
    assert(spec_pipeline_tail(ts, expr, end) == Ok::<(ExprView, int), int>((expr, end)));
}

/// A statement is read back from its tokens as it is written.
pub proof fn lemma_reads_statement(ts: Seq<SpannedTokenView>, pos: int, stmt: StatementView)
    requires
        reads_at(ts, pos, stmt_tokens(stmt)),
    ensures
        spec_statement(ts, pos) == Ok::<(StatementView, int), int>(
            (as_written(stmt), pos + stmt_tokens(stmt).len()),
        ),
        stmt_tokens(stmt).len() > 0,
{
    let semi = seq![TokenView::Semicolon];
    match stmt {
        StatementView::Let { name, expr } => {
            let head = seq![TokenView::Grab, TokenView::Ident(name), TokenView::Equals];
            let body = expr_tokens(expr);
            assert(stmt_tokens(stmt) =~= head + (body + semi));
            lemma_reads_at_split(ts, pos, head, body + semi);
            assert(ts[pos + 0].token == head[0]);
            assert(ts[pos + 1].token == head[1]);
            assert(ts[pos + 2].token == head[2]);
            lemma_reads_terminated(ts, pos + 3, expr);
        },
        StatementView::Yell { expr } => {
            let head = seq![TokenView::Yell];
            let body = expr_tokens(expr);
            assert(stmt_tokens(stmt) =~= head + (body + semi));
            lemma_reads_at_split(ts, pos, head, body + semi);
            assert(ts[pos + 0].token == head[0]);
            lemma_reads_terminated(ts, pos + 1, expr);
        },
        StatementView::ExprStmt(expr) => {
            lemma_first_token(expr);
            lemma_reads_at_split(ts, pos, expr_tokens(expr), semi);
            assert(ts[pos + 0].token == expr_tokens(expr)[0]);
            lemma_reads_terminated(ts, pos, expr);
        },
        StatementView::Toss { expr } => {
            lemma_first_token(expr);
            lemma_reads_at_split(ts, pos, expr_tokens(expr), semi);
            assert(ts[pos + 0].token == expr_tokens(expr)[0]);
            lemma_reads_terminated(ts, pos, expr);
        },
    }
}

/// The statements from index `from` on are read back from their tokens,
/// behind the statements `acc` already read.
pub proof fn lemma_reads_statements(
    ts: Seq<SpannedTokenView>,
    pos: int,
    stmts: Seq<StatementView>,
    from: int,
    acc: Seq<StatementView>,
)
    requires
        0 <= from <= stmts.len(),
        reads_at(ts, pos, program_tokens(stmts, from)),
        pos + program_tokens(stmts, from).len() == ts.len(),
    ensures
        spec_statements(ts, pos, acc) == Ok::<Seq<StatementView>, int>(
            acc + statements_as_written(stmts, from),
        ),
    decreases stmts.len() - from,
{
    if from >= stmts.len() {
        assert(acc + statements_as_written(stmts, from) =~= acc);
    } else {
        let first = stmt_tokens(stmts[from]);
        let rest = program_tokens(stmts, from + 1);
        lemma_reads_at_split(ts, pos, first, rest);
        lemma_reads_statement(ts, pos, stmts[from]);
        let next = pos + first.len();
        lemma_reads_statements(ts, next, stmts, from + 1, acc.push(as_written(stmts[from])));
        assert(acc.push(as_written(stmts[from])) + statements_as_written(stmts, from + 1) =~= acc
            + statements_as_written(stmts, from));
    }
}

/// The parser reads every program back from the tokens it is written with:
/// whatever the spans of the tokens, a token sequence that spells the
/// statements `stmts` parses to exactly those statements, as written.
pub proof fn lemma_parse_inverts_writing(ts: Seq<SpannedTokenView>, stmts: Seq<StatementView>)
    requires
        reads_at(ts, 0, program_tokens(stmts, 0)),
        ts.len() == program_tokens(stmts, 0).len(),
    ensures
        spec_program(ts) == Ok::<Seq<StatementView>, int>(statements_as_written(stmts, 0)),
{
    lemma_reads_statements(ts, 0, stmts, 0, Seq::empty());
    assert(Seq::<StatementView>::empty() + statements_as_written(stmts, 0)
        =~= statements_as_written(stmts, 0));
}

} // verus!
