//! What the type checker guarantees of evaluation: a program that checks
//! never reads an unbound name when it runs, and every value it computes
//! has the type the checker gave its expression.

use crate::ast::ast::{pipeline_name, ExprView, StatementView};
use crate::interpreter::eval::{
    spec_eval_expr, spec_eval_from, spec_eval_program, spec_eval_stmt, ControlView,
};
use crate::interpreter::value::ValueView;
use crate::typechecker::checker::{
    spec_typecheck_expr, spec_typecheck_from, spec_typecheck_program, spec_typecheck_stmt,
};
use crate::typechecker::types::Type;
use vstd::prelude::*;

verus! {

/// The type of a runtime value.
pub open spec fn type_of_value(value: ValueView) -> Type {
    match value {
        ValueView::Int(_) => Type::Int,
        ValueView::Str(_) => Type::String,
        ValueView::Unit => Type::Unit,
    }
}

/// A runtime scope agrees with a type scope when it binds every name the
/// type scope binds, to a value of the type recorded there.
pub open spec fn scope_agrees(
    types: Map<Seq<char>, Type>,
    values: Map<Seq<char>, ValueView>,
) -> bool {
    forall|k: Seq<char>| #[trigger]
        types.contains_key(k) ==> values.contains_key(k) && type_of_value(values[k]) == types[k]
}

/// An expression that checks, evaluated in a scope that agrees with the one
/// it was checked in, yields a value of the type the checker computed or
/// raises an effect; it never fails.
pub proof fn lemma_checked_expr_evaluates(
    types: Map<Seq<char>, Type>,
    values: Map<Seq<char>, ValueView>,
    expr: ExprView,
)
    requires
        scope_agrees(types, values),
        spec_typecheck_expr(types, expr) is Ok,
    ensures
        match spec_eval_expr(values, expr) {
            Ok(value) => type_of_value(value) == spec_typecheck_expr(types, expr)->Ok_0,
            Err(ControlView::Effect(_)) => true,
            Err(ControlView::Error(_)) => false,
        },
    decreases expr,
{
    match expr {
        ExprView::Int(_) => {},
        ExprView::Str(_) => {},
        ExprView::Ident(name) => {
            assert(types.contains_key(name));
        },
        ExprView::Toss { effect, arg } => {
            match arg {
                Some(payload) => {
                    lemma_checked_expr_evaluates(types, values, *payload);
                },
                None => {},
            }
        },
        ExprView::Pipeline(left, right) => {
            lemma_checked_expr_evaluates(types, values, *left);
            match spec_eval_expr(values, *left) {
                Ok(value) => {
                    let left_ty = spec_typecheck_expr(types, *left)->Ok_0;
                    let inner_types = types.insert(pipeline_name(), left_ty);
                    let inner_values = values.insert(pipeline_name(), value);
                    assert forall|k: Seq<char>| #[trigger]
                        inner_types.contains_key(k) implies inner_values.contains_key(k)
                        && type_of_value(inner_values[k]) == inner_types[k] by {
                        if k != pipeline_name() {
                            assert(types.contains_key(k));
                        }
                    }
                    lemma_checked_expr_evaluates(inner_types, inner_values, *right);
                },
                Err(_) => {},
            }
        },
    }
}

/// A statement that checks, run in a scope that agrees with the one it was
/// checked in, is stopped by an effect or by nothing, and leaves a scope
/// that agrees with the one the checker leaves.
pub proof fn lemma_checked_stmt_runs(
    types: Map<Seq<char>, Type>,
    values: Map<Seq<char>, ValueView>,
    stmt: StatementView,
)
    requires
        scope_agrees(types, values),
        spec_typecheck_stmt(types, stmt) is Ok,
    ensures
        spec_eval_stmt(values, stmt).stop matches Some(stop) ==> stop is Effect,
        spec_eval_stmt(values, stmt).stop is None ==> scope_agrees(
            spec_typecheck_stmt(types, stmt)->Ok_0,
            spec_eval_stmt(values, stmt).env,
        ),
{
    match stmt {
        StatementView::Let { name, expr } => {
            lemma_checked_expr_evaluates(types, values, expr);
            match spec_eval_expr(values, expr) {
                Ok(value) => {
                    let ty = spec_typecheck_expr(types, expr)->Ok_0;
                    let next_types = types.insert(name, ty);
                    let next_values = values.insert(name, value);
                    assert forall|k: Seq<char>| #[trigger]
                        next_types.contains_key(k) implies next_values.contains_key(k)
                        && type_of_value(next_values[k]) == next_types[k] by {
                        if k != name {
                            assert(types.contains_key(k));
                        }
                    }
                },
                Err(_) => {},
            }
        },
        StatementView::Yell { expr } => {
            lemma_checked_expr_evaluates(types, values, expr);
        },
        StatementView::ExprStmt(expr) => {
            lemma_checked_expr_evaluates(types, values, expr);
        },
        StatementView::Toss { expr } => {
            lemma_checked_expr_evaluates(types, values, expr);
        },
    }
}

/// The same for the statements of a program from index `from` on.
pub proof fn lemma_checked_statements_run(
    stmts: Seq<StatementView>,
    from: int,
    types: Map<Seq<char>, Type>,
    values: Map<Seq<char>, ValueView>,
    yelled: Seq<ValueView>,
)
    requires
        0 <= from,
        scope_agrees(types, values),
        spec_typecheck_from(stmts, from, types) is Ok,
    ensures
        spec_eval_from(stmts, from, values, yelled).result matches Err(e) ==> e is UnhandledEffect,
    decreases stmts.len() - from,
{
    if from < stmts.len() {
        lemma_checked_stmt_runs(types, values, stmts[from]);
        let step = spec_eval_stmt(values, stmts[from]);
        if step.stop is None {
            lemma_checked_statements_run(
                stmts,
                from + 1,
                spec_typecheck_stmt(types, stmts[from])->Ok_0,
                step.env,
                yelled + step.yelled,
            );
        }
    }
}

/// A program that checks never fails with `UnknownVariable` when it runs:
/// it runs to its end, or an effect that nothing handles ends it.
pub proof fn lemma_checked_program_runs(stmts: Seq<StatementView>)
    requires
        spec_typecheck_program(stmts) is Ok,
    ensures
        spec_eval_program(stmts).result matches Err(e) ==> e is UnhandledEffect,
{
    lemma_checked_statements_run(stmts, 0, Map::empty(), Map::empty(), Seq::empty());
}

} // verus!
