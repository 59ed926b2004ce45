//! Statements and expressions.

use vstd::prelude::*;

verus! {

/// The name a pipeline binds its left-hand value to while its right-hand
/// side is checked or evaluated. It is an ordinary name: a program may bind
/// `_` itself, and a pipeline shadows that binding for its right-hand side
/// only.
pub open spec fn pipeline_name() -> Seq<char> {
    "_"@
}

/// A program: statements in evaluation order.
#[derive(Debug, Clone, PartialEq)]
pub struct Ast {
    pub items: Vec<Statement>,
}

#[derive(Debug, Clone, PartialEq)]
pub enum Statement {
    /// An expression evaluated for its effect.
    ExprStmt(Expr),
    /// `grab name = expr;`
    Let { name: String, expr: Expr },
    /// `yell expr;`
    Yell { expr: Expr },
    /// An effect raised as a statement of its own.
    Toss { expr: Expr },
}

#[derive(Debug, PartialEq)]
pub enum Expr {
    Ident(String),
    Int(i64),
    String(String),
    /// `left |> right`
    Pipeline(Box<Expr>, Box<Expr>),
    /// `toss effect arg?`
    Toss { effect: String, arg: Option<Box<Expr>> },
}

/// Mathematical value of an [`Expr`].
pub enum ExprView {
    Ident(Seq<char>),
    Int(i64),
    Str(Seq<char>),
    Pipeline(Box<ExprView>, Box<ExprView>),
    Toss { effect: Seq<char>, arg: Option<Box<ExprView>> },
}

/// Mathematical value of a [`Statement`].
pub enum StatementView {
    ExprStmt(ExprView),
    Let { name: Seq<char>, expr: ExprView },
    Yell { expr: ExprView },
    Toss { expr: ExprView },
}

/// The mathematical value of an expression, defined by recursion on the tree.
pub open spec fn expr_view(expr: Expr) -> ExprView
    decreases expr,
{
    match expr {
        Expr::Ident(name) => ExprView::Ident(name@),
        Expr::Int(value) => ExprView::Int(value),
        Expr::String(text) => ExprView::Str(text@),
        Expr::Pipeline(left, right) => ExprView::Pipeline(
            Box::new(expr_view(*left)),
            Box::new(expr_view(*right)),
        ),
        Expr::Toss { effect, arg } => ExprView::Toss {
            effect: effect@,
            arg: match arg {
                Some(inner) => Some(Box::new(expr_view(*inner))),
                None => None,
            },
        },
    }
}

impl View for Expr {
    type V = ExprView;

    open spec fn view(&self) -> ExprView {
        expr_view(*self)
    }
}

/// Copies an expression tree node by node.
pub fn clone_expr(expr: &Expr) -> (copy: Expr)
    ensures
        copy@ == expr@,
    decreases expr,
{
    match expr {
        Expr::Ident(name) => Expr::Ident(name.clone()),
        Expr::Int(value) => Expr::Int(*value),
        Expr::String(text) => Expr::String(text.clone()),
        Expr::Pipeline(left, right) => Expr::Pipeline(
            Box::new(clone_expr(left)),
            Box::new(clone_expr(right)),
        ),
        Expr::Toss { effect, arg } => Expr::Toss {
            effect: effect.clone(),
            arg: match arg {
                Some(inner) => Some(Box::new(clone_expr(inner))),
                None => None,
            },
        },
    }
}

impl Clone for Expr {
    fn clone(&self) -> (copy: Expr)
        ensures
            copy@ == self@,
    {
        clone_expr(self)
    }
}

impl View for Statement {
    type V = StatementView;

    open spec fn view(&self) -> StatementView {
        match self {
            Statement::ExprStmt(expr) => StatementView::ExprStmt(expr@),
            Statement::Let { name, expr } => StatementView::Let { name: name@, expr: expr@ },
            Statement::Yell { expr } => StatementView::Yell { expr: expr@ },
            Statement::Toss { expr } => StatementView::Toss { expr: expr@ },
        }
    }
}

impl View for Ast {
    type V = Seq<StatementView>;

    open spec fn view(&self) -> Seq<StatementView> {
        self.items@.map_values(|s: Statement| s@)
    }
}

} // verus!
