//! The type environment and the checking rules.

use crate::ast::ast::{Ast, Expr, ExprView, Statement, StatementView};
use crate::typechecker::errors::{TypeError, TypeErrorView};
use crate::typechecker::types::Type;
use crate::ast::ast::pipeline_name;
use crate::util::bindings::{find, keys_unique, lemma_index_of_unique, lemma_same_names, lookup, put};
use crate::util::span::Span;
use vstd::prelude::*;
use vstd::string::StringExecFns;

verus! {

/// The text reported for an identifier that is not in scope.
pub open spec fn unknown_identifier_text(name: Seq<char>) -> Seq<char> {
    "unknown identifier `"@ + name + "`"@
}

/// The span reported with an error found in the tree: the tree records no
/// source positions, so it is the empty span at the start of the text.
pub open spec fn no_position() -> Span {
    Span { start: 0, end: 0 }
}

/// Whether an expression is a bare literal.
pub open spec fn is_literal(expr: ExprView) -> bool {
    expr is Int || expr is Str
}

/// The type of `expr` in the scope `env`, or the first error met when the
/// expression is checked left to right.
///
/// A pipeline checks its left side in `env` and its right side in `env`
/// extended by `_` at the left side's type; its type is that of the right
/// side, which may not be a bare literal. An effect has type `Unit`,
/// whatever its payload, which is checked all the same.
pub open spec fn spec_typecheck_expr(env: Map<Seq<char>, Type>, expr: ExprView) -> Result<
    Type,
    TypeErrorView,
>
    decreases expr,
{
    match expr {
        ExprView::Int(_) => Ok(Type::Int),
        ExprView::Str(_) => Ok(Type::String),
        ExprView::Ident(name) => if env.contains_key(name) {
            Ok(env[name])
        } else {
            Err(TypeErrorView::Generic(unknown_identifier_text(name)))
        },
        ExprView::Toss { effect, arg } => match arg {
            Some(payload) => match spec_typecheck_expr(env, *payload) {
                Ok(_) => Ok(Type::Unit),
                Err(e) => Err(e),
            },
            None => Ok(Type::Unit),
        },
        ExprView::Pipeline(left, right) => match spec_typecheck_expr(env, *left) {
            Ok(left_ty) => if is_literal(*right) {
                Err(TypeErrorView::InvalidPipeline(no_position()))
            } else {
                spec_typecheck_expr(env.insert(pipeline_name(), left_ty), *right)
            },
            Err(e) => Err(e),
        },
    }
}

/// The scope after `stmt` has been checked in `env`: a `Let` adds its name
/// at the type of its expression, every other statement leaves the scope
/// as it was.
pub open spec fn spec_typecheck_stmt(env: Map<Seq<char>, Type>, stmt: StatementView) -> Result<
    Map<Seq<char>, Type>,
    TypeErrorView,
> {
    match stmt {
        StatementView::Let { name, expr } => match spec_typecheck_expr(env, expr) {
            Ok(ty) => Ok(env.insert(name, ty)),
            Err(e) => Err(e),
        },
        StatementView::Yell { expr } => match spec_typecheck_expr(env, expr) {
            Ok(_) => Ok(env),
            Err(e) => Err(e),
        },
        StatementView::ExprStmt(expr) => match spec_typecheck_expr(env, expr) {
            Ok(_) => Ok(env),
            Err(e) => Err(e),
        },
        StatementView::Toss { expr } => match spec_typecheck_expr(env, expr) {
            Ok(_) => Ok(env),
            Err(e) => Err(e),
        },
    }
}

/// Checks the statements from index `from` on, in order, starting in `env`;
/// the first error ends the check.
pub open spec fn spec_typecheck_from(
    stmts: Seq<StatementView>,
    from: int,
    env: Map<Seq<char>, Type>,
) -> Result<(), TypeErrorView>
    decreases stmts.len() - from,
{
    if from < 0 || from >= stmts.len() {
        Ok(())
    } else {
        match spec_typecheck_stmt(env, stmts[from]) {
            Ok(next_env) => spec_typecheck_from(stmts, from + 1, next_env),
            Err(e) => Err(e),
        }
    }
}

/// Checks a whole program, starting in the empty scope.
pub open spec fn spec_typecheck_program(stmts: Seq<StatementView>) -> Result<(), TypeErrorView> {
    spec_typecheck_from(stmts, 0, Map::empty())
}

/// The scope of the type checker: a type for each name that is bound.
#[derive(Debug)]
pub struct TypeEnv {
    vars: Vec<(String, Type)>,
}

impl View for TypeEnv {
    type V = Map<Seq<char>, Type>;

    closed spec fn view(&self) -> Map<Seq<char>, Type> {
        Map::new(
            |k: Seq<char>| lookup(self.vars@, k) is Some,
            |k: Seq<char>| lookup(self.vars@, k)->0,
        )
    }
}

impl TypeEnv {
    #[verifier::type_invariant]
    spec fn unique_names(&self) -> bool {
        keys_unique(self.vars@)
    }

    pub fn new() -> (env: TypeEnv)
        ensures
            env@ == Map::<Seq<char>, Type>::empty(),
    {
        let env = TypeEnv { vars: Vec::new() };
        proof {
            assert(env@ =~= Map::<Seq<char>, Type>::empty());
        }
        env
    }

    /// Binds `name` to `ty`, replacing what `name` was bound to before.
    pub fn insert(&mut self, name: String, ty: Type)
        ensures
            final(self)@ == old(self)@.insert(name@, ty),
    {
        proof {
            use_type_invariant(&*self);
        }
        let mut vars: Vec<(String, Type)> = Vec::new();
        core::mem::swap(&mut self.vars, &mut vars);
        put(&mut vars, name, ty);
        core::mem::swap(&mut self.vars, &mut vars);
        proof {
            assert(self@ =~= old(self)@.insert(name@, ty));
        }
    }

    /// The type `name` is bound to, if it is bound.
    pub fn get(&self, name: &str) -> (r: Option<&Type>)
        ensures
            match r {
                Some(ty) => self@.contains_key(name@) && *ty == self@[name@],
                None => !self@.contains_key(name@),
            },
    {
        proof {
            use_type_invariant(self);
        }
        match find(&self.vars, name) {
            Some(i) => {
                proof {
                    lemma_index_of_unique(self.vars@, i as int);
                }
                Some(&self.vars[i].1)
            },
            None => None,
        }
    }
}

impl Clone for TypeEnv {
    fn clone(&self) -> (copy: TypeEnv)
        ensures
            copy@ == self@,
    {
        proof {
            use_type_invariant(self);
        }
        let mut vars: Vec<(String, Type)> = Vec::new();
        let mut i: usize = 0;
        while i < self.vars.len()
            invariant
                i <= self.vars.len(),
                vars.len() == i,
                forall|j: int|
                    0 <= j < i ==> (#[trigger] vars@[j]).0@ == self.vars@[j].0@ && vars@[j].1
                        == self.vars@[j].1,
            decreases self.vars.len() - i,
        {
            let entry = &self.vars[i];
            vars.push((entry.0.clone(), entry.1));
            i += 1;
        }
        proof {
            lemma_same_names(self.vars@, vars@);
        }
        let copy = TypeEnv { vars };
        proof {
            assert(copy@ =~= self@);
        }
        copy
    }
}

/// How a checker's result relates to what the rules say.
pub open spec fn check_result_is<T>(r: Result<T, TypeError>, expected: Result<T, TypeErrorView>) -> bool {
    match r {
        Ok(value) => expected == Ok::<T, TypeErrorView>(value),
        Err(e) => expected == Err::<T, TypeErrorView>(e@),
    }
}

/// Builds the text reported for an identifier that is not in scope.
fn unknown_identifier(name: &str) -> (text: String)
    ensures
        text@ == unknown_identifier_text(name@),
{
    let mut text = String::from_str("unknown identifier `");
    text.append(name);
    text.append("`");
    text
}

/// Whether an expression is a bare literal.
fn is_bare_literal(expr: &Expr) -> (b: bool)
    ensures
        b == is_literal(expr@),
{
    match expr {
        Expr::Int(_) => true,
        Expr::String(_) => true,
        _ => false,
    }
}

/// Computes the type of `expr` in the scope `env`, or the first error met.
pub fn typecheck_expr(env: &TypeEnv, expr: &Expr) -> (r: Result<Type, TypeError>)
    ensures
        check_result_is(r, spec_typecheck_expr(env@, expr@)),
    decreases expr,
{
    match expr {
        Expr::Int(_) => Ok(Type::Int),
        Expr::String(_) => Ok(Type::String),
        Expr::Ident(name) => match env.get(name.as_str()) {
            Some(ty) => Ok(*ty),
            None => Err(TypeError::Generic(unknown_identifier(name.as_str()))),
        },
        Expr::Toss { effect: _, arg } => match arg {
            Some(payload) => match typecheck_expr(env, payload) {
                Ok(_) => Ok(Type::Unit),
                Err(e) => Err(e),
            },
            None => Ok(Type::Unit),
        },
        Expr::Pipeline(left, right) => {
            let left_ty = match typecheck_expr(env, left) {
                Ok(ty) => ty,
                Err(e) => {
                    return Err(e);
                },
            };
            if is_bare_literal(right) {
                return Err(TypeError::InvalidPipeline(Span { start: 0, end: 0 }));
            }
            let mut pipeline_env = env.clone();
            pipeline_env.insert(String::from_str("_"), left_ty);
            typecheck_expr(&pipeline_env, right)
        },
    }
}

/// Checks one statement in the scope `env`; a `Let` that checks extends the
/// scope, and nothing else changes it.
pub fn typecheck_stmt(env: &mut TypeEnv, stmt: &Statement) -> (r: Result<(), TypeError>)
    ensures
        match r {
            Ok(()) => spec_typecheck_stmt(old(env)@, stmt@) == Ok::<
                Map<Seq<char>, Type>,
                TypeErrorView,
            >(final(env)@),
            Err(e) => spec_typecheck_stmt(old(env)@, stmt@) == Err::<
                Map<Seq<char>, Type>,
                TypeErrorView,
            >(e@) && final(env)@ == old(env)@,
        },
{
    match stmt {
        Statement::Let { name, expr } => {
            match typecheck_expr(env, expr) {
                Ok(ty) => {
                    env.insert(name.clone(), ty);
                    Ok(())
                },
                Err(e) => Err(e),
            }
        },
        Statement::Yell { expr } => {
            match typecheck_expr(env, expr) {
                Ok(_) => Ok(()),
                Err(e) => Err(e),
            }
        },
        Statement::ExprStmt(expr) => {
            match typecheck_expr(env, expr) {
                Ok(_) => Ok(()),
                Err(e) => Err(e),
            }
        },
        Statement::Toss { expr } => {
            match typecheck_expr(env, expr) {
                Ok(_) => Ok(()),
                Err(e) => Err(e),
            }
        },
    }
}

/// Checks a whole program from the empty scope, statement by statement; the
/// first error ends the check and is returned.
pub fn typecheck_program(ast: &Ast) -> (r: Result<(), TypeError>)
    ensures
        check_result_is(r, spec_typecheck_program(ast@)),
{
    let mut env = TypeEnv::new();
    let mut i: usize = 0;
    while i < ast.items.len()
        invariant
            i <= ast.items.len(),
            spec_typecheck_program(ast@) == spec_typecheck_from(ast@, i as int, env@),
        decreases ast.items.len() - i,
    {
        match typecheck_stmt(&mut env, &ast.items[i]) {
            Ok(()) => {},
            Err(e) => {
                return Err(e);
            },
        }
        i += 1;
    }
    Ok(())
}

/// A pipeline's binding of `_` is local to its right-hand side: checking a
/// statement changes the scope by the name a `Let` binds and by nothing
/// else, so `_` is typed after a statement as it was before, unless the
/// statement is a `Let` of `_` itself.
pub proof fn lemma_pipeline_typing_is_local(env: Map<Seq<char>, Type>, stmt: StatementView)
    requires
        spec_typecheck_stmt(env, stmt) is Ok,
    ensures
        !(stmt is Let) ==> spec_typecheck_stmt(env, stmt)->Ok_0 == env,
        stmt matches StatementView::Let { name, .. } ==> forall|k: Seq<char>|
            k != name ==> (spec_typecheck_stmt(env, stmt)->Ok_0.contains_key(k)
                == env.contains_key(k) && (env.contains_key(k) ==> spec_typecheck_stmt(
                env,
                stmt,
            )->Ok_0[k] == env[k])),
{
}

} // verus!
