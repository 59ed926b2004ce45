//! The evaluation rules.
//!
//! Evaluating an expression ends in one of three ways: with a value, with an
//! effect that unwinds the expression, or with an error. Effects and errors
//! travel on separate channels; only at the top of a program, where no
//! handler exists, does an effect become the error `UnhandledEffect`.

use crate::ast::ast::{pipeline_name, Ast, Expr, ExprView, Statement, StatementView};
use crate::interpreter::effects::{Effect, EffectView};
use crate::interpreter::env::RuntimeEnv;
use crate::interpreter::error::{RuntimeError, RuntimeErrorView};
use crate::interpreter::value::{value_views, Value, ValueView};
use vstd::prelude::*;
use vstd::string::StringExecFns;

verus! {

/// Why an evaluation stopped short of a value.
#[derive(Debug)]
pub enum Control {
    /// An effect was raised and looks for a handler.
    Effect(Effect),
    /// The evaluation failed.
    Error(RuntimeError),
}

/// Mathematical value of a [`Control`].
pub enum ControlView {
    Effect(EffectView),
    Error(RuntimeErrorView),
}

impl View for Control {
    type V = ControlView;

    open spec fn view(&self) -> ControlView {
        match self {
            Control::Effect(effect) => ControlView::Effect(effect@),
            Control::Error(error) => ControlView::Error(error@),
        }
    }
}

impl From<RuntimeError> for Control {
    fn from(e: RuntimeError) -> (control: Control) {
        Control::Error(e)
    }
}

impl vstd::std_specs::convert::FromSpecImpl<RuntimeError> for Control {
    open spec fn obeys_from_spec() -> bool {
        true
    }

    open spec fn from_spec(e: RuntimeError) -> Control {
        Control::Error(e)
    }
}

/// The three ways an evaluation can end.
pub type Evaluated = Result<ValueView, ControlView>;

/// The outcome of evaluating `expr` in the scope `env`.
///
/// A pipeline evaluates its left side in `env` and its right side in `env`
/// extended by `_` at the left side's value; the extension is visible to the
/// right side alone. A `toss` evaluates its payload, if any, and raises an
/// effect that carries it. Whatever stops a subexpression stops the whole.
pub open spec fn spec_eval_expr(env: Map<Seq<char>, ValueView>, expr: ExprView) -> Evaluated
    decreases expr,
{
    match expr {
        ExprView::Int(n) => Ok(ValueView::Int(n)),
        ExprView::Str(text) => Ok(ValueView::Str(text)),
        ExprView::Ident(name) => if env.contains_key(name) {
            Ok(env[name])
        } else {
            Err(ControlView::Error(RuntimeErrorView::UnknownVariable(name)))
        },
        ExprView::Pipeline(left, right) => match spec_eval_expr(env, *left) {
            Ok(value) => spec_eval_expr(env.insert(pipeline_name(), value), *right),
            Err(stop) => Err(stop),
        },
        ExprView::Toss { effect, arg } => match arg {
            Some(payload) => match spec_eval_expr(env, *payload) {
                Ok(value) => Err(
                    ControlView::Effect(EffectView { name: effect, payload: Some(value) }),
                ),
                Err(stop) => Err(stop),
            },
            None => Err(ControlView::Effect(EffectView { name: effect, payload: None })),
        },
    }
}

/// What one statement does: the scope it leaves, the values it prints, and
/// what stopped it, if anything did.
pub struct Step {
    pub env: Map<Seq<char>, ValueView>,
    pub yelled: Seq<ValueView>,
    pub stop: Option<ControlView>,
}

/// The step `stmt` takes from the scope `env`. A `Let` that reaches a value
/// binds its name; a `Yell` that reaches a value prints it; a statement that
/// is stopped changes nothing.
pub open spec fn spec_eval_stmt(env: Map<Seq<char>, ValueView>, stmt: StatementView) -> Step {
    match stmt {
        StatementView::Let { name, expr } => match spec_eval_expr(env, expr) {
            Ok(value) => Step { env: env.insert(name, value), yelled: Seq::empty(), stop: None },
            Err(stop) => Step { env, yelled: Seq::empty(), stop: Some(stop) },
        },
        StatementView::Yell { expr } => match spec_eval_expr(env, expr) {
            Ok(value) => Step { env, yelled: seq![value], stop: None },
            Err(stop) => Step { env, yelled: Seq::empty(), stop: Some(stop) },
        },
        StatementView::ExprStmt(expr) => match spec_eval_expr(env, expr) {
            Ok(_) => Step { env, yelled: Seq::empty(), stop: None },
            Err(stop) => Step { env, yelled: Seq::empty(), stop: Some(stop) },
        },
        StatementView::Toss { expr } => match spec_eval_expr(env, expr) {
            Ok(_) => Step { env, yelled: Seq::empty(), stop: None },
            Err(stop) => Step { env, yelled: Seq::empty(), stop: Some(stop) },
        },
    }
}

/// The error a program ends with when `stop` reaches its top level: an
/// error as it is, an effect as `UnhandledEffect` under its name.
pub open spec fn at_top_level(stop: ControlView) -> RuntimeErrorView {
    match stop {
        ControlView::Error(error) => error,
        ControlView::Effect(effect) => RuntimeErrorView::UnhandledEffect(effect.name),
    }
}

/// What a program does: the values it prints, in order, and how it ends.
pub struct Run {
    pub yelled: Seq<ValueView>,
    pub result: Result<(), RuntimeErrorView>,
}

/// Runs the statements from index `from` on, in order, from the scope `env`,
/// after `yelled` has been printed. The first statement that is stopped ends
/// the run.
pub open spec fn spec_eval_from(
    stmts: Seq<StatementView>,
    from: int,
    env: Map<Seq<char>, ValueView>,
    yelled: Seq<ValueView>,
) -> Run
    decreases stmts.len() - from,
{
    if from < 0 || from >= stmts.len() {
        Run { yelled, result: Ok(()) }
    } else {
        let step = spec_eval_stmt(env, stmts[from]);
        match step.stop {
            Some(stop) => Run { yelled: yelled + step.yelled, result: Err(at_top_level(stop)) },
            None => spec_eval_from(stmts, from + 1, step.env, yelled + step.yelled),
        }
    }
}

/// Runs a whole program from the empty scope.
pub open spec fn spec_eval_program(stmts: Seq<StatementView>) -> Run {
    spec_eval_from(stmts, 0, Map::empty(), Seq::empty())
}

/// How an evaluator's result relates to what the rules say.
pub open spec fn eval_result_is(r: Result<Value, Control>, expected: Evaluated) -> bool {
    match r {
        Ok(value) => expected == Ok::<ValueView, ControlView>(value@),
        Err(stop) => expected == Err::<ValueView, ControlView>(stop@),
    }
}

/// Evaluates `expr` in the scope `env`, which it leaves as it found it.
pub fn eval_expr(expr: &Expr, env: &mut RuntimeEnv) -> (r: Result<Value, Control>)
    ensures
        eval_result_is(r, spec_eval_expr(old(env)@, expr@)),
        final(env)@ == old(env)@,
    decreases expr,
{
    match expr {
        Expr::Int(n) => Ok(Value::Int(*n)),
        Expr::String(text) => Ok(Value::String(text.clone())),
        Expr::Ident(name) => match env.get(name.as_str()) {
            Some(value) => Ok(value),
            None => Err(Control::from(RuntimeError::UnknownVariable(name.clone()))),
        },
        Expr::Pipeline(left, right) => {
            let value = match eval_expr(left, env) {
                Ok(value) => value,
                Err(stop) => {
                    return Err(stop);
                },
            };
            let mut next_env = env.clone();
            next_env.set(String::from_str("_"), value);
            eval_expr(right, &mut next_env)
        },
        Expr::Toss { effect, arg } => {
            let payload = match arg {
                Some(inner) => match eval_expr(inner, env) {
                    Ok(value) => Some(value),
                    Err(stop) => {
                        return Err(stop);
                    },
                },
                None => None,
            };
            Err(Control::Effect(Effect { name: effect.clone(), payload }))
        },
    }
}

/// Evaluates one statement. A value that `Yell` prints is appended to `out`.
pub fn eval_stmt(stmt: &Statement, env: &mut RuntimeEnv, out: &mut Vec<Value>) -> (r: Result<
    (),
    Control,
>)
    ensures
        final(env)@ == spec_eval_stmt(old(env)@, stmt@).env,
        value_views(final(out)@) == value_views(old(out)@) + spec_eval_stmt(
            old(env)@,
            stmt@,
        ).yelled,
        match r {
            Ok(()) => spec_eval_stmt(old(env)@, stmt@).stop is None,
            Err(stop) => spec_eval_stmt(old(env)@, stmt@).stop == Some(stop@),
        },
{
    proof {
        assert(value_views(out@) + Seq::<ValueView>::empty() =~= value_views(out@));
    }
    match stmt {
        Statement::Let { name, expr } => {
            match eval_expr(expr, env) {
                Ok(value) => {
                    env.set(name.clone(), value);
                    Ok(())
                },
                Err(stop) => Err(stop),
            }
        },
        Statement::Yell { expr } => {
            match eval_expr(expr, env) {
                Ok(value) => {
                    proof {
                        assert(value_views(out@.push(value)) =~= value_views(out@) + seq![value@]);
                    }
                    out.push(value);
                    Ok(())
                },
                Err(stop) => Err(stop),
            }
        },
        Statement::ExprStmt(expr) => {
            match eval_expr(expr, env) {
                Ok(_) => Ok(()),
                Err(stop) => Err(stop),
            }
        },
        Statement::Toss { expr } => {
            match eval_expr(expr, env) {
                Ok(_) => Ok(()),
                Err(stop) => Err(stop),
            }
        },
    }
}

/// Runs a program from the empty scope, statement by statement. The values
/// it prints are appended to `out` in the order of the statements that
/// print them; the first statement that is stopped ends the run, and an
/// effect that stops it is reported as unhandled.
pub fn eval_program(ast: &Ast, out: &mut Vec<Value>) -> (r: Result<(), RuntimeError>)
    ensures
        value_views(final(out)@) == value_views(old(out)@) + spec_eval_program(ast@).yelled,
        match r {
            Ok(()) => spec_eval_program(ast@).result == Ok::<(), RuntimeErrorView>(()),
            Err(e) => spec_eval_program(ast@).result == Err::<(), RuntimeErrorView>(e@),
        },
{
    let mut env = RuntimeEnv::new();
    let ghost mut yelled: Seq<ValueView> = Seq::empty();
    let mut i: usize = 0;
    proof {
        assert(value_views(out@) + yelled =~= value_views(out@));
    }
    while i < ast.items.len()
        invariant
            i <= ast.items.len(),
            value_views(out@) == value_views(old(out)@) + yelled,
            spec_eval_program(ast@) == spec_eval_from(ast@, i as int, env@, yelled),
        decreases ast.items.len() - i,
    {
        let ghost step = spec_eval_stmt(env@, ast@[i as int]);
        proof {
            assert((value_views(old(out)@) + yelled) + step.yelled =~= value_views(old(out)@) + (
            yelled + step.yelled));
        }
        match eval_stmt(&ast.items[i], &mut env, out) {
            Ok(()) => {},
            Err(Control::Error(e)) => {
                return Err(e);
            },
            Err(Control::Effect(effect)) => {
                return Err(RuntimeError::UnhandledEffect(effect.name));
            },
        }
        proof {
            yelled = yelled + step.yelled;
        }
        i += 1;
    }
    Ok(())
}

/// A pipeline's binding of `_` is local to its right-hand side: a statement
/// changes the scope by the name a `Let` binds and by nothing else. So after
/// any statement that is not a `Let` of `_` itself, `_` is bound exactly as
/// it was before, to the same value if it was bound, and a later read of
/// `_` that found it unbound before finds it unbound still.
pub proof fn lemma_pipeline_binding_is_local(env: Map<Seq<char>, ValueView>, stmt: StatementView)
    ensures
        !(stmt is Let) ==> spec_eval_stmt(env, stmt).env == env,
        stmt matches StatementView::Let { name, .. } ==> forall|k: Seq<char>|
            k != name ==> (spec_eval_stmt(env, stmt).env.contains_key(k) == env.contains_key(k)
                && (env.contains_key(k) ==> spec_eval_stmt(env, stmt).env[k] == env[k])),
        !(stmt matches StatementView::Let { name, .. } && name == pipeline_name()) ==> {
            &&& spec_eval_stmt(env, stmt).env.contains_key(pipeline_name()) == env.contains_key(
                pipeline_name(),
            )
            &&& env.contains_key(pipeline_name()) ==> spec_eval_stmt(env, stmt).env[pipeline_name()]
                == env[pipeline_name()]
            &&& !env.contains_key(pipeline_name()) ==> spec_eval_expr(
                spec_eval_stmt(env, stmt).env,
                ExprView::Ident(pipeline_name()),
            ) == Err::<ValueView, ControlView>(
                ControlView::Error(RuntimeErrorView::UnknownVariable(pipeline_name())),
            )
        },
{
}

/// Inside a pipeline the right-hand side sees `_` bound to the value of the
/// left-hand side, whatever `_` was bound to outside.
pub proof fn lemma_pipeline_binds_left_value(
    env: Map<Seq<char>, ValueView>,
    left: ExprView,
    value: ValueView,
)
    requires
        spec_eval_expr(env, left) == Ok::<ValueView, ControlView>(value),
    ensures
        spec_eval_expr(
            env,
            ExprView::Pipeline(Box::new(left), Box::new(ExprView::Ident(pipeline_name()))),
        ) == Ok::<ValueView, ControlView>(value),
{
    reveal_with_fuel(spec_eval_expr, 2);
}

/// An effect that nothing stops on its way ends the program as
/// `UnhandledEffect` under the effect's name: a program whose first
/// statement to be stopped is stopped by an effect ends with that error,
/// after printing what the statements before it printed.
pub proof fn lemma_effect_at_top_level_is_unhandled(
    stmts: Seq<StatementView>,
    from: int,
    env: Map<Seq<char>, ValueView>,
    yelled: Seq<ValueView>,
    effect: EffectView,
)
    requires
        0 <= from < stmts.len(),
        spec_eval_stmt(env, stmts[from]).stop == Some(ControlView::Effect(effect)),
    ensures
        spec_eval_from(stmts, from, env, yelled).result == Err::<(), RuntimeErrorView>(
            RuntimeErrorView::UnhandledEffect(effect.name),
        ),
        spec_eval_from(stmts, from, env, yelled).yelled == yelled,
{
    assert(spec_eval_stmt(env, stmts[from]).yelled =~= Seq::<ValueView>::empty());
    assert(yelled + Seq::<ValueView>::empty() =~= yelled);
}

/// A `toss` never yields a value: it raises its effect, unless its payload
/// is stopped first.
pub proof fn lemma_toss_raises(
    env: Map<Seq<char>, ValueView>,
    effect: Seq<char>,
    arg: Option<Box<ExprView>>,
)
    ensures
        spec_eval_expr(env, ExprView::Toss { effect, arg }) is Err,
        arg is None ==> spec_eval_expr(env, ExprView::Toss { effect, arg }) == Err::<
            ValueView,
            ControlView,
        >(ControlView::Effect(EffectView { name: effect, payload: None })),
        arg matches Some(payload) ==> (spec_eval_expr(env, *payload) matches Ok(value)
            ==> spec_eval_expr(env, ExprView::Toss { effect, arg }) == Err::<
            ValueView,
            ControlView,
        >(ControlView::Effect(EffectView { name: effect, payload: Some(value) }))),
{
}

} // verus!
