use sauce::ast::ast::{Ast, Expr, Statement};
use sauce::lexer::tokenize;
use sauce::parser::SauceParser;
use sauce::typechecker::checker::TypeEnv;
use sauce::typechecker::errors::TypeError;
use sauce::typechecker::types::Type;
use sauce::typechecker::{typecheck_expr, typecheck_program, typecheck_stmt};
use sauce::util::span::Span;

fn parse(src: &str) -> Ast {
    let tokens = tokenize(src).expect("lexing failed");
    SauceParser::new().parse(&tokens).expect("parsing failed")
}

fn check(src: &str) -> Result<(), TypeError> {
    typecheck_program(&parse(src))
}

fn num(n: i64) -> Expr {
    Expr::Int(n)
}

fn ident(name: &str) -> Expr {
    Expr::Ident(name.to_string())
}

fn text(s: &str) -> Expr {
    Expr::String(s.to_string())
}

fn pipe(left: Expr, right: Expr) -> Expr {
    Expr::Pipeline(Box::new(left), Box::new(right))
}

fn toss(effect: &str, arg: Option<Expr>) -> Expr {
    Expr::Toss { effect: effect.to_string(), arg: arg.map(Box::new) }
}

fn unknown(name: &str) -> TypeError {
    TypeError::Generic(format!("unknown identifier `{}`", name))
}

fn invalid_pipeline() -> TypeError {
    TypeError::InvalidPipeline(Span { start: 0, end: 0 })
}

#[test]
fn literals_have_their_types() {
    let env = TypeEnv::new();
    assert_eq!(typecheck_expr(&env, &num(3)), Ok(Type::Int));
    assert_eq!(typecheck_expr(&env, &text("\"s\"")), Ok(Type::String));
}

#[test]
fn identifier_has_the_type_it_is_bound_to() {
    let mut env = TypeEnv::new();
    env.insert("n".to_string(), Type::Int);
    env.insert("s".to_string(), Type::String);
    env.insert("u".to_string(), Type::Unit);
    assert_eq!(typecheck_expr(&env, &ident("n")), Ok(Type::Int));
    assert_eq!(typecheck_expr(&env, &ident("s")), Ok(Type::String));
    assert_eq!(typecheck_expr(&env, &ident("u")), Ok(Type::Unit));
    assert_eq!(typecheck_expr(&env, &ident("t")), Err(unknown("t")));
}

#[test]
fn unknown_identifier_is_reported_with_its_name() {
    assert_eq!(check("yell x;"), Err(unknown("x")));
    assert_eq!(check("grab a = 1; yell a; b;"), Err(unknown("b")));
    assert_eq!(check("grab a = a;"), Err(unknown("a")));
    assert_eq!(check("_;"), Err(unknown("_")));
}

#[test]
fn pipeline_into_literal_is_invalid() {
    assert_eq!(check("grab x = 1 |> 2 |> 3;"), Err(invalid_pipeline()));
    assert_eq!(check("1 |> 2;"), Err(invalid_pipeline()));
    assert_eq!(check("1 |> \"s\";"), Err(invalid_pipeline()));
    assert_eq!(check("1 |> (2);"), Err(invalid_pipeline()));
    assert_eq!(check("grab f = 1; 1 |> f |> 3;"), Err(invalid_pipeline()));
}

#[test]
fn pipeline_has_the_type_of_its_right_side() {
    let mut env = TypeEnv::new();
    env.insert("s".to_string(), Type::String);
    assert_eq!(typecheck_expr(&env, &pipe(num(1), ident("s"))), Ok(Type::String));
    assert_eq!(typecheck_expr(&env, &pipe(ident("s"), ident("_"))), Ok(Type::String));
    assert_eq!(typecheck_expr(&env, &pipe(num(1), ident("_"))), Ok(Type::Int));
    assert_eq!(typecheck_expr(&env, &pipe(num(1), toss("e", None))), Ok(Type::Unit));
    assert_eq!(
        typecheck_expr(&env, &pipe(num(1), pipe(ident("s"), ident("_")))),
        Ok(Type::String)
    );
    assert_eq!(
        typecheck_expr(&env, &pipe(pipe(num(1), ident("s")), ident("_"))),
        Ok(Type::String)
    );
}

#[test]
fn pipeline_checks_its_left_side_first() {
    let env = TypeEnv::new();
    assert_eq!(typecheck_expr(&env, &pipe(ident("a"), num(2))), Err(unknown("a")));
    assert_eq!(typecheck_expr(&env, &pipe(ident("a"), ident("b"))), Err(unknown("a")));
    assert_eq!(typecheck_expr(&env, &pipe(num(1), ident("b"))), Err(unknown("b")));
}

#[test]
fn pipeline_binding_does_not_leak_into_the_scope() {
    assert_eq!(check("grab x = 5 |> _; yell _;"), Err(unknown("_")));
    assert_eq!(check("5 |> _; _;"), Err(unknown("_")));
    assert_eq!(check("grab x = 5 |> _; yell x;"), Ok(()));
    let mut env = TypeEnv::new();
    env.insert("_".to_string(), Type::String);
    assert_eq!(typecheck_expr(&env, &pipe(num(1), ident("_"))), Ok(Type::Int));
    assert_eq!(env.get("_"), Some(&Type::String));
    assert_eq!(typecheck_expr(&env, &ident("_")), Ok(Type::String));
}

#[test]
fn toss_has_type_unit_and_its_payload_is_checked() {
    let env = TypeEnv::new();
    assert_eq!(typecheck_expr(&env, &toss("e", None)), Ok(Type::Unit));
    assert_eq!(typecheck_expr(&env, &toss("e", Some(num(1)))), Ok(Type::Unit));
    assert_eq!(typecheck_expr(&env, &toss("e", Some(text("\"s\"")))), Ok(Type::Unit));
    assert_eq!(typecheck_expr(&env, &toss("e", Some(ident("x")))), Err(unknown("x")));
    assert_eq!(
        typecheck_expr(&env, &toss("e", Some(pipe(num(1), num(2))))),
        Err(invalid_pipeline())
    );
    assert_eq!(check("toss oops \"bad\";"), Ok(()));
    assert_eq!(check("toss oops missing;"), Err(unknown("missing")));
    assert_eq!(check("grab u = toss e; yell u;"), Ok(()));
}

#[test]
fn let_binds_for_the_statements_that_follow() {
    assert_eq!(check("grab x = 10; yell x;"), Ok(()));
    assert_eq!(check("yell x; grab x = 10;"), Err(unknown("x")));
    assert_eq!(check("grab x = 1; grab y = x; grab z = y |> x; z;"), Ok(()));
    assert_eq!(check(""), Ok(()));
}

#[test]
fn statement_changes_the_scope_only_by_a_let() {
    let mut env = TypeEnv::new();
    let stmt = Statement::Let { name: "s".to_string(), expr: text("\"a\"") };
    assert_eq!(typecheck_stmt(&mut env, &stmt), Ok(()));
    assert_eq!(env.get("s"), Some(&Type::String));
    let stmt = Statement::Let { name: "s".to_string(), expr: num(1) };
    assert_eq!(typecheck_stmt(&mut env, &stmt), Ok(()));
    assert_eq!(env.get("s"), Some(&Type::Int));
    let stmt = Statement::Let { name: "t".to_string(), expr: ident("nope") };
    assert_eq!(typecheck_stmt(&mut env, &stmt), Err(unknown("nope")));
    assert_eq!(env.get("t"), None);
    assert_eq!(typecheck_stmt(&mut env, &Statement::Yell { expr: ident("s") }), Ok(()));
    assert_eq!(typecheck_stmt(&mut env, &Statement::ExprStmt(pipe(num(1), ident("_")))), Ok(()));
    assert_eq!(typecheck_stmt(&mut env, &Statement::Toss { expr: toss("e", None) }), Ok(()));
    assert_eq!(
        typecheck_stmt(&mut env, &Statement::Toss { expr: ident("q") }),
        Err(unknown("q"))
    );
    assert_eq!(env.get("_"), None);
    assert_eq!(env.get("s"), Some(&Type::Int));
}

#[test]
fn type_env_keeps_the_last_binding_of_a_name() {
    let mut env = TypeEnv::new();
    assert_eq!(env.get("a"), None);
    env.insert("a".to_string(), Type::Int);
    env.insert("b".to_string(), Type::Unit);
    env.insert("a".to_string(), Type::String);
    assert_eq!(env.get("a"), Some(&Type::String));
    assert_eq!(env.get("b"), Some(&Type::Unit));
    assert_eq!(env.get("ab"), None);
    assert_eq!(env.get(""), None);
}

#[test]
fn cloned_type_env_is_independent() {
    let mut env = TypeEnv::new();
    env.insert("a".to_string(), Type::Int);
    let mut copy = env.clone();
    copy.insert("a".to_string(), Type::Unit);
    copy.insert("b".to_string(), Type::Int);
    assert_eq!(env.get("a"), Some(&Type::Int));
    assert_eq!(env.get("b"), None);
    assert_eq!(copy.get("a"), Some(&Type::Unit));
    assert_eq!(copy.get("b"), Some(&Type::Int));
}
