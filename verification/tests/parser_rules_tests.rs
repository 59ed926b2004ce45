use sauce::ast::ast::{Ast, Expr, Statement};
use sauce::errors::parse::ParseError;
use sauce::lexer::{tokenize, SpannedToken, Token};
use sauce::parser::parser::{
    parser_atom, parser_expr, parser_expr_stmt, parser_ident, parser_integer, parser_let,
    parser_name, parser_program, parser_statement, parser_string, parser_yell,
};
use sauce::parser::SauceParser;
use sauce::util::span::Span;

fn lex(src: &str) -> Vec<SpannedToken> {
    tokenize(src).expect("lexing failed")
}

fn program(src: &str) -> Result<Ast, ParseError> {
    parser_program(&lex(src))
}

fn expr_of(src: &str) -> Expr {
    let tokens = lex(src);
    let (expr, next) = parser_expr(&tokens, 0).expect("parsing failed");
    assert_eq!(next, tokens.len());
    expr
}

fn num(n: i64) -> Expr {
    Expr::Int(n)
}

fn ident(name: &str) -> Expr {
    Expr::Ident(name.to_string())
}

fn pipe(left: Expr, right: Expr) -> Expr {
    Expr::Pipeline(Box::new(left), Box::new(right))
}

fn toss(effect: &str, arg: Option<Expr>) -> Expr {
    Expr::Toss { effect: effect.to_string(), arg: arg.map(Box::new) }
}

fn unexpected(start: usize, end: usize) -> ParseError {
    ParseError::UnexpectedToken(Span { start, end })
}

fn incomplete(at: usize) -> ParseError {
    ParseError::Incomplete(Span { start: at, end: at })
}

#[test]
fn let_with_pipeline_is_one_statement() {
    assert_eq!(
        program("grab x = 1 |> 2;"),
        Ok(Ast {
            items: vec![Statement::Let { name: "x".to_string(), expr: pipe(num(1), num(2)) }]
        })
    );
}

#[test]
fn pipeline_associates_to_the_left() {
    assert_eq!(expr_of("1 |> 2 |> 3"), pipe(pipe(num(1), num(2)), num(3)));
    assert_eq!(
        expr_of("a |> b |> c |> d"),
        pipe(pipe(pipe(ident("a"), ident("b")), ident("c")), ident("d"))
    );
}

#[test]
fn parentheses_group_pipelines() {
    assert_eq!(expr_of("1 |> (2 |> 3)"), pipe(num(1), pipe(num(2), num(3))));
    assert_eq!(expr_of("(1 |> 2) |> 3"), pipe(pipe(num(1), num(2)), num(3)));
    assert_eq!(expr_of("((7))"), num(7));
    assert_eq!(expr_of("(((a)) |> (b))"), pipe(ident("a"), ident("b")));
}

#[test]
fn atoms_parse_to_their_nodes() {
    assert_eq!(expr_of("42"), num(42));
    assert_eq!(expr_of("name"), ident("name"));
    assert_eq!(expr_of("_"), ident("_"));
    assert_eq!(expr_of("\"hi\""), Expr::String("\"hi\"".to_string()));
}

#[test]
fn toss_takes_an_argument_when_one_follows() {
    assert_eq!(expr_of("toss oops"), toss("oops", None));
    assert_eq!(expr_of("toss oops 1"), toss("oops", Some(num(1))));
    assert_eq!(
        expr_of("toss oops \"bad\""),
        toss("oops", Some(Expr::String("\"bad\"".to_string())))
    );
    assert_eq!(expr_of("toss a toss b"), toss("a", Some(toss("b", None))));
    assert_eq!(expr_of("toss a (x)"), toss("a", Some(ident("x"))));
}

#[test]
fn toss_argument_is_a_whole_expression() {
    assert_eq!(expr_of("toss e 1 |> x"), toss("e", Some(pipe(num(1), ident("x")))));
    assert_eq!(expr_of("toss e |> x"), pipe(toss("e", None), ident("x")));
    assert_eq!(expr_of("(toss e 1) |> x"), pipe(toss("e", Some(num(1))), ident("x")));
    assert_eq!(expr_of("1 |> toss e 2 |> 3"), pipe(num(1), toss("e", Some(pipe(num(2), num(3))))));
}

#[test]
fn statements_are_told_apart_by_their_first_token() {
    assert_eq!(
        program("grab a = 1; yell a; a |> b; toss t;"),
        Ok(Ast {
            items: vec![
                Statement::Let { name: "a".to_string(), expr: num(1) },
                Statement::Yell { expr: ident("a") },
                Statement::ExprStmt(pipe(ident("a"), ident("b"))),
                Statement::ExprStmt(toss("t", None)),
            ]
        })
    );
}

#[test]
fn empty_input_is_the_empty_program() {
    assert_eq!(program(""), Ok(Ast { items: vec![] }));
    assert_eq!(SauceParser::new().parse(&[]), Ok(Ast { items: vec![] }));
}

#[test]
fn input_that_ends_early_is_incomplete() {
    assert_eq!(program("grab x = 1 |>"), Err(incomplete(13)));
    assert_eq!(program("grab"), Err(incomplete(4)));
    assert_eq!(program("grab x"), Err(incomplete(6)));
    assert_eq!(program("grab x ="), Err(incomplete(8)));
    assert_eq!(program("grab x = 1"), Err(incomplete(10)));
    assert_eq!(program("yell"), Err(incomplete(4)));
    assert_eq!(program("yell 1"), Err(incomplete(6)));
    assert_eq!(program("(1"), Err(incomplete(2)));
    assert_eq!(program("toss"), Err(incomplete(4)));
    assert_eq!(program("x; y"), Err(incomplete(4)));
}

#[test]
fn token_out_of_place_is_unexpected() {
    assert_eq!(program(";"), Err(unexpected(0, 1)));
    assert_eq!(program("grab 1 = 2;"), Err(unexpected(5, 6)));
    assert_eq!(program("grab x 1;"), Err(unexpected(7, 8)));
    assert_eq!(program("grab x = ;"), Err(unexpected(9, 10)));
    assert_eq!(program("yell ;"), Err(unexpected(5, 6)));
    assert_eq!(program("1 2;"), Err(unexpected(2, 3)));
    assert_eq!(program("1 |> ;"), Err(unexpected(5, 6)));
    assert_eq!(program("1 |> |> 2;"), Err(unexpected(5, 7)));
    assert_eq!(program("(1;"), Err(unexpected(2, 3)));
    assert_eq!(program("();"), Err(unexpected(1, 2)));
    assert_eq!(program("toss 1;"), Err(unexpected(5, 6)));
    assert_eq!(program("toss e );"), Err(unexpected(7, 8)));
    assert_eq!(program("x; grab grab"), Err(unexpected(8, 12)));
    assert_eq!(program("yell grab;"), Err(unexpected(5, 9)));
}

#[test]
fn braces_and_commas_belong_to_no_rule() {
    assert_eq!(program("{"), Err(unexpected(0, 1)));
    assert_eq!(program("x }"), Err(unexpected(2, 3)));
    assert_eq!(program("x , y;"), Err(unexpected(2, 3)));
}

#[test]
fn first_error_is_the_one_reported() {
    assert_eq!(program("yell ; grab 1"), Err(unexpected(5, 6)));
    assert_eq!(program("x; ) ; ("), Err(unexpected(3, 4)));
}

#[test]
fn parse_reports_the_rejection_as_text() {
    let parser = SauceParser::new();
    assert_eq!(
        parser.parse(&lex("grab x = 1 |>")),
        Err(ParseError::Generic("Incomplete input at Span { start: 13, end: 13 }".to_string()))
    );
    assert_eq!(
        parser.parse(&lex("yell 10 ;;")),
        Err(ParseError::Generic("unexpected token at Span { start: 9, end: 10 }".to_string()))
    );
    assert_eq!(
        parser.parse(&lex("yell 10; yell x;")),
        Ok(Ast {
            items: vec![Statement::Yell { expr: num(10) }, Statement::Yell { expr: ident("x") }]
        })
    );
}

#[test]
fn rules_start_where_they_are_told() {
    let tokens = lex("; 1 |> x ; y");
    assert_eq!(parser_expr(&tokens, 1), Ok((pipe(num(1), ident("x")), 4)));
    assert_eq!(parser_atom(&tokens, 1), Ok((num(1), 2)));
    assert_eq!(parser_atom(&tokens, 3), Ok((ident("x"), 4)));
    assert_eq!(parser_expr(&tokens, 0), Err(unexpected(0, 1)));
    assert_eq!(parser_expr(&tokens, 2), Err(unexpected(4, 6)));
    assert_eq!(parser_expr(&tokens, 6), Err(incomplete(12)));
    assert_eq!(parser_expr(&tokens, 60), Err(incomplete(12)));
    assert_eq!(parser_expr(&[], 0), Err(incomplete(0)));
}

#[test]
fn single_token_rules_accept_their_token_only() {
    let tokens = lex("7 x \"s\" ;");
    assert_eq!(parser_integer(&tokens, 0), Ok((num(7), 1)));
    assert_eq!(parser_integer(&tokens, 1), Err(unexpected(2, 3)));
    assert_eq!(parser_ident(&tokens, 1), Ok((ident("x"), 2)));
    assert_eq!(parser_ident(&tokens, 0), Err(unexpected(0, 1)));
    assert_eq!(parser_string(&tokens, 2), Ok((Expr::String("\"s\"".to_string()), 3)));
    assert_eq!(parser_string(&tokens, 3), Err(unexpected(8, 9)));
    assert_eq!(parser_name(&tokens, 1), Ok(("x".to_string(), 2)));
    assert_eq!(parser_name(&tokens, 2), Err(unexpected(4, 7)));
    assert_eq!(parser_name(&tokens, 4), Err(incomplete(9)));
}

#[test]
fn statement_rules_accept_their_statement_only() {
    let tokens = lex("grab a = 1; yell a; a;");
    assert_eq!(
        parser_let(&tokens, 0),
        Ok((Statement::Let { name: "a".to_string(), expr: num(1) }, 5))
    );
    assert_eq!(parser_let(&tokens, 5), Err(unexpected(12, 16)));
    assert_eq!(parser_yell(&tokens, 5), Ok((Statement::Yell { expr: ident("a") }, 8)));
    assert_eq!(parser_yell(&tokens, 0), Err(unexpected(0, 4)));
    assert_eq!(parser_expr_stmt(&tokens, 8), Ok((Statement::ExprStmt(ident("a")), 10)));
    assert_eq!(parser_expr_stmt(&tokens, 0), Err(unexpected(0, 4)));
    assert_eq!(
        parser_statement(&tokens, 0),
        Ok((Statement::Let { name: "a".to_string(), expr: num(1) }, 5))
    );
    assert_eq!(parser_statement(&tokens, 5), Ok((Statement::Yell { expr: ident("a") }, 8)));
    assert_eq!(parser_statement(&tokens, 8), Ok((Statement::ExprStmt(ident("a")), 10)));
    assert_eq!(parser_statement(&tokens, 10), Err(incomplete(22)));
}

#[test]
fn spans_do_not_change_what_is_parsed() {
    let at = |token: Token, start: usize| SpannedToken {
        token,
        span: Span { start, end: start + 100 },
    };
    let tokens = vec![
        at(Token::Int(1), 500),
        at(Token::Pipe, 7),
        at(Token::Ident("f".to_string()), 0),
        at(Token::Semicolon, 3),
    ];
    assert_eq!(
        parser_program(&tokens),
        Ok(Ast { items: vec![Statement::ExprStmt(pipe(num(1), ident("f")))] })
    );
    assert_eq!(parser_program(&tokens[..3]), Err(incomplete(100)));
    assert_eq!(parser_program(&tokens[1..]), Err(unexpected(7, 107)));
}

#[test]
fn cloned_expression_equals_its_source() {
    let expr = pipe(toss("e", Some(Expr::String("\"s\"".to_string()))), pipe(num(1), ident("x")));
    assert_eq!(expr.clone(), expr);
}
