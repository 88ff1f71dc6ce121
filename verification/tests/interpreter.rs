use lox::ast::Expr;
use lox::environment::Environment;
use lox::interpreter::error::{Error, ErrorKind};
use lox::interpreter::{evaluate, execute, is_truthy, Object, Stop};
use lox::number::Number;
use lox::parser::Parser;
use lox::scanner::Scanner;
use lox::token::{Literal, Token, TokenKind};

fn tokens(src: &str) -> Vec<Token> {
    let mut scanner = Scanner::new(src.to_string());
    assert!(scanner.scan_tokens().is_ok());
    scanner.into_tokens()
}

fn expression(src: &str) -> Expr {
    Parser::new(tokens(src)).expression().unwrap()
}

fn eval(src: &str) -> Result<Object, Error> {
    evaluate(&expression(src), &mut Environment::new())
}

fn run(src: &str, env: &mut Environment, budget: u64) -> (Vec<String>, Result<u64, Stop>) {
    let program = Parser::new(tokens(src)).parse().unwrap();
    let mut out = Vec::new();
    let r = execute(&program, env, &mut out, budget);
    (out, r)
}

fn number(written: &[u8], places: usize) -> Object {
    Literal::Number(Number::from_decimal(&written.to_vec(), places))
}

fn text(s: &str) -> Object {
    Literal::String(s.to_string())
}

fn name(text: &str) -> Token {
    Token::new(TokenKind::Identifier, text.to_string(), None, 1)
}

fn as_float(v: &Object) -> f64 {
    match v {
        Literal::Number(n) => {
            let (negative, numer, denom) = n.parts();
            let digits = |d: &Vec<u8>| -> f64 {
                d.iter().fold(0.0, |acc, x| acc * 10.0 + f64::from(*x))
            };
            let value = digits(&numer) / digits(&denom);
            if negative {
                -value
            } else {
                value
            }
        }
        _ => panic!(),
    }
}

#[test]
fn multiplication_before_addition() {
    let v = eval("1 + 2 * 3").unwrap();
    assert!(v.equals(&number(&[7], 0)));
    assert!(!v.equals(&number(&[9], 0)));
    assert_eq!(as_float(&v), 7.0);
}

#[test]
fn arithmetic_is_exact() {
    assert!(eval("0.1 + 0.2 == 0.3").unwrap().equals(&Literal::Boolean(true)));
    assert!(eval("7 / 2").unwrap().equals(&number(&[3, 5], 1)));
    assert!(eval("1 / 3 * 3").unwrap().equals(&number(&[1], 0)));
    assert!(eval("1 - 2 - 3").unwrap().equals(&eval("-4").unwrap()));
    assert!(eval("2 * 3.5").unwrap().equals(&number(&[7], 0)));
    assert_eq!(as_float(&eval("10 / 4 - 3").unwrap()), -0.5);
}

#[test]
fn grouping_changes_the_order() {
    assert!(eval("(1 + 2) * 3").unwrap().equals(&number(&[9], 0)));
}

#[test]
fn unary_operators() {
    assert_eq!(as_float(&eval("-3").unwrap()), -3.0);
    assert!(eval("--3").unwrap().equals(&number(&[3], 0)));
    assert!(eval("!true").unwrap().equals(&Literal::Boolean(false)));
    assert!(eval("!nil").unwrap().equals(&Literal::Boolean(true)));
    assert!(eval("!0").unwrap().equals(&Literal::Boolean(false)));
    assert!(eval("!\"\"").unwrap().equals(&Literal::Boolean(false)));
    match eval("-\"a\"") {
        Err(Error { kind: ErrorKind::TypeMismatch(operator) }) => {
            assert_eq!(operator.kind, TokenKind::Minus);
            assert_eq!(operator.line, 1);
        }
        _ => panic!(),
    }
    assert!(matches!(eval("-nil"), Err(Error { kind: ErrorKind::TypeMismatch(_) })));
}

#[test]
fn truthiness() {
    assert!(!is_truthy(&Literal::Nil));
    assert!(!is_truthy(&Literal::Boolean(false)));
    assert!(is_truthy(&Literal::Boolean(true)));
    assert!(is_truthy(&number(&[0], 0)));
    assert!(is_truthy(&text("")));
}

#[test]
fn strings_are_joined() {
    assert!(eval("\"ab\" + \"cd\"").unwrap().equals(&text("abcd")));
    assert!(!eval("\"ab\" + \"cd\"").unwrap().equals(&text("ab")));
}

#[test]
fn mismatched_operands() {
    for src in ["1 + \"a\"", "\"a\" + 1", "\"a\" - \"b\"", "nil + 1", "true * 2", "1 < \"a\"", "\"a\" >= \"b\"", "\n1 / nil"] {
        match eval(src) {
            Err(Error { kind: ErrorKind::TypeMismatch(operator) }) => {
                assert_eq!(operator.lexeme, src.trim().split(' ').nth(1).unwrap());
                assert_eq!(operator.line, if src.starts_with('\n') { 2 } else { 1 });
            }
            _ => panic!(),
        }
    }
}

#[test]
fn comparisons() {
    assert!(eval("1 < 2").unwrap().equals(&Literal::Boolean(true)));
    assert!(eval("2 < 2").unwrap().equals(&Literal::Boolean(false)));
    assert!(eval("2 <= 2").unwrap().equals(&Literal::Boolean(true)));
    assert!(eval("3 <= 2").unwrap().equals(&Literal::Boolean(false)));
    assert!(eval("3 > 2").unwrap().equals(&Literal::Boolean(true)));
    assert!(eval("2 > 2").unwrap().equals(&Literal::Boolean(false)));
    assert!(eval("2 >= 2").unwrap().equals(&Literal::Boolean(true)));
    assert!(eval("1 >= 2").unwrap().equals(&Literal::Boolean(false)));
    assert!(eval("-1 < 0.5").unwrap().equals(&Literal::Boolean(true)));
}

#[test]
fn equality_across_kinds() {
    assert!(eval("nil == nil").unwrap().equals(&Literal::Boolean(true)));
    assert!(eval("1 == 1.0").unwrap().equals(&Literal::Boolean(true)));
    assert!(eval("1 == 2").unwrap().equals(&Literal::Boolean(false)));
    assert!(eval("1 != 2").unwrap().equals(&Literal::Boolean(true)));
    assert!(eval("\"a\" == \"a\"").unwrap().equals(&Literal::Boolean(true)));
    assert!(eval("\"a\" != \"a\"").unwrap().equals(&Literal::Boolean(false)));
    assert!(eval("1 == \"1\"").unwrap().equals(&Literal::Boolean(false)));
    assert!(eval("nil == false").unwrap().equals(&Literal::Boolean(false)));
    assert!(eval("true != 1").unwrap().equals(&Literal::Boolean(true)));
    assert!(eval("0 == false").unwrap().equals(&Literal::Boolean(false)));
}

#[test]
fn division_by_zero_is_an_error() {
    match eval("1 / 0") {
        Err(Error { kind: ErrorKind::DivisionByZero(operator) }) => {
            assert_eq!(operator.kind, TokenKind::Slash)
        }
        _ => panic!(),
    }
    assert!(matches!(eval("1 / (2 - 2)"), Err(Error { kind: ErrorKind::DivisionByZero(_) })));
}

#[test]
fn and_does_not_evaluate_a_decided_right_side() {
    assert!(eval("false and (1/0)").unwrap().equals(&Literal::Boolean(false)));
    assert!(eval("nil and (1/0)").unwrap().equals(&Literal::Nil));
    assert!(matches!(eval("true and (1/0)"), Err(Error { kind: ErrorKind::DivisionByZero(_) })));
    assert!(eval("1 and 2").unwrap().equals(&number(&[2], 0)));
}

#[test]
fn or_does_not_evaluate_a_decided_right_side() {
    assert!(eval("true or (1/0)").unwrap().equals(&Literal::Boolean(true)));
    assert!(eval("\"x\" or (1/0)").unwrap().equals(&text("x")));
    assert!(matches!(eval("false or (1/0)"), Err(Error { kind: ErrorKind::DivisionByZero(_) })));
    assert!(eval("nil or 2").unwrap().equals(&number(&[2], 0)));
}

#[test]
fn short_circuit_skips_assignments() {
    let mut env = Environment::new();
    env.define("x", number(&[1], 0));
    let v = evaluate(&expression("true or (x = 2)"), &mut env).unwrap();
    assert!(v.equals(&Literal::Boolean(true)));
    assert!(env.get(&name("x")).unwrap().equals(&number(&[1], 0)));
    let v = evaluate(&expression("false or (x = 2)"), &mut env).unwrap();
    assert!(v.equals(&number(&[2], 0)));
    assert!(env.get(&name("x")).unwrap().equals(&number(&[2], 0)));
}

#[test]
fn assignment_without_declaration_fails() {
    let mut env = Environment::new();
    let (out, r) = run("x = 1;", &mut env, 10);
    assert!(out.is_empty());
    match r {
        Err(Stop::Error(Error { kind: ErrorKind::UndefinedVariable(token) })) => {
            assert_eq!(token.lexeme, "x")
        }
        _ => panic!(),
    }
    assert!(env.get(&name("x")).is_err());
}

#[test]
fn assignment_after_declaration() {
    let mut env = Environment::new();
    let (out, r) = run("var x; x = 1; print x;", &mut env, 10);
    assert!(matches!(r, Ok(10)));
    assert_eq!(out, vec!["1"]);
}

#[test]
fn assignment_is_an_expression() {
    let mut env = Environment::new();
    let (out, r) = run("var a; var b; print a = b = 3; print a; print b;", &mut env, 0);
    assert!(r.is_ok());
    assert_eq!(out, vec!["3", "3", "3"]);
}

#[test]
fn undefined_variable_is_an_error() {
    match eval("y + 1") {
        Err(Error { kind: ErrorKind::UndefinedVariable(token) }) => assert_eq!(token.lexeme, "y"),
        _ => panic!(),
    }
}

#[test]
fn operands_are_evaluated_left_to_right() {
    let mut env = Environment::new();
    env.define("x", number(&[1], 0));
    let v = evaluate(&expression("(x = 5) + x * 2"), &mut env).unwrap();
    assert!(v.equals(&number(&[1, 5], 0)));
    let r = evaluate(&expression("(x = 7) + nope"), &mut env);
    assert!(r.is_err());
    assert!(env.get(&name("x")).unwrap().equals(&number(&[7], 0)));
}

#[test]
fn var_without_initializer_is_nil() {
    let mut env = Environment::new();
    let (out, r) = run("var x; print x; var x = 2; print x;", &mut env, 0);
    assert!(r.is_ok());
    assert_eq!(out, vec!["nil", "2"]);
}

#[test]
fn print_renders_every_kind() {
    let mut env = Environment::new();
    let (out, r) = run(
        "print 1; print -2.50; print 7 / 2; print 1 / 3; print 2 / 3; print -1 / 8; print 0 * -1; print \"a b\"; print \"\"; print true; print 1 > 2; print nil; print 100; print 12345678901234567890 * 10;",
        &mut env,
        0,
    );
    assert!(r.is_ok());
    assert_eq!(
        out,
        vec![
            "1",
            "-2.5",
            "3.5",
            "0.3333333333333333",
            "0.6666666666666666",
            "-0.125",
            "0",
            "a b",
            "",
            "true",
            "false",
            "nil",
            "100",
            "123456789012345678900",
        ]
    );
}

#[test]
fn print_twice_prints_the_same() {
    let mut env = Environment::new();
    env.define("x", number(&[4], 0));
    let (first, r) = run("print x * 2 + 1;", &mut env, 0);
    assert!(r.is_ok());
    let (second, r) = run("print x * 2 + 1;", &mut env, 0);
    assert!(r.is_ok());
    assert_eq!(first, vec!["9"]);
    assert_eq!(second, first);
}

#[test]
fn block_shares_the_scope() {
    let mut env = Environment::new();
    let (out, r) = run("var a = 1; { var b = 2; a = a + b; } print a; print b;", &mut env, 0);
    assert!(r.is_ok());
    assert_eq!(out, vec!["3", "2"]);
}

#[test]
fn if_runs_one_branch() {
    let mut env = Environment::new();
    let (out, r) = run(
        "if (1 < 2) print \"yes\"; else print \"no\"; if (nil) print \"yes\"; else print \"no\"; if (false) print \"never\"; print \"end\";",
        &mut env,
        0,
    );
    assert!(r.is_ok());
    assert_eq!(out, vec!["yes", "no", "end"]);
}

#[test]
fn else_of_nested_if() {
    let mut env = Environment::new();
    env.define("a", Literal::Boolean(true));
    env.define("b", Literal::Boolean(false));
    let (out, _) = run("if (a) if (b) print 1; else print 2;", &mut env, 0);
    assert_eq!(out, vec!["2"]);
    env.define("a", Literal::Boolean(false));
    let (out, _) = run("if (a) if (b) print 1; else print 2;", &mut env, 0);
    assert!(out.is_empty());
}

#[test]
fn while_repeats_until_falsy() {
    let mut env = Environment::new();
    let (out, r) = run(
        "var i = 0; var sum = 0; while (i < 5) { i = i + 1; sum = sum + i; print i; } print sum;",
        &mut env,
        100,
    );
    assert!(matches!(r, Ok(95)));
    assert_eq!(out, vec!["1", "2", "3", "4", "5", "15"]);
}

#[test]
fn while_with_falsy_condition_takes_no_budget() {
    let mut env = Environment::new();
    let (out, r) = run("while (false) print 1; print 2;", &mut env, 0);
    assert!(matches!(r, Ok(0)));
    assert_eq!(out, vec!["2"]);
}

#[test]
fn nested_loops_share_the_budget() {
    let mut env = Environment::new();
    let src = "var i = 0; while (i < 3) { var j = 0; while (j < 2) { j = j + 1; print j; } i = i + 1; }";
    let (out, r) = run(src, &mut env, 9);
    assert!(matches!(r, Ok(0)));
    assert_eq!(out, vec!["1", "2", "1", "2", "1", "2"]);
    let mut env = Environment::new();
    let (out, r) = run(src, &mut env, 8);
    assert!(matches!(r, Err(Stop::OutOfBudget)));
    assert_eq!(out, vec!["1", "2", "1", "2", "1"]);
    assert!(env.get(&name("i")).unwrap().equals(&number(&[2], 0)));
}

#[test]
fn endless_loop_runs_out_of_budget() {
    let mut env = Environment::new();
    let (out, r) = run("var n = 0; while (true) { n = n + 1; print n; }", &mut env, 3);
    assert!(matches!(r, Err(Stop::OutOfBudget)));
    assert_eq!(out, vec!["1", "2", "3"]);
    assert!(env.get(&name("n")).unwrap().equals(&number(&[3], 0)));
}

#[test]
fn error_in_the_middle_keeps_what_went_before() {
    let mut env = Environment::new();
    let (out, r) = run("var a = 1; print a; print -\"s\"; print 2; var b = 3;", &mut env, 0);
    assert!(matches!(r, Err(Stop::Error(Error { kind: ErrorKind::TypeMismatch(_) }))));
    assert_eq!(out, vec!["1"]);
    assert!(env.get(&name("a")).unwrap().equals(&number(&[1], 0)));
    assert!(env.get(&name("b")).is_err());
}

#[test]
fn error_inside_a_block_keeps_what_went_before() {
    let mut env = Environment::new();
    let (out, r) = run("{ var a = 1; print a; a = a / 0; print 2; } print 3;", &mut env, 0);
    assert!(matches!(r, Err(Stop::Error(Error { kind: ErrorKind::DivisionByZero(_) }))));
    assert_eq!(out, vec!["1"]);
    assert!(env.get(&name("a")).unwrap().equals(&number(&[1], 0)));
}

#[test]
fn error_in_a_condition_stops_the_loop() {
    let mut env = Environment::new();
    let (out, r) = run("var i = 0; while (i < 2 or missing) { i = i + 1; print i; }", &mut env, 9);
    assert!(matches!(r, Err(Stop::Error(Error { kind: ErrorKind::UndefinedVariable(_) }))));
    assert_eq!(out, vec!["1", "2"]);
}

#[test]
fn a_long_loop_is_quick() {
    let mut env = Environment::new();
    let (out, r) = run(
        "var i = 0; var x = 0; while (i < 3000) { i = i + 1; x = x + 0.1; } print x; print i;",
        &mut env,
        5000,
    );
    assert!(matches!(r, Ok(2000)));
    assert_eq!(out, vec!["300", "3000"]);
}

#[test]
fn a_larger_budget_changes_nothing_but_what_is_left() {
    let src = "var i = 0; while (i < 4) { i = i + 1; print i * i; }";
    let mut env = Environment::new();
    let (small, r) = run(src, &mut env, 4);
    assert!(matches!(r, Ok(0)));
    let mut env = Environment::new();
    let (large, r) = run(src, &mut env, 1000);
    assert!(matches!(r, Ok(996)));
    assert_eq!(small, large);
    assert_eq!(small, vec!["1", "4", "9", "16"]);
}
