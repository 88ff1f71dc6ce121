use lox::interpreter::error::{Error, ErrorKind};
use lox::parser::grammar::ParseErrorKind;
use lox::scanner::{LexError, Position};
use lox::{Diagnostic, Lox};

#[test]
fn run_prints_in_order() {
    let mut lox = Lox::new();
    let mut out: Vec<String> = Vec::new();
    let r = lox.run("print 1; print \"two\"; print 1 + 2;".to_string(), &mut out, 0);
    assert!(r.is_ok());
    assert_eq!(out, vec!["1", "two", "3"]);
}

#[test]
fn variables_stay_from_run_to_run() {
    let mut lox = Lox::default();
    let mut out: Vec<String> = Vec::new();
    assert!(lox.run("var x = 4;".to_string(), &mut out, 0).is_ok());
    assert!(lox.run("x = x + 1;".to_string(), &mut out, 0).is_ok());
    assert!(lox.run("print x;".to_string(), &mut out, 0).is_ok());
    assert_eq!(out, vec!["5"]);
}

#[test]
fn lex_error_runs_nothing() {
    let mut lox = Lox::new();
    let mut out = vec!["before".to_string()];
    let r = lox.run("print 1; var x = 2;\n#".to_string(), &mut out, 0);
    match r {
        Err(Diagnostic::Lex(e)) => {
            assert_eq!(e, LexError::UnexpectedCharacter(Position { line: 2, column: 20 }))
        }
        _ => panic!(),
    }
    assert_eq!(out, vec!["before"]);
    assert!(matches!(
        lox.run("print x;".to_string(), &mut out, 0),
        Err(Diagnostic::Runtime(Error { kind: ErrorKind::UndefinedVariable(_) }))
    ));
}

#[test]
fn parse_error_runs_nothing() {
    let mut lox = Lox::new();
    let mut out: Vec<String> = Vec::new();
    let r = lox.run("print 1; print (2;".to_string(), &mut out, 0);
    match r {
        Err(Diagnostic::Parse(e)) => {
            assert_eq!(e.kind, ParseErrorKind::MissingClosingParen);
            assert_eq!(e.token.lexeme, ";");
            assert_eq!(e.token.line, 1);
        }
        _ => panic!(),
    }
    assert!(out.is_empty());
}

#[test]
fn runtime_error_keeps_output_and_variables() {
    let mut lox = Lox::new();
    let mut out: Vec<String> = Vec::new();
    let r = lox.run("var a = 1; print a; print a + nil; print 3;".to_string(), &mut out, 0);
    assert!(matches!(r, Err(Diagnostic::Runtime(Error { kind: ErrorKind::TypeMismatch(_) }))));
    assert_eq!(out.len(), 1);
    assert!(lox.run("print a;".to_string(), &mut out, 0).is_ok());
    assert_eq!(out, vec!["1", "1"]);
}

#[test]
fn session_goes_on_after_an_error() {
    let mut lox = Lox::new();
    let mut out: Vec<String> = Vec::new();
    assert!(lox.run("x = 1;".to_string(), &mut out, 0).is_err());
    assert!(lox.run("var x; x = 1; print x;".to_string(), &mut out, 0).is_ok());
    assert_eq!(out, vec!["1"]);
}

#[test]
fn budget_bounds_a_run() {
    let mut lox = Lox::new();
    let mut out: Vec<String> = Vec::new();
    let r = lox.run("var n = 0; while (true) n = n + 1;".to_string(), &mut out, 1000);
    assert!(matches!(r, Err(Diagnostic::OutOfBudget)));
    assert!(lox.run("print n == 1000;".to_string(), &mut out, 0).is_ok());
    assert_eq!(out, vec!["true"]);
}
