use lox::ast::{Expr, Stmt};
use lox::number::Number;
use lox::parser::grammar::ParseErrorKind;
use lox::parser::{ParseError, Parser};
use lox::scanner::Scanner;
use lox::token::{Literal, Token, TokenKind};

fn tokens(src: &str) -> Vec<Token> {
    let mut scanner = Scanner::new(src.to_string());
    assert!(scanner.scan_tokens().is_ok());
    scanner.into_tokens()
}

fn expression(src: &str) -> Result<Expr, ParseError> {
    Parser::new(tokens(src)).expression()
}

fn program(src: &str) -> Result<Vec<Stmt>, ParseError> {
    Parser::new(tokens(src)).parse()
}

fn is_number(e: &Expr, value: u8) -> bool {
    match e {
        Expr::Literal(l) => l.equals(&Literal::Number(Number::from_decimal(&vec![value], 0))),
        _ => false,
    }
}

fn is_variable(e: &Expr, name: &str) -> bool {
    match e {
        Expr::Variable { name: token } => token.lexeme == name,
        _ => false,
    }
}

#[test]
fn subtraction_associates_to_the_left() {
    match expression("1 - 2 - 3").unwrap() {
        Expr::Binary { left, operator, right } => {
            assert_eq!(operator.kind, TokenKind::Minus);
            assert!(is_number(&right, 3));
            match *left {
                Expr::Binary { left, operator, right } => {
                    assert_eq!(operator.kind, TokenKind::Minus);
                    assert!(is_number(&left, 1));
                    assert!(is_number(&right, 2));
                }
                _ => panic!(),
            }
        }
        _ => panic!(),
    }
}

#[test]
fn factor_binds_tighter_than_term() {
    match expression("1 + 2 * 3").unwrap() {
        Expr::Binary { left, operator, right } => {
            assert_eq!(operator.kind, TokenKind::Plus);
            assert!(is_number(&left, 1));
            match *right {
                Expr::Binary { left, operator, right } => {
                    assert_eq!(operator.kind, TokenKind::Star);
                    assert!(is_number(&left, 2));
                    assert!(is_number(&right, 3));
                }
                _ => panic!(),
            }
        }
        _ => panic!(),
    }
}

#[test]
fn levels_from_loosest_to_tightest() {
    // a or b and c == d < e + f * -g
    match expression("a or b and c == d < e + f * -g").unwrap() {
        Expr::Logical { left, operator, right } => {
            assert_eq!(operator.kind, TokenKind::Or);
            assert!(is_variable(&left, "a"));
            match *right {
                Expr::Logical { left, operator, right } => {
                    assert_eq!(operator.kind, TokenKind::And);
                    assert!(is_variable(&left, "b"));
                    match *right {
                        Expr::Binary { left, operator, right } => {
                            assert_eq!(operator.kind, TokenKind::EqualEqual);
                            assert!(is_variable(&left, "c"));
                            match *right {
                                Expr::Binary { left, operator, right } => {
                                    assert_eq!(operator.kind, TokenKind::Less);
                                    assert!(is_variable(&left, "d"));
                                    match *right {
                                        Expr::Binary { left, operator, right } => {
                                            assert_eq!(operator.kind, TokenKind::Plus);
                                            assert!(is_variable(&left, "e"));
                                            match *right {
                                                Expr::Binary { left, operator, right } => {
                                                    assert_eq!(operator.kind, TokenKind::Star);
                                                    assert!(is_variable(&left, "f"));
                                                    match *right {
                                                        Expr::Unary { operator, right } => {
                                                            assert_eq!(
                                                                operator.kind,
                                                                TokenKind::Minus
                                                            );
                                                            assert!(is_variable(&right, "g"));
                                                        }
                                                        _ => panic!(),
                                                    }
                                                }
                                                _ => panic!(),
                                            }
                                        }
                                        _ => panic!(),
                                    }
                                }
                                _ => panic!(),
                            }
                        }
                        _ => panic!(),
                    }
                }
                _ => panic!(),
            }
        }
        _ => panic!(),
    }
}

#[test]
fn every_comparison_operator_is_parsed() {
    for (src, kind) in [
        ("1 < 2", TokenKind::Less),
        ("1 <= 2", TokenKind::LessEqual),
        ("1 > 2", TokenKind::Greater),
        ("1 >= 2", TokenKind::GreaterEqual),
        ("1 == 2", TokenKind::EqualEqual),
        ("1 != 2", TokenKind::BangEqual),
        ("1 / 2", TokenKind::Slash),
    ] {
        match expression(src).unwrap() {
            Expr::Binary { left, operator, right } => {
                assert_eq!(operator.kind, kind);
                assert!(is_number(&left, 1));
                assert!(is_number(&right, 2));
            }
            _ => panic!(),
        }
    }
}

#[test]
fn unary_nests_to_the_right() {
    match expression("!-x").unwrap() {
        Expr::Unary { operator, right } => {
            assert_eq!(operator.kind, TokenKind::Bang);
            match *right {
                Expr::Unary { operator, right } => {
                    assert_eq!(operator.kind, TokenKind::Minus);
                    assert!(is_variable(&right, "x"));
                }
                _ => panic!(),
            }
        }
        _ => panic!(),
    }
}

#[test]
fn primary_literals() {
    assert!(matches!(expression("true").unwrap(), Expr::Literal(Literal::Boolean(true))));
    assert!(matches!(expression("false").unwrap(), Expr::Literal(Literal::Boolean(false))));
    assert!(matches!(expression("nil").unwrap(), Expr::Literal(Literal::Nil)));
    match expression("\"text\"").unwrap() {
        Expr::Literal(Literal::String(s)) => assert_eq!(s, "text"),
        _ => panic!(),
    }
    assert!(is_number(&expression("7").unwrap(), 7));
}

#[test]
fn grouping_is_kept() {
    match expression("(1 + 2) * 3").unwrap() {
        Expr::Binary { left, operator, right } => {
            assert_eq!(operator.kind, TokenKind::Star);
            assert!(is_number(&right, 3));
            match *left {
                Expr::Grouping { expression } => match *expression {
                    Expr::Binary { operator, .. } => assert_eq!(operator.kind, TokenKind::Plus),
                    _ => panic!(),
                },
                _ => panic!(),
            }
        }
        _ => panic!(),
    }
}

#[test]
fn assignment_associates_to_the_right() {
    match expression("a = b = 1").unwrap() {
        Expr::Assign { name, value } => {
            assert_eq!(name.lexeme, "a");
            match *value {
                Expr::Assign { name, value } => {
                    assert_eq!(name.lexeme, "b");
                    assert!(is_number(&value, 1));
                }
                _ => panic!(),
            }
        }
        _ => panic!(),
    }
}

#[test]
fn invalid_assignment_target() {
    let e = program("1 = 2;").unwrap_err();
    assert_eq!(e.kind, ParseErrorKind::InvalidAssignmentTarget);
    assert_eq!(e.token.kind, TokenKind::Equal);
    let e = program("(a) = 2;").unwrap_err();
    assert_eq!(e.kind, ParseErrorKind::InvalidAssignmentTarget);
    let e = program("a + b = 2;").unwrap_err();
    assert_eq!(e.kind, ParseErrorKind::InvalidAssignmentTarget);
}

#[test]
fn missing_closing_paren_names_the_token_found() {
    let e = expression("(1 + 2").unwrap_err();
    assert_eq!(e.kind, ParseErrorKind::MissingClosingParen);
    assert_eq!(e.token.kind, TokenKind::Eof);
    let e = program("print (1 + 2;\n").unwrap_err();
    assert_eq!(e.kind, ParseErrorKind::MissingClosingParen);
    assert_eq!(e.token.kind, TokenKind::Semicolon);
    assert_eq!(e.token.line, 1);
    let e = program("if (a print 1;").unwrap_err();
    assert_eq!(e.kind, ParseErrorKind::MissingClosingParen);
    assert_eq!(e.token.kind, TokenKind::Print);
}

#[test]
fn unexpected_token_is_an_error_value() {
    let e = expression(")").unwrap_err();
    assert_eq!(e.kind, ParseErrorKind::UnexpectedToken);
    assert_eq!(e.token.kind, TokenKind::RightParen);
    let e = program("print 1 +;").unwrap_err();
    assert_eq!(e.kind, ParseErrorKind::UnexpectedToken);
    assert_eq!(e.token.kind, TokenKind::Semicolon);
    let e = program("\n\nclass").unwrap_err();
    assert_eq!(e.kind, ParseErrorKind::UnexpectedToken);
    assert_eq!(e.token.kind, TokenKind::Class);
    assert_eq!(e.token.line, 3);
    let e = expression("").unwrap_err();
    assert_eq!(e.kind, ParseErrorKind::UnexpectedToken);
    assert_eq!(e.token.kind, TokenKind::Eof);
}

#[test]
fn missing_semicolon() {
    let e = program("print 1").unwrap_err();
    assert_eq!(e.kind, ParseErrorKind::UnexpectedToken);
    assert_eq!(e.token.kind, TokenKind::Eof);
    let e = program("var a = 1 print a;").unwrap_err();
    assert_eq!(e.kind, ParseErrorKind::UnexpectedToken);
    assert_eq!(e.token.kind, TokenKind::Print);
}

#[test]
fn var_needs_a_name() {
    let e = program("var 1 = 2;").unwrap_err();
    assert_eq!(e.kind, ParseErrorKind::UnexpectedToken);
    assert_eq!(e.token.kind, TokenKind::Number);
}

#[test]
fn condition_needs_an_opening_paren() {
    let e = program("while true) print 1;").unwrap_err();
    assert_eq!(e.kind, ParseErrorKind::UnexpectedToken);
    assert_eq!(e.token.kind, TokenKind::True);
}

#[test]
fn open_block_is_an_error() {
    let e = program("{ print 1; ").unwrap_err();
    assert_eq!(e.kind, ParseErrorKind::UnexpectedToken);
    assert_eq!(e.token.kind, TokenKind::Eof);
}

#[test]
fn empty_program() {
    assert!(program("").unwrap().is_empty());
    assert!(program("// nothing\n").unwrap().is_empty());
}

#[test]
fn statements_of_every_form() {
    let p = program("var a; var b = 1; print b; b; { a = b; {} } if (a) b; while (a) b;").unwrap();
    assert_eq!(p.len(), 7);
    match &p[0] {
        Stmt::Var { name, initializer } => {
            assert_eq!(name.lexeme, "a");
            assert!(matches!(initializer, Expr::Literal(Literal::Nil)));
        }
        _ => panic!(),
    }
    match &p[1] {
        Stmt::Var { name, initializer } => {
            assert_eq!(name.lexeme, "b");
            assert!(is_number(initializer, 1));
        }
        _ => panic!(),
    }
    assert!(matches!(&p[2], Stmt::Print(e) if is_variable(e, "b")));
    assert!(matches!(&p[3], Stmt::Expr(e) if is_variable(e, "b")));
    match &p[4] {
        Stmt::Block { statements } => {
            assert_eq!(statements.len(), 2);
            assert!(matches!(&statements[0], Stmt::Expr(Expr::Assign { .. })));
            assert!(matches!(&statements[1], Stmt::Block { statements } if statements.is_empty()));
        }
        _ => panic!(),
    }
    match &p[5] {
        Stmt::If { condition, then_branch, else_branch } => {
            assert!(is_variable(condition, "a"));
            assert!(matches!(&**then_branch, Stmt::Expr(_)));
            assert!(else_branch.is_none());
        }
        _ => panic!(),
    }
    match &p[6] {
        Stmt::While { condition, body } => {
            assert!(is_variable(condition, "a"));
            assert!(matches!(&**body, Stmt::Expr(_)));
        }
        _ => panic!(),
    }
}

#[test]
fn else_binds_to_the_nearest_if() {
    let p = program("if (a) if (b) print 1; else print 2;").unwrap();
    assert_eq!(p.len(), 1);
    match &p[0] {
        Stmt::If { condition, then_branch, else_branch } => {
            assert!(is_variable(condition, "a"));
            assert!(else_branch.is_none());
            match &**then_branch {
                Stmt::If { condition, then_branch, else_branch } => {
                    assert!(is_variable(condition, "b"));
                    assert!(matches!(&**then_branch, Stmt::Print(e) if is_number(e, 1)));
                    match else_branch {
                        Some(branch) => {
                            assert!(matches!(&**branch, Stmt::Print(e) if is_number(e, 2)))
                        }
                        None => panic!(),
                    }
                }
                _ => panic!(),
            }
        }
        _ => panic!(),
    }
}

#[test]
fn tokens_behind_the_end_marker_are_not_read() {
    let mut all = tokens("print 1;");
    all.extend(tokens("print"));
    let p = Parser::new(all).parse().unwrap();
    assert_eq!(p.len(), 1);
}

#[test]
fn tokens_without_an_end_marker() {
    let mut all = tokens("1 + 2");
    all.pop();
    assert!(Parser::new(all).expression().is_ok());
    let e = Parser::new(Vec::new()).expression().unwrap_err();
    assert_eq!(e.kind, ParseErrorKind::UnexpectedToken);
    assert_eq!(e.token.kind, TokenKind::Eof);
    assert!(Parser::new(Vec::new()).parse().unwrap().is_empty());
}

#[test]
fn literal_token_without_a_payload_is_nil() {
    let bare = vec![
        Token::new(TokenKind::Number, "1".to_string(), None, 1),
        Token::new(TokenKind::Eof, String::new(), None, 1),
    ];
    assert!(matches!(Parser::new(bare).expression().unwrap(), Expr::Literal(Literal::Nil)));
}

#[test]
fn expecting_a_token_at_the_end_is_an_error_at_the_end() {
    let e = program("var").unwrap_err();
    assert_eq!(e.kind, ParseErrorKind::UnexpectedToken);
    assert_eq!(e.token.kind, TokenKind::Eof);
    let e = program("if").unwrap_err();
    assert_eq!(e.kind, ParseErrorKind::UnexpectedToken);
    assert_eq!(e.token.kind, TokenKind::Eof);
    let e = program("if (a").unwrap_err();
    assert_eq!(e.kind, ParseErrorKind::MissingClosingParen);
    assert_eq!(e.token.kind, TokenKind::Eof);
}
