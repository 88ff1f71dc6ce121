use lox::environment::Environment;
use lox::interpreter::error::{Error, ErrorKind};
use lox::number::Number;
use lox::token::{Literal, Token, TokenKind};

fn name(text: &str) -> Token {
    Token::new(TokenKind::Identifier, text.to_string(), None, 3)
}

fn number(value: u8) -> Literal {
    Literal::Number(Number::from_decimal(&vec![value], 0))
}

#[test]
fn undefined_variable() {
    let mut env = Environment::new();
    match env.get(&name("x")) {
        Err(Error { kind: ErrorKind::UndefinedVariable(token) }) => {
            assert_eq!(token.lexeme, "x");
            assert_eq!(token.line, 3);
        }
        _ => panic!(),
    }
}

#[test]
fn define_then_get() {
    let mut env = Environment::default();
    env.define("x", number(1));
    env.define("y", Literal::Boolean(true));
    assert!(env.get(&name("x")).unwrap().equals(&number(1)));
    assert!(env.get(&name("y")).unwrap().equals(&Literal::Boolean(true)));
    assert!(env.get(&name("z")).is_err());
}

#[test]
fn last_define_wins() {
    let mut env = Environment::new();
    env.define("x", number(1));
    env.define("y", number(5));
    env.define("x", Literal::String("two".to_string()));
    assert!(env.get(&name("x")).unwrap().equals(&Literal::String("two".to_string())));
    assert!(env.get(&name("y")).unwrap().equals(&number(5)));
}

#[test]
fn get_hands_out_the_value_for_update() {
    let mut env = Environment::new();
    env.define("x", number(1));
    env.define("y", number(2));
    *env.get(&name("x")).unwrap() = number(9);
    assert!(env.get(&name("x")).unwrap().equals(&number(9)));
    assert!(env.get(&name("y")).unwrap().equals(&number(2)));
}

#[test]
fn assign_needs_a_declaration() {
    let mut env = Environment::new();
    match env.assign(&name("x"), number(1)) {
        Err(Error { kind: ErrorKind::UndefinedVariable(token) }) => assert_eq!(token.lexeme, "x"),
        _ => panic!(),
    }
    assert!(env.get(&name("x")).is_err());
    env.define("x", Literal::Nil);
    assert!(env.assign(&name("x"), number(1)).is_ok());
    assert!(env.get(&name("x")).unwrap().equals(&number(1)));
}
