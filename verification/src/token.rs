//! The token model: lexical categories, literal payloads and tokens.

use vstd::prelude::*;
use vstd::string::*;
use crate::number::text::number_text;
use crate::number::Number;

verus! {

/// The lexical categories.
#[derive(Clone, Copy, Debug, PartialEq, Eq, Structural)]
pub enum TokenKind {
    LeftParen,
    RightParen,
    LeftBrace,
    RightBrace,
    Comma,
    Dot,
    Minus,
    Plus,
    Semicolon,
    Slash,
    Star,
    Bang,
    BangEqual,
    Equal,
    EqualEqual,
    Greater,
    GreaterEqual,
    Less,
    LessEqual,
    Identifier,
    String,
    Number,
    And,
    Class,
    Else,
    False,
    Func,
    If,
    Nil,
    Or,
    Print,
    Return,
    Super,
    This,
    True,
    Var,
    While,
    Eof,
}

/// What a literal or a runtime value is, mathematically.
pub enum Value {
    Number(real),
    Text(Seq<char>),
    Boolean(bool),
    Nil,
}

/// A literal value: the payload of a literal token, and what evaluating a
/// literal expression gives.
#[derive(Debug)]
pub enum Literal {
    Number(Number),
    String(String),
    Boolean(bool),
    Nil,
}

impl View for Literal {
    type V = Value;

    open spec fn view(&self) -> Value {
        match self {
            Literal::Number(n) => Value::Number(n@),
            Literal::String(s) => Value::Text(s@),
            Literal::Boolean(b) => Value::Boolean(*b),
            Literal::Nil => Value::Nil,
        }
    }
}

impl Clone for Literal {
    fn clone(&self) -> (r: Self)
        ensures
            r@ == self@,
    {
        match self {
            Literal::Number(n) => Literal::Number(n.clone()),
            Literal::String(s) => Literal::String(s.clone()),
            Literal::Boolean(b) => Literal::Boolean(*b),
            Literal::Nil => Literal::Nil,
        }
    }
}

/// The text that printing a value shows: a number in decimal digits, a
/// string as it is, `true`, `false` or `nil`.
pub open spec fn rendering(v: Value) -> Seq<char> {
    match v {
        Value::Number(x) => number_text(x),
        Value::Text(s) => s,
        Value::Boolean(b) => if b {
            "true"@
        } else {
            "false"@
        },
        Value::Nil => "nil"@,
    }
}

impl Literal {
    /// The text that printing the value shows.
    pub fn to_text(&self) -> (r: String)
        ensures
            r@ == rendering(self@),
    {
        match self {
            Literal::Number(n) => n.to_text(),
            Literal::String(s) => s.clone(),
            Literal::Boolean(b) => if *b {
                String::from_str("true")
            } else {
                String::from_str("false")
            },
            Literal::Nil => String::from_str("nil"),
        }
    }

    /// Equality of value and kind: values of different kinds are never
    /// equal, and nil equals nil.
    pub fn equals(&self, other: &Literal) -> (r: bool)
        ensures
            r <==> self@ == other@,
    {
        match self {
            Literal::Number(a) => match other {
                Literal::Number(b) => a.equals(b),
                _ => false,
            },
            Literal::String(a) => match other {
                Literal::String(b) => *a == *b,
                _ => false,
            },
            Literal::Boolean(a) => match other {
                Literal::Boolean(b) => *a == *b,
                _ => false,
            },
            Literal::Nil => match other {
                Literal::Nil => true,
                _ => false,
            },
        }
    }
}

/// A token as a mathematical value.
pub struct TokenView {
    pub kind: TokenKind,
    pub lexeme: Seq<char>,
    pub literal: Option<Value>,
    pub line: nat,
}

/// A classified unit of source text.
#[derive(Debug)]
pub struct Token {
    pub kind: TokenKind,
    pub lexeme: String,
    pub literal: Option<Literal>,
    pub line: usize,
}

/// The view of an optional literal.
pub open spec fn literal_view(literal: Option<Literal>) -> Option<Value> {
    match literal {
        Some(l) => Some(l@),
        None => None,
    }
}

impl View for Token {
    type V = TokenView;

    open spec fn view(&self) -> TokenView {
        TokenView {
            kind: self.kind,
            lexeme: self.lexeme@,
            literal: literal_view(self.literal),
            line: self.line as nat,
        }
    }
}

impl Clone for Token {
    fn clone(&self) -> (r: Self)
        ensures
            r@ == self@,
    {
        let literal = match &self.literal {
            Some(l) => Some(l.clone()),
            None => None,
        };
        Token { kind: self.kind, lexeme: self.lexeme.clone(), literal, line: self.line }
    }
}

impl Token {
    pub fn new(kind: TokenKind, lexeme: String, literal: Option<Literal>, line: usize) -> (r: Token)
        ensures
            r.kind == kind,
            r.lexeme == lexeme,
            r.literal == literal,
            r.line == line,
    {
        Token { kind, lexeme, literal, line }
    }
}

/// The views of a sequence of tokens.
pub open spec fn token_views(tokens: Seq<Token>) -> Seq<TokenView> {
    tokens.map_values(|t: Token| t@)
}

} // verus!
