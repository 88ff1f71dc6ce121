//! What the parser computes, as functions of the token sequence. Each
//! function reads the tokens from a position on and gives the node it finds
//! there with the number of tokens the node spans, or the first error.

use vstd::prelude::*;
use crate::ast::{ExprView, StmtView};
use crate::token::{TokenKind, TokenView, Value};

verus! {

/// The kinds of parse error.
#[derive(Clone, Copy, Debug, PartialEq, Eq, Structural)]
pub enum ParseErrorKind {
    /// A token that cannot stand where it does.
    UnexpectedToken,
    /// Something else stands where a `)` has to.
    MissingClosingParen,
    /// The left side of an assignment is no variable.
    InvalidAssignmentTarget,
}

/// A parse error as a mathematical value: its kind and the offending token.
pub struct ParseErrorView {
    pub kind: ParseErrorKind,
    pub token: TokenView,
}

/// The precedence levels of the left-associative binary operators, lowest
/// first.
#[derive(Clone, Copy, Debug, PartialEq, Eq, Structural)]
pub enum Level {
    Or,
    And,
    Equality,
    Comparison,
    Term,
    Factor,
}

/// An expression and the number of tokens it spans, or an error.
pub type ExprParse = Result<(ExprView, nat), ParseErrorView>;

/// A statement and the number of tokens it spans, or an error.
pub type StmtParse = Result<(StmtView, nat), ParseErrorView>;

/// A sequence of statements and the number of tokens it spans, or an error.
pub type StmtsParse = Result<(Seq<StmtView>, nat), ParseErrorView>;

/// What stands in for a token behind the end of the sequence.
pub open spec fn end_marker() -> TokenView {
    TokenView { kind: TokenKind::Eof, lexeme: Seq::empty(), literal: None, line: 0 }
}

/// The token at `pos`, or the end marker behind the end.
pub open spec fn token_at(t: Seq<TokenView>, pos: nat) -> TokenView {
    if pos < t.len() {
        t[pos as int]
    } else {
        end_marker()
    }
}

/// The kind of the token at `pos`.
pub open spec fn kind_at(t: Seq<TokenView>, pos: nat) -> TokenKind {
    token_at(t, pos).kind
}

/// How many tokens stand at `pos` and behind it.
pub open spec fn remaining(t: Seq<TokenView>, pos: nat) -> nat {
    if pos < t.len() {
        (t.len() - pos) as nat
    } else {
        0
    }
}

/// The error of kind `kind` at the token at `pos`.
pub open spec fn error_at(kind: ParseErrorKind, t: Seq<TokenView>, pos: nat) -> ParseErrorView {
    ParseErrorView { kind, token: token_at(t, pos) }
}

/// Whether a token of kind `kind` is an operator of the level.
pub open spec fn is_operator(level: Level, kind: TokenKind) -> bool {
    match level {
        Level::Or => kind == TokenKind::Or,
        Level::And => kind == TokenKind::And,
        Level::Equality => kind == TokenKind::BangEqual || kind == TokenKind::EqualEqual,
        Level::Comparison => kind == TokenKind::Greater || kind == TokenKind::GreaterEqual || kind
            == TokenKind::Less || kind == TokenKind::LessEqual,
        Level::Term => kind == TokenKind::Minus || kind == TokenKind::Plus,
        Level::Factor => kind == TokenKind::Slash || kind == TokenKind::Star,
    }
}

/// The level that binds next tighter, if it is a binary level too.
pub open spec fn tighter(level: Level) -> Option<Level> {
    match level {
        Level::Or => Some(Level::And),
        Level::And => Some(Level::Equality),
        Level::Equality => Some(Level::Comparison),
        Level::Comparison => Some(Level::Term),
        Level::Term => Some(Level::Factor),
        Level::Factor => None,
    }
}

/// How loosely the level binds.
pub open spec fn looseness(level: Level) -> nat {
    match level {
        Level::Or => 6,
        Level::And => 5,
        Level::Equality => 4,
        Level::Comparison => 3,
        Level::Term => 2,
        Level::Factor => 1,
    }
}

/// The node for `left operator right` at the level: `Logical` for `and` and
/// `or`, `Binary` for the others.
pub open spec fn combine(level: Level, left: ExprView, operator: TokenView, right: ExprView) -> ExprView {
    match level {
        Level::Or | Level::And => ExprView::Logical {
            left: Box::new(left),
            operator,
            right: Box::new(right),
        },
        _ => ExprView::Binary { left: Box::new(left), operator, right: Box::new(right) },
    }
}

/// The value a literal token carries.
pub open spec fn payload(token: TokenView) -> Value {
    match token.literal {
        Some(v) => v,
        None => Value::Nil,
    }
}

/// expression → assignment
#[verifier::opaque]
pub open spec fn parse_expression(t: Seq<TokenView>, pos: nat) -> ExprParse
    decreases remaining(t, pos), 9nat,
{
    parse_assignment(t, pos)
}

/// assignment → logic_or ( "=" assignment )?
///
/// The left side of `=` has to be a variable.
pub open spec fn parse_assignment(t: Seq<TokenView>, pos: nat) -> ExprParse
    decreases remaining(t, pos), 8nat,
{
    match parse_binary(t, pos, Level::Or) {
        Err(e) => Err(e),
        Ok((left, n)) => if kind_at(t, pos + n) == TokenKind::Equal {
            match left {
                ExprView::Variable { name } => match parse_assignment(t, pos + n + 1) {
                    Err(e) => Err(e),
                    Ok((value, m)) => Ok((ExprView::Assign { name, value: Box::new(value) }, n + 1 + m)),
                },
                _ => Err(error_at(ParseErrorKind::InvalidAssignmentTarget, t, pos + n)),
            }
        } else {
            Ok((left, n))
        },
    }
}

/// One level of left-associative binary operators: an operand of the next
/// tighter level, then any number of operators of this level, each with
/// another such operand, nested to the left.
pub open spec fn parse_binary(t: Seq<TokenView>, pos: nat, level: Level) -> ExprParse
    decreases remaining(t, pos), 1 + looseness(level),
{
    let first = match tighter(level) {
        Some(l) => parse_binary(t, pos, l),
        None => parse_unary(t, pos),
    };
    match first {
        Err(e) => Err(e),
        Ok((left, n)) => match parse_binary_rest(t, pos + n, level, left) {
            Err(e) => Err(e),
            Ok((whole, m)) => Ok((whole, n + m)),
        },
    }
}

/// The operators of the level that follow the operand `left`, with their
/// right operands.
pub open spec fn parse_binary_rest(t: Seq<TokenView>, pos: nat, level: Level, left: ExprView) -> ExprParse
    decreases remaining(t, pos), 0nat,
{
    if is_operator(level, kind_at(t, pos)) {
        let operand = match tighter(level) {
            Some(l) => parse_binary(t, pos + 1, l),
            None => parse_unary(t, pos + 1),
        };
        match operand {
            Err(e) => Err(e),
            Ok((right, n)) => match parse_binary_rest(
                t,
                pos + 1 + n,
                level,
                combine(level, left, token_at(t, pos), right),
            ) {
                Err(e) => Err(e),
                Ok((whole, m)) => Ok((whole, 1 + n + m)),
            },
        }
    } else {
        Ok((left, 0))
    }
}

/// unary → ( "!" | "-" ) unary | primary
pub open spec fn parse_unary(t: Seq<TokenView>, pos: nat) -> ExprParse
    decreases remaining(t, pos), 1nat,
{
    if kind_at(t, pos) == TokenKind::Bang || kind_at(t, pos) == TokenKind::Minus {
        match parse_unary(t, pos + 1) {
            Err(e) => Err(e),
            Ok((right, n)) => Ok(
                (ExprView::Unary { operator: token_at(t, pos), right: Box::new(right) }, n + 1),
            ),
        }
    } else {
        parse_primary(t, pos)
    }
}

/// primary → "false" | "true" | "nil" | NUMBER | STRING | IDENTIFIER
///         | "(" expression ")"
pub open spec fn parse_primary(t: Seq<TokenView>, pos: nat) -> ExprParse
    decreases remaining(t, pos), 0nat,
{
    match kind_at(t, pos) {
        TokenKind::False => Ok((ExprView::Literal(Value::Boolean(false)), 1)),
        TokenKind::True => Ok((ExprView::Literal(Value::Boolean(true)), 1)),
        TokenKind::Nil => Ok((ExprView::Literal(Value::Nil), 1)),
        TokenKind::Number | TokenKind::String => Ok(
            (ExprView::Literal(payload(token_at(t, pos))), 1),
        ),
        TokenKind::Identifier => Ok((ExprView::Variable { name: token_at(t, pos) }, 1)),
        TokenKind::LeftParen => match parse_expression(t, pos + 1) {
            Err(e) => Err(e),
            Ok((inner, n)) => if kind_at(t, pos + 1 + n) == TokenKind::RightParen {
                Ok((ExprView::Grouping { expression: Box::new(inner) }, n + 2))
            } else {
                Err(error_at(ParseErrorKind::MissingClosingParen, t, pos + 1 + n))
            },
        },
        _ => Err(error_at(ParseErrorKind::UnexpectedToken, t, pos)),
    }
}

/// What follows an expression that ends a statement: the `;`.
pub open spec fn terminated(t: Seq<TokenView>, pos: nat, s: StmtView, n: nat) -> StmtParse {
    if kind_at(t, pos + n) == TokenKind::Semicolon {
        Ok((s, n + 1))
    } else {
        Err(error_at(ParseErrorKind::UnexpectedToken, t, pos + n))
    }
}

/// varDecl → "var" IDENTIFIER ( "=" expression )? ";"
///
/// Without an initializer the variable starts as nil. `pos` is the place
/// of the `var`.
pub open spec fn parse_var_declaration(t: Seq<TokenView>, pos: nat) -> StmtParse {
    if kind_at(t, pos + 1) != TokenKind::Identifier {
        Err(error_at(ParseErrorKind::UnexpectedToken, t, pos + 1))
    } else if kind_at(t, pos + 2) == TokenKind::Equal {
        match parse_expression(t, pos + 3) {
            Err(e) => Err(e),
            Ok((initializer, n)) => terminated(
                t,
                pos,
                StmtView::Var { name: token_at(t, pos + 1), initializer },
                n + 3,
            ),
        }
    } else {
        terminated(
            t,
            pos,
            StmtView::Var {
                name: token_at(t, pos + 1),
                initializer: ExprView::Literal(Value::Nil),
            },
            2,
        )
    }
}

/// The condition of an `if` or a `while`, in its parentheses. `pos` is the
/// place of the keyword; the length includes the keyword.
pub open spec fn parse_condition(t: Seq<TokenView>, pos: nat) -> ExprParse {
    if kind_at(t, pos + 1) != TokenKind::LeftParen {
        Err(error_at(ParseErrorKind::UnexpectedToken, t, pos + 1))
    } else {
        match parse_expression(t, pos + 2) {
            Err(e) => Err(e),
            Ok((condition, n)) => if kind_at(t, pos + 2 + n) == TokenKind::RightParen {
                Ok((condition, n + 3))
            } else {
                Err(error_at(ParseErrorKind::MissingClosingParen, t, pos + 2 + n))
            },
        }
    }
}

/// declaration → varDecl | statement
#[verifier::opaque]
pub open spec fn parse_declaration(t: Seq<TokenView>, pos: nat) -> StmtParse
    decreases remaining(t, pos), 12nat,
{
    if kind_at(t, pos) == TokenKind::Var {
        parse_var_declaration(t, pos)
    } else {
        parse_statement(t, pos)
    }
}

/// statement → exprStmt | printStmt | block | ifStmt | whileStmt
///
/// An `else` belongs to the nearest `if` that has none yet.
#[verifier::opaque]
pub open spec fn parse_statement(t: Seq<TokenView>, pos: nat) -> StmtParse
    decreases remaining(t, pos), 11nat,
{
    match kind_at(t, pos) {
        TokenKind::Print => match parse_expression(t, pos + 1) {
            Err(e) => Err(e),
            Ok((value, n)) => terminated(t, pos, StmtView::Print(value), n + 1),
        },
        TokenKind::LeftBrace => match parse_block_items(t, pos + 1) {
            Err(e) => Err(e),
            Ok((statements, n)) => Ok((StmtView::Block { statements }, n + 2)),
        },
        TokenKind::If => match parse_condition(t, pos) {
            Err(e) => Err(e),
            Ok((condition, n)) => match parse_statement(t, pos + n) {
                Err(e) => Err(e),
                Ok((then_branch, m)) => if kind_at(t, pos + n + m) == TokenKind::Else {
                    match parse_statement(t, pos + n + m + 1) {
                        Err(e) => Err(e),
                        Ok((else_branch, k)) => Ok(
                            (
                                StmtView::If {
                                    condition,
                                    then_branch: Box::new(then_branch),
                                    else_branch: Some(Box::new(else_branch)),
                                },
                                n + m + 1 + k,
                            ),
                        ),
                    }
                } else {
                    Ok(
                        (
                            StmtView::If {
                                condition,
                                then_branch: Box::new(then_branch),
                                else_branch: None,
                            },
                            n + m,
                        ),
                    )
                },
            },
        },
        TokenKind::While => match parse_condition(t, pos) {
            Err(e) => Err(e),
            Ok((condition, n)) => match parse_statement(t, pos + n) {
                Err(e) => Err(e),
                Ok((body, m)) => Ok((StmtView::While { condition, body: Box::new(body) }, n + m)),
            },
        },
        _ => match parse_expression(t, pos) {
            Err(e) => Err(e),
            Ok((value, n)) => terminated(t, pos, StmtView::Expr(value), n),
        },
    }
}

/// The declarations of a block up to its `}`, which is not counted in the
/// length. A block that is still open where the tokens end is an error.
///
/// A declaration spans at least one token (`lemma_declaration_spans`), so
/// the test on its length always succeeds.
pub open spec fn parse_block_items(t: Seq<TokenView>, pos: nat) -> StmtsParse
    decreases remaining(t, pos), 13nat,
{
    if kind_at(t, pos) == TokenKind::RightBrace {
        Ok((Seq::empty(), 0))
    } else if kind_at(t, pos) == TokenKind::Eof {
        Err(error_at(ParseErrorKind::UnexpectedToken, t, pos))
    } else {
        match parse_declaration(t, pos) {
            Err(e) => Err(e),
            Ok((first, n)) => if n > 0 {
                match parse_block_items(t, pos + n) {
                    Err(e) => Err(e),
                    Ok((rest, m)) => Ok((seq![first] + rest, n + m)),
                }
            } else {
                Err(error_at(ParseErrorKind::UnexpectedToken, t, pos))
            },
        }
    }
}

/// program → declaration* EOF
///
/// A declaration spans at least one token (`lemma_declaration_spans`), so
/// the test on its length always succeeds.
pub open spec fn parse_program(t: Seq<TokenView>, pos: nat) -> Result<Seq<StmtView>, ParseErrorView>
    decreases remaining(t, pos),
{
    if kind_at(t, pos) == TokenKind::Eof {
        Ok(Seq::empty())
    } else {
        match parse_declaration(t, pos) {
            Err(e) => Err(e),
            Ok((first, n)) => if n > 0 {
                match parse_program(t, pos + n) {
                    Err(e) => Err(e),
                    Ok(rest) => Ok(seq![first] + rest),
                }
            } else {
                Err(error_at(ParseErrorKind::UnexpectedToken, t, pos))
            },
        }
    }
}

/// What parsing a whole token sequence gives.
pub open spec fn parse(t: Seq<TokenView>) -> Result<Seq<StmtView>, ParseErrorView> {
    parse_program(t, 0)
}

/// Every declaration spans at least one token.
pub proof fn lemma_declaration_spans(t: Seq<TokenView>, pos: nat)
    ensures
        parse_declaration(t, pos) matches Ok((_, n)) ==> n > 0,
{
    reveal(parse_declaration);
    reveal(parse_statement);
}

} // verus!
