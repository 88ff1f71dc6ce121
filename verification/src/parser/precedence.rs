//! The trees that the parser builds respect precedence and associativity:
//! under an operator stands, to the right, only what binds tighter, and to
//! the left only what binds at least as tight.

use vstd::prelude::*;
use crate::ast::ExprView;
use crate::parser::grammar::{
    combine, is_operator, kind_at, looseness, parse_assignment, parse_binary, parse_binary_rest,
    parse_expression, parse_primary, parse_unary, remaining, tighter, token_at, ExprParse, Level,
};
use crate::token::{TokenKind, TokenView};

verus! {

/// How tightly the operators of a level bind.
pub open spec fn level_tightness(level: Level) -> nat {
    match level {
        Level::Or => 1,
        Level::And => 2,
        Level::Equality => 3,
        Level::Comparison => 4,
        Level::Term => 5,
        Level::Factor => 6,
    }
}

/// How tightly the outermost operation of an expression binds: an
/// assignment loosest, then `or`, `and`, equality, comparison, sum, product,
/// negation, and tightest what needs no parentheses anywhere.
pub open spec fn tightness(e: ExprView) -> nat {
    match e {
        ExprView::Assign { .. } => 0,
        ExprView::Logical { operator, .. } => if operator.kind == TokenKind::Or {
            1
        } else {
            2
        },
        ExprView::Binary { operator, .. } => match operator.kind {
            TokenKind::BangEqual | TokenKind::EqualEqual => 3,
            TokenKind::Greater | TokenKind::GreaterEqual | TokenKind::Less | TokenKind::LessEqual => 4,
            TokenKind::Minus | TokenKind::Plus => 5,
            _ => 6,
        },
        ExprView::Unary { .. } => 7,
        ExprView::Literal(_) | ExprView::Grouping { .. } | ExprView::Variable { .. } => 8,
    }
}

/// Whether every operation in the tree has, to its right, an operand that
/// binds tighter than itself and, to its left, one that binds at least as
/// tight; a negation negates what binds at least as tight as a negation.
/// Inside parentheses and to the right of `=` anything may stand.
pub open spec fn layered(e: ExprView) -> bool
    decreases e,
{
    match e {
        ExprView::Literal(_) => true,
        ExprView::Variable { .. } => true,
        ExprView::Grouping { expression } => layered(*expression),
        ExprView::Assign { value, .. } => layered(*value),
        ExprView::Logical { left, right, .. } => {
            &&& layered(*left)
            &&& layered(*right)
            &&& tightness(*left) >= tightness(e)
            &&& tightness(*right) > tightness(e)
        },
        ExprView::Binary { left, right, .. } => {
            &&& layered(*left)
            &&& layered(*right)
            &&& tightness(*left) >= tightness(e)
            &&& tightness(*right) > tightness(e)
        },
        ExprView::Unary { right, .. } => layered(*right) && tightness(*right) >= 7,
    }
}

/// Whether the result of parsing is, if it is an expression, a layered one
/// that binds at least as tight as `least`.
pub open spec fn binds(g: ExprParse, least: nat) -> bool {
    g matches Ok((e, _)) ==> layered(e) && tightness(e) >= least
}

/// Every expression that is parsed is layered. So `a - b - c` is
/// `(a - b) - c`, and `a + b * c` is `a + (b * c)`.
pub proof fn lemma_expression_layered(t: Seq<TokenView>, pos: nat)
    ensures
        binds(parse_expression(t, pos), 0),
    decreases remaining(t, pos), 9nat,
{
    reveal(parse_expression);
    lemma_assignment_layered(t, pos);
}

/// Every assignment that is parsed is layered.
pub proof fn lemma_assignment_layered(t: Seq<TokenView>, pos: nat)
    ensures
        binds(parse_assignment(t, pos), 0),
    decreases remaining(t, pos), 8nat,
{
    lemma_binary_layered(t, pos, Level::Or);
    match parse_binary(t, pos, Level::Or) {
        Err(_) => {},
        Ok((left, n)) => {
            if kind_at(t, pos + n) == TokenKind::Equal {
                lemma_assignment_layered(t, pos + n + 1);
            }
        },
    }
}

/// Every chain of operators of a level that is parsed is layered and binds
/// at least as tight as the level.
pub proof fn lemma_binary_layered(t: Seq<TokenView>, pos: nat, level: Level)
    ensures
        binds(parse_binary(t, pos, level), level_tightness(level)),
    decreases remaining(t, pos), 1 + looseness(level),
{
    let first = match tighter(level) {
        Some(l) => {
            lemma_binary_layered(t, pos, l);
            parse_binary(t, pos, l)
        },
        None => {
            lemma_unary_layered(t, pos);
            parse_unary(t, pos)
        },
    };
    match first {
        Err(_) => {},
        Ok((left, n)) => {
            lemma_binary_rest_layered(t, pos + n, level, left);
        },
    }
}

/// The operators of a level that follow a layered operand give a layered
/// expression.
pub proof fn lemma_binary_rest_layered(t: Seq<TokenView>, pos: nat, level: Level, left: ExprView)
    requires
        layered(left),
        tightness(left) >= level_tightness(level),
    ensures
        binds(parse_binary_rest(t, pos, level, left), level_tightness(level)),
    decreases remaining(t, pos), 0nat,
{
    if is_operator(level, kind_at(t, pos)) {
        let operand = match tighter(level) {
            Some(l) => {
                lemma_binary_layered(t, pos + 1, l);
                parse_binary(t, pos + 1, l)
            },
            None => {
                lemma_unary_layered(t, pos + 1);
                parse_unary(t, pos + 1)
            },
        };
        match operand {
            Err(_) => {},
            Ok((right, n)) => {
                let whole = combine(level, left, token_at(t, pos), right);
                assert(tightness(whole) == level_tightness(level));
                assert(layered(whole));
                lemma_binary_rest_layered(t, pos + 1 + n, level, whole);
            },
        }
    }
}

/// Every negation that is parsed is layered and binds as tight as a
/// negation.
pub proof fn lemma_unary_layered(t: Seq<TokenView>, pos: nat)
    ensures
        binds(parse_unary(t, pos), 7),
    decreases remaining(t, pos), 1nat,
{
    if kind_at(t, pos) == TokenKind::Bang || kind_at(t, pos) == TokenKind::Minus {
        lemma_unary_layered(t, pos + 1);
    } else {
        lemma_primary_layered(t, pos);
    }
}

/// Every primary expression that is parsed is layered and binds tightest.
pub proof fn lemma_primary_layered(t: Seq<TokenView>, pos: nat)
    ensures
        binds(parse_primary(t, pos), 8),
    decreases remaining(t, pos), 0nat,
{
    reveal(parse_expression);
    if kind_at(t, pos) == TokenKind::LeftParen {
        lemma_expression_layered(t, pos + 1);
    }
}

} // verus!
