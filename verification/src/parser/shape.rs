//! The parser rearranges nothing: the tokens of the tree it builds, written
//! out in order, are the tokens it read.

use vstd::prelude::*;
use crate::ast::ExprView;
use crate::parser::grammar::{
    combine, kind_at, parse_assignment, parse_binary, parse_binary_rest, parse_expression,
    parse_primary, parse_unary, remaining, tighter, token_at, Level, looseness,
};
use crate::scanner::{lemma_lex_step_advances, lex_step, scan, scan_from, Lexed};
use crate::token::{TokenKind, TokenView, Value};

verus! {

/// The kind of token that writes the literal value.
pub open spec fn literal_kind(v: Value) -> TokenKind {
    match v {
        Value::Number(_) => TokenKind::Number,
        Value::Text(_) => TokenKind::String,
        Value::Boolean(b) => if b {
            TokenKind::True
        } else {
            TokenKind::False
        },
        Value::Nil => TokenKind::Nil,
    }
}

/// The kinds of the tokens that write the expression, in order.
pub open spec fn kinds_of(e: ExprView) -> Seq<TokenKind>
    decreases e,
{
    match e {
        ExprView::Literal(v) => seq![literal_kind(v)],
        ExprView::Grouping { expression } => seq![TokenKind::LeftParen] + kinds_of(*expression)
            + seq![TokenKind::RightParen],
        ExprView::Assign { name, value } => seq![name.kind, TokenKind::Equal] + kinds_of(*value),
        ExprView::Logical { left, operator, right } => kinds_of(*left) + seq![operator.kind]
            + kinds_of(*right),
        ExprView::Binary { left, operator, right } => kinds_of(*left) + seq![operator.kind]
            + kinds_of(*right),
        ExprView::Unary { operator, right } => seq![operator.kind] + kinds_of(*right),
        ExprView::Variable { name } => seq![name.kind],
    }
}

/// The kinds of the tokens from `from` up to `to`.
pub open spec fn kinds(t: Seq<TokenView>, from: nat, to: nat) -> Seq<TokenKind> {
    t.subrange(from as int, to as int).map_values(|x: TokenView| x.kind)
}

/// Every number token carries a number and every string token a string, as
/// the tokens of a scan do.
pub open spec fn literals_tagged(t: Seq<TokenView>) -> bool {
    forall|i: int| 0 <= i < t.len() ==> tagged(#[trigger] t[i])
}

/// A number token carries a number and a string token a string.
pub open spec fn tagged(token: TokenView) -> bool {
    match token.kind {
        TokenKind::Number => token.literal is Some && token.literal->0 is Number,
        TokenKind::String => token.literal is Some && token.literal->0 is Text,
        _ => true,
    }
}

/// The kinds of two stretches of tokens that meet, joined.
pub proof fn lemma_kinds_join(t: Seq<TokenView>, a: nat, b: nat, c: nat)
    requires
        a <= b <= c <= t.len(),
    ensures
        kinds(t, a, b) + kinds(t, b, c) == kinds(t, a, c),
{
    assert(kinds(t, a, b) + kinds(t, b, c) =~= kinds(t, a, c));
}

/// The kind of one token.
pub proof fn lemma_kinds_one(t: Seq<TokenView>, a: nat)
    requires
        a < t.len(),
    ensures
        kinds(t, a, a + 1) == seq![t[a as int].kind],
        kinds(t, a, a) == Seq::<TokenKind>::empty(),
{
    assert(kinds(t, a, a + 1) =~= seq![t[a as int].kind]);
    assert(kinds(t, a, a) =~= Seq::<TokenKind>::empty());
}

/// Whether the result `g` of parsing from `pos` is, if it is an expression,
/// one that the tokens from `start` up to its end write.
pub open spec fn writes(t: Seq<TokenView>, start: nat, pos: nat, g: Result<(ExprView, nat), crate::parser::grammar::ParseErrorView>) -> bool {
    g matches Ok((e, n)) ==> pos + n <= t.len() && kinds_of(e) == kinds(t, start, pos + n)
}

/// An expression that is parsed is written by the tokens it spans.
pub proof fn lemma_expression_shape(t: Seq<TokenView>, pos: nat)
    requires
        literals_tagged(t),
    ensures
        writes(t, pos, pos, parse_expression(t, pos)),
    decreases remaining(t, pos), 9nat,
{
    reveal(parse_expression);
    lemma_assignment_shape(t, pos);
}

/// An assignment that is parsed is written by the tokens it spans.
pub proof fn lemma_assignment_shape(t: Seq<TokenView>, pos: nat)
    requires
        literals_tagged(t),
    ensures
        writes(t, pos, pos, parse_assignment(t, pos)),
    decreases remaining(t, pos), 8nat,
{
    lemma_binary_shape(t, pos, Level::Or);
    match parse_binary(t, pos, Level::Or) {
        Err(_) => {},
        Ok((left, n)) => {
            if kind_at(t, pos + n) == TokenKind::Equal {
                match left {
                    ExprView::Variable { name } => {
                        lemma_assignment_shape(t, pos + n + 1);
                        match parse_assignment(t, pos + n + 1) {
                            Err(_) => {},
                            Ok((value, m)) => {
                                lemma_kinds_one(t, pos + n);
                                lemma_kinds_join(t, pos, pos + n, pos + n + 1);
                                lemma_kinds_join(t, pos, pos + n + 1, pos + n + 1 + m);
                                assert(seq![name.kind, TokenKind::Equal] =~= seq![name.kind]
                                    + seq![TokenKind::Equal]);
                            },
                        }
                    },
                    _ => {},
                }
            }
        },
    }
}

/// A chain of binary operators that is parsed is written by the tokens it
/// spans.
pub proof fn lemma_binary_shape(t: Seq<TokenView>, pos: nat, level: Level)
    requires
        literals_tagged(t),
    ensures
        writes(t, pos, pos, parse_binary(t, pos, level)),
    decreases remaining(t, pos), 1 + looseness(level),
{
    let first = match tighter(level) {
        Some(l) => {
            lemma_binary_shape(t, pos, l);
            parse_binary(t, pos, l)
        },
        None => {
            lemma_unary_shape(t, pos);
            parse_unary(t, pos)
        },
    };
    match first {
        Err(_) => {},
        Ok((left, n)) => {
            lemma_binary_rest_shape(t, pos, pos + n, level, left);
        },
    }
}

/// The operators and operands that follow an operand are written by the
/// tokens they span, behind those that write the operand.
pub proof fn lemma_binary_rest_shape(t: Seq<TokenView>, start: nat, pos: nat, level: Level, left: ExprView)
    requires
        literals_tagged(t),
        start <= pos <= t.len(),
        kinds_of(left) == kinds(t, start, pos),
    ensures
        writes(t, start, pos, parse_binary_rest(t, pos, level, left)),
    decreases remaining(t, pos), 0nat,
{
    if crate::parser::grammar::is_operator(level, kind_at(t, pos)) {
        let operand = match tighter(level) {
            Some(l) => {
                lemma_binary_shape(t, pos + 1, l);
                parse_binary(t, pos + 1, l)
            },
            None => {
                lemma_unary_shape(t, pos + 1);
                parse_unary(t, pos + 1)
            },
        };
        match operand {
            Err(_) => {},
            Ok((right, n)) => {
                lemma_kinds_one(t, pos);
                lemma_kinds_join(t, start, pos, pos + 1);
                lemma_kinds_join(t, start, pos + 1, pos + 1 + n);
                let whole = combine(level, left, token_at(t, pos), right);
                assert(kinds_of(whole) == kinds_of(left) + seq![token_at(t, pos).kind] + kinds_of(
                    right,
                ));
                lemma_binary_rest_shape(t, start, pos + 1 + n, level, whole);
            },
        }
    }
}

/// A negation that is parsed is written by the tokens it spans.
pub proof fn lemma_unary_shape(t: Seq<TokenView>, pos: nat)
    requires
        literals_tagged(t),
    ensures
        writes(t, pos, pos, parse_unary(t, pos)),
    decreases remaining(t, pos), 1nat,
{
    if kind_at(t, pos) == TokenKind::Bang || kind_at(t, pos) == TokenKind::Minus {
        lemma_unary_shape(t, pos + 1);
        match parse_unary(t, pos + 1) {
            Err(_) => {},
            Ok((right, n)) => {
                lemma_kinds_one(t, pos);
                lemma_kinds_join(t, pos, pos + 1, pos + 1 + n);
            },
        }
    } else {
        lemma_primary_shape(t, pos);
    }
}

/// A primary expression that is parsed is written by the tokens it spans.
pub proof fn lemma_primary_shape(t: Seq<TokenView>, pos: nat)
    requires
        literals_tagged(t),
    ensures
        writes(t, pos, pos, parse_primary(t, pos)),
    decreases remaining(t, pos), 0nat,
{
    reveal(parse_expression);
    if pos < t.len() {
        lemma_kinds_one(t, pos);
        assert(tagged(t[pos as int]));
        if kind_at(t, pos) == TokenKind::LeftParen {
            lemma_expression_shape(t, pos + 1);
            match parse_expression(t, pos + 1) {
                Err(_) => {},
                Ok((inner, n)) => {
                    if kind_at(t, pos + 1 + n) == TokenKind::RightParen {
                        lemma_kinds_one(t, pos + 1 + n);
                        lemma_kinds_join(t, pos, pos + 1, pos + 1 + n);
                        lemma_kinds_join(t, pos, pos + 1 + n, pos + n + 2);
                    }
                },
            }
        }
    }
}

/// The tokens of a scan carry their literals: each number token a number,
/// each string token a string.
pub proof fn lemma_scan_tags_literals(s: Seq<char>, pos: int, line: nat)
    requires
        0 <= pos <= s.len(),
    ensures
        literals_tagged(scan_from(s, pos, line).tokens),
    decreases s.len() - pos,
{
    if pos < s.len() {
        lemma_lex_step_advances(s, pos, line);
        match lex_step(s, pos, line) {
            Lexed::Token { token, next, line: reached } => {
                lemma_scan_tags_literals(s, next, reached);
                let rest = scan_from(s, next, reached).tokens;
                let all = scan_from(s, pos, line).tokens;
                assert(tagged(token));
                assert forall|i: int| 0 <= i < all.len() implies tagged(#[trigger] all[i]) by {
                    if i > 0 {
                        assert(all[i] == rest[i - 1]);
                    }
                }
            },
            Lexed::Skip { next, line: reached } => {
                lemma_scan_tags_literals(s, next, reached);
            },
            Lexed::Fail { .. } => {},
        }
    }
}

/// Parsing keeps the order of what was scanned: an expression parsed from
/// the tokens of a scan is written by the tokens it spans, one for one, with
/// nothing left out and nothing moved.
pub proof fn lemma_parsed_expression_is_what_was_scanned(source: Seq<char>, pos: nat)
    ensures
        writes(scan(source).tokens, pos, pos, parse_expression(scan(source).tokens, pos)),
{
    lemma_scan_tags_literals(source, 0, 1);
    lemma_expression_shape(scan(source).tokens, pos);
}

} // verus!
