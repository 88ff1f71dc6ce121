//! An `else` belongs to the nearest `if`: no conditional that has an
//! `else` has, as its first branch, a statement that ends with a conditional
//! still lacking one.

use vstd::prelude::*;
use crate::ast::StmtView;
use crate::parser::grammar::{
    kind_at, parse_block_items, parse_condition, parse_declaration, parse_program, parse_statement,
    remaining,
};
use crate::token::{TokenKind, TokenView};

verus! {

/// Whether the statement ends with a conditional that has no `else`, so
/// that an `else` written behind the statement would be read as that
/// conditional's.
pub open spec fn open_ended(s: StmtView) -> bool
    decreases s,
{
    match s {
        StmtView::If { else_branch, .. } => match else_branch {
            None => true,
            Some(branch) => open_ended(*branch),
        },
        StmtView::While { body, .. } => open_ended(*body),
        _ => false,
    }
}

/// Whether, everywhere in the statement, the first branch of a conditional
/// with an `else` does not end with a conditional lacking one.
pub open spec fn else_is_nearest(s: StmtView) -> bool
    decreases s,
{
    match s {
        StmtView::Block { statements } => forall|i: int|
            0 <= i < statements.len() ==> else_is_nearest(#[trigger] statements[i]),
        StmtView::If { then_branch, else_branch, .. } => {
            &&& else_is_nearest(*then_branch)
            &&& match else_branch {
                None => true,
                Some(branch) => else_is_nearest(*branch) && !open_ended(*then_branch),
            }
        },
        StmtView::While { body, .. } => else_is_nearest(*body),
        _ => true,
    }
}

/// No `else` follows a parsed statement that ends with a conditional
/// lacking one: the conditional would have taken it.
pub proof fn lemma_open_end_has_no_else(t: Seq<TokenView>, pos: nat)
    ensures
        parse_statement(t, pos) matches Ok((s, n)) ==> (open_ended(s) ==> kind_at(t, pos + n)
            != TokenKind::Else),
    decreases remaining(t, pos),
{
    reveal(parse_statement);
    let kind = kind_at(t, pos);
    if kind == TokenKind::If || kind == TokenKind::While {
        match parse_condition(t, pos) {
            Err(_) => {},
            Ok((condition, n)) => {
                lemma_open_end_has_no_else(t, pos + n);
                match parse_statement(t, pos + n) {
                    Err(_) => {},
                    Ok((first, m)) => {
                        if kind == TokenKind::If && kind_at(t, pos + n + m) == TokenKind::Else {
                            lemma_open_end_has_no_else(t, pos + n + m + 1);
                        }
                    },
                }
            },
        }
    }
}

/// In every statement that is parsed, an `else` belongs to the nearest
/// `if`.
pub proof fn lemma_statement_else_is_nearest(t: Seq<TokenView>, pos: nat)
    ensures
        parse_statement(t, pos) matches Ok((s, _)) ==> else_is_nearest(s),
    decreases remaining(t, pos), 11nat,
{
    reveal(parse_statement);
    let kind = kind_at(t, pos);
    if kind == TokenKind::LeftBrace {
        lemma_block_else_is_nearest(t, pos + 1);
    } else if kind == TokenKind::If || kind == TokenKind::While {
        match parse_condition(t, pos) {
            Err(_) => {},
            Ok((condition, n)) => {
                lemma_statement_else_is_nearest(t, pos + n);
                lemma_open_end_has_no_else(t, pos + n);
                match parse_statement(t, pos + n) {
                    Err(_) => {},
                    Ok((first, m)) => {
                        if kind == TokenKind::If && kind_at(t, pos + n + m) == TokenKind::Else {
                            lemma_statement_else_is_nearest(t, pos + n + m + 1);
                        }
                    },
                }
            },
        }
    }
}

/// In every declaration that is parsed, an `else` belongs to the nearest
/// `if`.
pub proof fn lemma_declaration_else_is_nearest(t: Seq<TokenView>, pos: nat)
    ensures
        parse_declaration(t, pos) matches Ok((s, _)) ==> else_is_nearest(s),
    decreases remaining(t, pos), 12nat,
{
    reveal(parse_declaration);
    reveal(parse_statement);
    if kind_at(t, pos) != TokenKind::Var {
        lemma_statement_else_is_nearest(t, pos);
    }
}

/// In the statements of every block that is parsed, an `else` belongs to
/// the nearest `if`.
pub proof fn lemma_block_else_is_nearest(t: Seq<TokenView>, pos: nat)
    ensures
        parse_block_items(t, pos) matches Ok((items, _)) ==> forall|i: int|
            0 <= i < items.len() ==> else_is_nearest(#[trigger] items[i]),
    decreases remaining(t, pos), 13nat,
{
    reveal(parse_declaration);
    if kind_at(t, pos) != TokenKind::RightBrace && kind_at(t, pos) != TokenKind::Eof {
        lemma_declaration_else_is_nearest(t, pos);
        match parse_declaration(t, pos) {
            Err(_) => {},
            Ok((first, n)) => {
                if n > 0 {
                    lemma_block_else_is_nearest(t, pos + n);
                    match parse_block_items(t, pos + n) {
                        Err(_) => {},
                        Ok((rest, m)) => {
                            let items = seq![first] + rest;
                            assert forall|i: int| 0 <= i < items.len() implies else_is_nearest(
                                #[trigger] items[i],
                            ) by {
                                if i > 0 {
                                    assert(items[i] == rest[i - 1]);
                                }
                            }
                        },
                    }
                }
            },
        }
    }
}

/// The dangling `else`: in every program that is parsed, each `else`
/// belongs to the nearest `if` before it that has none yet.
pub proof fn lemma_program_else_is_nearest(t: Seq<TokenView>, pos: nat)
    ensures
        parse_program(t, pos) matches Ok(program) ==> forall|i: int|
            0 <= i < program.len() ==> else_is_nearest(#[trigger] program[i]),
    decreases remaining(t, pos),
{
    if kind_at(t, pos) != TokenKind::Eof {
        lemma_declaration_else_is_nearest(t, pos);
        match parse_declaration(t, pos) {
            Err(_) => {},
            Ok((first, n)) => {
                if n > 0 {
                    lemma_program_else_is_nearest(t, pos + n);
                    match parse_program(t, pos + n) {
                        Err(_) => {},
                        Ok(rest) => {
                            let program = seq![first] + rest;
                            assert forall|i: int| 0 <= i < program.len() implies else_is_nearest(
                                #[trigger] program[i],
                            ) by {
                                if i > 0 {
                                    assert(program[i] == rest[i - 1]);
                                }
                            }
                        },
                    }
                }
            },
        }
    }
}

} // verus!
