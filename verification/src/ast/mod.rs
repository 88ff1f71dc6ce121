//! The syntax tree: expressions and statements, each node owning its
//! children.

use vstd::prelude::*;
use crate::token::{Literal, Token, TokenView, Value};

verus! {

/// Anything that evaluates to a value.
#[derive(Debug)]
pub enum Expr {
    /// A literal value.
    Literal(Literal),
    /// An expression in parentheses.
    Grouping { expression: Box<Expr> },
    /// An assignment to a variable, itself an expression.
    Assign { name: Token, value: Box<Expr> },
    /// `and` or `or`, which evaluate their right side only when needed.
    Logical { left: Box<Expr>, operator: Token, right: Box<Expr> },
    /// An arithmetic operation, a comparison or an equality test.
    Binary { left: Box<Expr>, operator: Token, right: Box<Expr> },
    /// A negation, logical or arithmetic.
    Unary { operator: Token, right: Box<Expr> },
    /// A reference to a variable.
    Variable { name: Token },
}

/// An expression as a mathematical value.
pub enum ExprView {
    Literal(Value),
    Grouping { expression: Box<ExprView> },
    Assign { name: TokenView, value: Box<ExprView> },
    Logical { left: Box<ExprView>, operator: TokenView, right: Box<ExprView> },
    Binary { left: Box<ExprView>, operator: TokenView, right: Box<ExprView> },
    Unary { operator: TokenView, right: Box<ExprView> },
    Variable { name: TokenView },
}

/// The view of an expression.
pub open spec fn expr_view(e: Expr) -> ExprView
    decreases e,
{
    match e {
        Expr::Literal(l) => ExprView::Literal(l@),
        Expr::Grouping { expression } => ExprView::Grouping {
            expression: Box::new(expr_view(*expression)),
        },
        Expr::Assign { name, value } => ExprView::Assign {
            name: name@,
            value: Box::new(expr_view(*value)),
        },
        Expr::Logical { left, operator, right } => ExprView::Logical {
            left: Box::new(expr_view(*left)),
            operator: operator@,
            right: Box::new(expr_view(*right)),
        },
        Expr::Binary { left, operator, right } => ExprView::Binary {
            left: Box::new(expr_view(*left)),
            operator: operator@,
            right: Box::new(expr_view(*right)),
        },
        Expr::Unary { operator, right } => ExprView::Unary {
            operator: operator@,
            right: Box::new(expr_view(*right)),
        },
        Expr::Variable { name } => ExprView::Variable { name: name@ },
    }
}

impl View for Expr {
    type V = ExprView;

    open spec fn view(&self) -> ExprView {
        expr_view(*self)
    }
}

/// A statement: something that is executed for its effect.
#[derive(Debug)]
pub enum Stmt {
    /// An expression evaluated for its effect.
    Expr(Expr),
    /// Evaluates the expression and prints the value.
    Print(Expr),
    /// Declares a variable.
    Var { name: Token, initializer: Expr },
    /// A sequence of statements in braces.
    Block { statements: Vec<Stmt> },
    /// A conditional.
    If { condition: Expr, then_branch: Box<Stmt>, else_branch: Option<Box<Stmt>> },
    /// A loop.
    While { condition: Expr, body: Box<Stmt> },
}

/// A statement as a mathematical value.
pub enum StmtView {
    Expr(ExprView),
    Print(ExprView),
    Var { name: TokenView, initializer: ExprView },
    Block { statements: Seq<StmtView> },
    If { condition: ExprView, then_branch: Box<StmtView>, else_branch: Option<Box<StmtView>> },
    While { condition: ExprView, body: Box<StmtView> },
}

/// The view of a statement.
pub open spec fn stmt_view(s: Stmt) -> StmtView
    decreases s,
{
    match s {
        Stmt::Expr(e) => StmtView::Expr(e@),
        Stmt::Print(e) => StmtView::Print(e@),
        Stmt::Var { name, initializer } => StmtView::Var { name: name@, initializer: initializer@ },
        Stmt::Block { statements } => StmtView::Block {
            statements: Seq::new(
                statements@.len(),
                |i: int|
                    if 0 <= i < statements@.len() {
                        stmt_view(statements@[i])
                    } else {
                        StmtView::Block { statements: Seq::empty() }
                    },
            ),
        },
        Stmt::If { condition, then_branch, else_branch } => StmtView::If {
            condition: condition@,
            then_branch: Box::new(stmt_view(*then_branch)),
            else_branch: match else_branch {
                Some(b) => Some(Box::new(stmt_view(*b))),
                None => None,
            },
        },
        Stmt::While { condition, body } => StmtView::While {
            condition: condition@,
            body: Box::new(stmt_view(*body)),
        },
    }
}

impl View for Stmt {
    type V = StmtView;

    open spec fn view(&self) -> StmtView {
        stmt_view(*self)
    }
}

/// The views of a sequence of statements.
pub open spec fn stmt_views(statements: Seq<Stmt>) -> Seq<StmtView> {
    statements.map_values(|s: Stmt| s@)
}

} // verus!
