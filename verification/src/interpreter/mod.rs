//! The evaluator: walks the syntax tree, reads and writes the variables and
//! hands the printed values to the caller.

pub mod error;
pub mod semantics;

use vstd::prelude::*;
use vstd::string::*;
use crate::ast::{stmt_views, Expr, Stmt};
use crate::environment::Environment;
use crate::interpreter::error::{Error, ErrorKind, Fault};
use crate::interpreter::semantics::{
    apply_binary, apply_numeric, apply_unary, evaluation, execution, execution_from, truthy, Halt,
};
use crate::number::Number;
use crate::token::{rendering, Literal, Token, TokenKind, Value};

verus! {

/// A runtime value. Evaluating a literal gives the literal itself, so the
/// two are one type.
pub type Object = Literal;

/// Why a run stopped early.
#[derive(Debug)]
pub enum Stop {
    /// A runtime error.
    Error(Error),
    /// The loops used up the iterations allowed.
    OutOfBudget,
}

impl View for Stop {
    type V = Halt;

    open spec fn view(&self) -> Halt {
        match self {
            Stop::Error(e) => Halt::Fault(e@),
            Stop::OutOfBudget => Halt::OutOfBudget,
        }
    }
}

/// The lines as sequences of characters.
pub open spec fn line_views(lines: Seq<String>) -> Seq<Seq<char>> {
    lines.map_values(|l: String| l@)
}

/// Whether the answer `r` is the result `expected`.
pub open spec fn value_agrees(r: Result<Object, Error>, expected: Result<Value, Fault>) -> bool {
    match expected {
        Ok(v) => r is Ok && r->Ok_0@ == v,
        Err(f) => r is Err && r->Err_0@ == f,
    }
}

/// Whether the answer `r` is the result `expected`.
pub open spec fn budget_agrees(r: Result<u64, Stop>, expected: Result<nat, Halt>) -> bool {
    match expected {
        Ok(left) => r is Ok && r->Ok_0 == left,
        Err(h) => r is Err && r->Err_0@ == h,
    }
}

/// Truthiness: nil and false are falsy, everything else is truthy.
pub fn is_truthy(v: &Object) -> (r: bool)
    ensures
        r == truthy(v@),
{
    match v {
        Literal::Nil => false,
        Literal::Boolean(b) => *b,
        _ => true,
    }
}

fn mismatch(operator: &Token) -> (r: Result<Object, Error>)
    ensures
        r is Err,
        r->Err_0@ == Fault::TypeMismatch(operator@),
{
    Err(Error::new(ErrorKind::TypeMismatch(operator.clone())))
}

/// Applies a unary operator.
pub fn unary_op(operator: &Token, v: &Object) -> (r: Result<Object, Error>)
    ensures
        value_agrees(r, apply_unary(operator@, v@)),
{
    match operator.kind {
        TokenKind::Bang => Ok(Literal::Boolean(!is_truthy(v))),
        TokenKind::Minus => match v {
            Literal::Number(n) => Ok(Literal::Number(n.negated())),
            _ => mismatch(operator),
        },
        _ => mismatch(operator),
    }
}

/// Applies an arithmetic or comparison operator to two numbers.
fn numeric_op(operator: &Token, a: &Number, b: &Number) -> (r: Result<Object, Error>)
    ensures
        value_agrees(r, apply_numeric(operator@, a@, b@)),
{
    match operator.kind {
        TokenKind::Plus => Ok(Literal::Number(a.plus(b))),
        TokenKind::Minus => Ok(Literal::Number(a.minus(b))),
        TokenKind::Star => Ok(Literal::Number(a.times(b))),
        TokenKind::Slash => match a.divided_by(b) {
            Some(q) => Ok(Literal::Number(q)),
            None => Err(Error::new(ErrorKind::DivisionByZero(operator.clone()))),
        },
        TokenKind::Greater => Ok(Literal::Boolean(b.less_than(a))),
        TokenKind::GreaterEqual => Ok(Literal::Boolean(!a.less_than(b))),
        TokenKind::Less => Ok(Literal::Boolean(a.less_than(b))),
        TokenKind::LessEqual => Ok(Literal::Boolean(!b.less_than(a))),
        _ => mismatch(operator),
    }
}

/// Applies a binary operator.
pub fn binary_op(operator: &Token, a: &Object, b: &Object) -> (r: Result<Object, Error>)
    ensures
        value_agrees(r, apply_binary(operator@, a@, b@)),
{
    match operator.kind {
        TokenKind::EqualEqual => Ok(Literal::Boolean(a.equals(b))),
        TokenKind::BangEqual => Ok(Literal::Boolean(!a.equals(b))),
        _ => match a {
            Literal::Number(x) => match b {
                Literal::Number(y) => numeric_op(operator, x, y),
                _ => mismatch(operator),
            },
            Literal::String(x) => match b {
                Literal::String(y) => match operator.kind {
                    TokenKind::Plus => Ok(Literal::String(x.clone().concat(y.as_str()))),
                    _ => mismatch(operator),
                },
                _ => mismatch(operator),
            },
            _ => mismatch(operator),
        },
    }
}

/// Evaluates an expression in the environment, which assignments in it
/// change.
pub fn evaluate(expr: &Expr, env: &mut Environment) -> (r: Result<Object, Error>)
    ensures
        final(env)@ == evaluation(expr@, old(env)@).env,
        value_agrees(r, evaluation(expr@, old(env)@).result),
    decreases expr,
{
    match expr {
        Expr::Literal(l) => Ok(l.clone()),
        Expr::Grouping { expression } => evaluate(expression, env),
        Expr::Unary { operator, right } => match evaluate(right, env) {
            Err(e) => Err(e),
            Ok(v) => unary_op(operator, &v),
        },
        Expr::Binary { left, operator, right } => match evaluate(left, env) {
            Err(e) => Err(e),
            Ok(a) => match evaluate(right, env) {
                Err(e) => Err(e),
                Ok(b) => binary_op(operator, &a, &b),
            },
        },
        Expr::Logical { left, operator, right } => match evaluate(left, env) {
            Err(e) => Err(e),
            Ok(a) => {
                let short = if operator.kind == TokenKind::Or {
                    is_truthy(&a)
                } else {
                    !is_truthy(&a)
                };
                if short {
                    Ok(a)
                } else {
                    evaluate(right, env)
                }
            },
        },
        Expr::Assign { name, value } => match evaluate(value, env) {
            Err(e) => Err(e),
            Ok(v) => match env.assign(name, v.clone()) {
                Err(e) => Err(e),
                Ok(_) => Ok(v),
            },
        },
        Expr::Variable { name } => {
            let ghost before = env@;
            match env.get(name) {
                Err(e) => Err(e),
                Ok(slot) => {
                    let v = slot.clone();
                    assert(env@ =~= before);
                    Ok(v)
                },
            }
        },
    }
}

/// Executes one statement. Each value printed is appended to `out` as a
/// line of text. A loop
/// iteration takes one from `budget`; what is left of it is returned. A
/// statement that fails or runs out of budget stops the run, and what it did
/// before stays done.
#[verifier::loop_isolation(false)]
pub fn execute_statement(stmt: &Stmt, env: &mut Environment, out: &mut Vec<String>, budget: u64) -> (r:
    Result<u64, Stop>)
    ensures
        final(env)@ == execution(stmt@, old(env)@, budget as nat).env,
        line_views(final(out)@) == line_views(old(out)@) + execution(
            stmt@,
            old(env)@,
            budget as nat,
        ).output,
        budget_agrees(r, execution(stmt@, old(env)@, budget as nat).result),
        r matches Ok(left) ==> left <= budget,
    decreases stmt, 0nat,
{
    let ghost printed = line_views(out@);
    assert(printed + Seq::<Seq<char>>::empty() =~= printed);
    match stmt {
        Stmt::Expr(e) => match evaluate(e, env) {
            Err(e) => Err(Stop::Error(e)),
            Ok(_) => Ok(budget),
        },
        Stmt::Print(e) => match evaluate(e, env) {
            Err(e) => Err(Stop::Error(e)),
            Ok(v) => {
                let line = v.to_text();
                out.push(line);
                assert(line_views(out@) =~= printed + seq![rendering(v@)]);
                Ok(budget)
            },
        },
        Stmt::Var { name, initializer } => match evaluate(initializer, env) {
            Err(e) => Err(Stop::Error(e)),
            Ok(v) => {
                env.define(name.lexeme.as_str(), v);
                Ok(budget)
            },
        },
        Stmt::Block { statements } => {
            assert(stmt@->Block_statements =~= stmt_views(statements@));
            execute_all(statements, env, out, budget)
        },
        Stmt::If { condition, then_branch, else_branch } => match evaluate(condition, env) {
            Err(e) => Err(Stop::Error(e)),
            Ok(v) => if is_truthy(&v) {
                execute_statement(then_branch, env, out, budget)
            } else {
                match else_branch {
                    Some(branch) => execute_statement(branch, env, out, budget),
                    None => Ok(budget),
                }
            },
        },
        Stmt::While { condition, body } => {
            let ghost whole = execution(stmt@, env@, budget as nat);
            let mut left = budget;
            loop
                invariant
                    left <= budget,
                    whole.env == execution(stmt@, env@, left as nat).env,
                    printed + whole.output == line_views(out@) + execution(
                        stmt@,
                        env@,
                        left as nat,
                    ).output,
                    whole.result == execution(stmt@, env@, left as nat).result,
                decreases left,
            {
                let ghost so_far = line_views(out@);
                let ghost rest = execution(stmt@, env@, left as nat);
                assert(so_far + Seq::<Seq<char>>::empty() =~= so_far);
                match evaluate(condition, env) {
                    Err(e) => {
                        return Err(Stop::Error(e));
                    },
                    Ok(v) => {
                        if !is_truthy(&v) {
                            return Ok(left);
                        }
                        if left == 0 {
                            return Err(Stop::OutOfBudget);
                        }
                        let ghost during = env@;
                        match execute_statement(body, env, out, left - 1) {
                            Err(stop) => {
                                return Err(stop);
                            },
                            Ok(after) => {
                                proof {
                                    let once = execution(body@, during, (left - 1) as nat);
                                    let next = execution(stmt@, env@, after as nat);
                                    assert(so_far + (once.output + next.output) =~= (so_far
                                        + once.output) + next.output);
                                }
                                left = after;
                            },
                        }
                    },
                }
            }
        },
    }
}

/// Executes statements in order, up to the first that stops the run.
#[verifier::loop_isolation(false)]
pub fn execute_all(statements: &Vec<Stmt>, env: &mut Environment, out: &mut Vec<String>, budget: u64) -> (r:
    Result<u64, Stop>)
    ensures
        final(env)@ == execution_from(stmt_views(statements@), 0, old(env)@, budget as nat).env,
        line_views(final(out)@) == line_views(old(out)@) + execution_from(
            stmt_views(statements@),
            0,
            old(env)@,
            budget as nat,
        ).output,
        budget_agrees(
            r,
            execution_from(stmt_views(statements@), 0, old(env)@, budget as nat).result,
        ),
        r matches Ok(left) ==> left <= budget,
    decreases statements, 1nat,
{
    let ghost printed = line_views(out@);
    let ghost views = stmt_views(statements@);
    let ghost whole = execution_from(views, 0, env@, budget as nat);
    let mut left = budget;
    let mut i: usize = 0;
    while i < statements.len()
        invariant
            i <= statements.len(),
            left <= budget,
            whole.env == execution_from(views, i as nat, env@, left as nat).env,
            printed + whole.output == line_views(out@) + execution_from(
                views,
                i as nat,
                env@,
                left as nat,
            ).output,
            whole.result == execution_from(views, i as nat, env@, left as nat).result,
        decreases statements.len() - i,
    {
        let ghost so_far = line_views(out@);
        let ghost during = env@;
        assert(views[i as int] == statements@[i as int]@);
        match execute_statement(&statements[i], env, out, left) {
            Err(stop) => {
                return Err(stop);
            },
            Ok(after) => {
                proof {
                    let first = execution(views[i as int], during, left as nat);
                    let next = execution_from(views, (i + 1) as nat, env@, after as nat);
                    assert(so_far + (first.output + next.output) =~= (so_far + first.output)
                        + next.output);
                }
                left = after;
                i += 1;
            },
        }
    }
    assert(line_views(out@) + Seq::<Seq<char>>::empty() =~= line_views(out@));
    Ok(left)
}

/// Executes a program in the environment: its statements in order, for
/// their effects.
pub fn execute(program: &Vec<Stmt>, env: &mut Environment, out: &mut Vec<String>, budget: u64) -> (r:
    Result<u64, Stop>)
    ensures
        final(env)@ == crate::interpreter::semantics::run(
            stmt_views(program@),
            old(env)@,
            budget as nat,
        ).env,
        line_views(final(out)@) == line_views(old(out)@) + crate::interpreter::semantics::run(
            stmt_views(program@),
            old(env)@,
            budget as nat,
        ).output,
        budget_agrees(
            r,
            crate::interpreter::semantics::run(stmt_views(program@), old(env)@, budget as nat).result,
        ),
{
    execute_all(program, env, out, budget)
}

} // verus!
