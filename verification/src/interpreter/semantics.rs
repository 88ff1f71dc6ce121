//! What evaluation means: the value of an expression and the effect of a
//! statement, as functions of the syntax tree and the variables.

use vstd::prelude::*;
use crate::ast::{ExprView, StmtView};
use crate::environment::Bindings;
use crate::interpreter::error::Fault;
use crate::token::{rendering, TokenKind, TokenView, Value};

verus! {

/// Truthiness: nil and false are falsy, everything else is truthy.
pub open spec fn truthy(v: Value) -> bool {
    !(v is Nil || v == Value::Boolean(false))
}

/// What a unary operator gives for an operand.
pub open spec fn apply_unary(operator: TokenView, v: Value) -> Result<Value, Fault> {
    match operator.kind {
        TokenKind::Bang => Ok(Value::Boolean(!truthy(v))),
        TokenKind::Minus => match v {
            Value::Number(n) => Ok(Value::Number(-n)),
            _ => Err(Fault::TypeMismatch(operator)),
        },
        _ => Err(Fault::TypeMismatch(operator)),
    }
}

/// What an arithmetic or comparison operator gives for two numbers.
pub open spec fn apply_numeric(operator: TokenView, a: real, b: real) -> Result<Value, Fault> {
    match operator.kind {
        TokenKind::Plus => Ok(Value::Number(a + b)),
        TokenKind::Minus => Ok(Value::Number(a - b)),
        TokenKind::Star => Ok(Value::Number(a * b)),
        TokenKind::Slash => if b == 0real {
            Err(Fault::DivisionByZero(operator))
        } else {
            Ok(Value::Number(a / b))
        },
        TokenKind::Greater => Ok(Value::Boolean(a > b)),
        TokenKind::GreaterEqual => Ok(Value::Boolean(a >= b)),
        TokenKind::Less => Ok(Value::Boolean(a < b)),
        TokenKind::LessEqual => Ok(Value::Boolean(a <= b)),
        _ => Err(Fault::TypeMismatch(operator)),
    }
}

/// What a binary operator gives for two operands. Equality compares any
/// two values; `+` also joins two strings; everything else is for numbers.
pub open spec fn apply_binary(operator: TokenView, a: Value, b: Value) -> Result<Value, Fault> {
    match operator.kind {
        TokenKind::EqualEqual => Ok(Value::Boolean(a == b)),
        TokenKind::BangEqual => Ok(Value::Boolean(a != b)),
        _ => match (a, b) {
            (Value::Number(x), Value::Number(y)) => apply_numeric(operator, x, y),
            (Value::Text(x), Value::Text(y)) => if operator.kind == TokenKind::Plus {
                Ok(Value::Text(x + y))
            } else {
                Err(Fault::TypeMismatch(operator))
            },
            _ => Err(Fault::TypeMismatch(operator)),
        },
    }
}

/// What evaluating an expression gives: the value or the error, and the
/// variables afterwards.
pub struct Evaluated {
    pub result: Result<Value, Fault>,
    pub env: Bindings,
}

/// The evaluation of an expression. Operands are evaluated left to right,
/// and what an operand did to the variables stays done if a later one
/// fails.
pub open spec fn evaluation(e: ExprView, env: Bindings) -> Evaluated
    decreases e,
{
    match e {
        ExprView::Literal(v) => Evaluated { result: Ok(v), env },
        ExprView::Grouping { expression } => evaluation(*expression, env),
        ExprView::Unary { operator, right } => {
            let r = evaluation(*right, env);
            match r.result {
                Err(_) => r,
                Ok(v) => Evaluated { result: apply_unary(operator, v), env: r.env },
            }
        },
        ExprView::Binary { left, operator, right } => {
            let l = evaluation(*left, env);
            match l.result {
                Err(_) => l,
                Ok(a) => {
                    let r = evaluation(*right, l.env);
                    match r.result {
                        Err(_) => r,
                        Ok(b) => Evaluated { result: apply_binary(operator, a, b), env: r.env },
                    }
                },
            }
        },
        ExprView::Logical { left, operator, right } => {
            let l = evaluation(*left, env);
            match l.result {
                Err(_) => l,
                Ok(a) => if decided(operator, a) {
                    l
                } else {
                    evaluation(*right, l.env)
                },
            }
        },
        ExprView::Assign { name, value } => {
            let r = evaluation(*value, env);
            match r.result {
                Err(_) => r,
                Ok(v) => if r.env.contains_key(name.lexeme) {
                    Evaluated { result: Ok(v), env: r.env.insert(name.lexeme, v) }
                } else {
                    Evaluated { result: Err(Fault::UndefinedVariable(name)), env: r.env }
                },
            }
        },
        ExprView::Variable { name } => if env.contains_key(name.lexeme) {
            Evaluated { result: Ok(env[name.lexeme]), env }
        } else {
            Evaluated { result: Err(Fault::UndefinedVariable(name)), env }
        },
    }
}

/// Whether the left operand decides a logical expression, so that the
/// right one is not evaluated: a truthy one decides `or`, a falsy one
/// `and`.
pub open spec fn decided(operator: TokenView, left: Value) -> bool {
    if operator.kind == TokenKind::Or {
        truthy(left)
    } else {
        !truthy(left)
    }
}

/// Why a run stopped early.
pub enum Halt {
    /// A runtime error.
    Fault(Fault),
    /// The loops used up the iterations allowed.
    OutOfBudget,
}

/// What running statements gives: the variables afterwards, the lines
/// printed, in order, and either the loop iterations that are still allowed
/// or why the run stopped.
pub struct Outcome {
    pub env: Bindings,
    pub output: Seq<Seq<char>>,
    pub result: Result<nat, Halt>,
}

/// The smaller of two numbers.
pub open spec fn least(a: nat, b: nat) -> nat {
    if a <= b {
        a
    } else {
        b
    }
}

/// A run that ends where the evaluation `e` failed.
pub open spec fn failed(e: Evaluated, f: Fault) -> Outcome {
    Outcome { env: e.env, output: Seq::empty(), result: Err(Halt::Fault(f)) }
}

/// The run `first` followed by the run `rest`.
pub open spec fn sequel(first: Outcome, rest: Outcome) -> Outcome {
    Outcome { env: rest.env, output: first.output + rest.output, result: rest.result }
}

/// The execution of one statement with `budget` loop iterations allowed.
/// Each iteration of a loop's body takes one of them. A run never has more
/// of them left than it was given, so `least` only ever returns what was
/// left.
pub open spec fn execution(s: StmtView, env: Bindings, budget: nat) -> Outcome
    decreases budget, s, 0nat,
{
    match s {
        StmtView::Expr(e) => {
            let r = evaluation(e, env);
            match r.result {
                Err(f) => failed(r, f),
                Ok(_) => Outcome { env: r.env, output: Seq::empty(), result: Ok(budget) },
            }
        },
        StmtView::Print(e) => {
            let r = evaluation(e, env);
            match r.result {
                Err(f) => failed(r, f),
                Ok(v) => Outcome { env: r.env, output: seq![rendering(v)], result: Ok(budget) },
            }
        },
        StmtView::Var { name, initializer } => {
            let r = evaluation(initializer, env);
            match r.result {
                Err(f) => failed(r, f),
                Ok(v) => Outcome {
                    env: r.env.insert(name.lexeme, v),
                    output: Seq::empty(),
                    result: Ok(budget),
                },
            }
        },
        StmtView::Block { statements } => execution_from(statements, 0, env, budget),
        StmtView::If { condition, then_branch, else_branch } => {
            let c = evaluation(condition, env);
            match c.result {
                Err(f) => failed(c, f),
                Ok(v) => if truthy(v) {
                    execution(*then_branch, c.env, budget)
                } else {
                    match else_branch {
                        Some(branch) => execution(*branch, c.env, budget),
                        None => Outcome { env: c.env, output: Seq::empty(), result: Ok(budget) },
                    }
                },
            }
        },
        StmtView::While { condition, body } => {
            let c = evaluation(condition, env);
            match c.result {
                Err(f) => failed(c, f),
                Ok(v) => if !truthy(v) {
                    Outcome { env: c.env, output: Seq::empty(), result: Ok(budget) }
                } else if budget == 0 {
                    Outcome { env: c.env, output: Seq::empty(), result: Err(Halt::OutOfBudget) }
                } else {
                    let once = execution(*body, c.env, (budget - 1) as nat);
                    match once.result {
                        Err(_) => once,
                        Ok(left) => sequel(
                            once,
                            execution(s, once.env, least(left, (budget - 1) as nat)),
                        ),
                    }
                },
            }
        },
    }
}

/// The execution of the statements from the `i`th on, in order, each in
/// the variables that the one before left. The first that stops early ends
/// the run.
pub open spec fn execution_from(statements: Seq<StmtView>, i: nat, env: Bindings, budget: nat) -> Outcome
    decreases budget, statements, statements.len() - i,
{
    if i >= statements.len() {
        Outcome { env, output: Seq::empty(), result: Ok(budget) }
    } else {
        let first = execution(statements[i as int], env, budget);
        match first.result {
            Err(_) => first,
            Ok(left) => sequel(first, execution_from(statements, i + 1, first.env, least(left, budget))),
        }
    }
}

/// The execution of a program.
pub open spec fn run(program: Seq<StmtView>, env: Bindings, budget: nat) -> Outcome {
    execution_from(program, 0, env, budget)
}

/// Short-circuit evaluation: where the left operand decides a logical
/// expression, the expression evaluates as its left operand does, whatever
/// the right operand is; the right operand is not evaluated, so it neither
/// fails nor changes a variable.
pub proof fn lemma_short_circuit(left: ExprView, operator: TokenView, right: ExprView, env: Bindings)
    requires
        evaluation(left, env).result is Ok,
        decided(operator, evaluation(left, env).result->Ok_0),
    ensures
        evaluation(
            ExprView::Logical { left: Box::new(left), operator, right: Box::new(right) },
            env,
        ) == evaluation(left, env),
{
}

/// Assignment needs a declaration: assigning to a name that is not bound
/// fails with `UndefinedVariable` and binds nothing; assigning to a bound
/// name gives the value assigned and binds the name to it.
pub proof fn lemma_assignment_needs_declaration(name: TokenView, value: ExprView, env: Bindings)
    requires
        evaluation(value, env).result is Ok,
    ensures
        ({
            let r = evaluation(value, env);
            let a = evaluation(ExprView::Assign { name, value: Box::new(value) }, env);
            if r.env.contains_key(name.lexeme) {
                &&& a.result == r.result
                &&& a.env == r.env.insert(name.lexeme, r.result->Ok_0)
            } else {
                &&& a.result == Err::<Value, Fault>(Fault::UndefinedVariable(name))
                &&& a.env == r.env
                &&& !a.env.contains_key(name.lexeme)
            }
        }),
{
}

/// Evaluating an expression neither declares nor removes a variable.
pub proof fn lemma_evaluation_keeps_names(e: ExprView, env: Bindings)
    ensures
        evaluation(e, env).env.dom() == env.dom(),
    decreases e,
{
    match e {
        ExprView::Literal(_) => {},
        ExprView::Grouping { expression } => {
            lemma_evaluation_keeps_names(*expression, env);
        },
        ExprView::Unary { operator, right } => {
            lemma_evaluation_keeps_names(*right, env);
        },
        ExprView::Binary { left, operator, right } => {
            lemma_evaluation_keeps_names(*left, env);
            lemma_evaluation_keeps_names(*right, evaluation(*left, env).env);
        },
        ExprView::Logical { left, operator, right } => {
            lemma_evaluation_keeps_names(*left, env);
            lemma_evaluation_keeps_names(*right, evaluation(*left, env).env);
        },
        ExprView::Assign { name, value } => {
            lemma_evaluation_keeps_names(*value, env);
            let r = evaluation(*value, env);
            if r.result is Ok && r.env.contains_key(name.lexeme) {
                assert(r.env.insert(name.lexeme, r.result->Ok_0).dom() =~= r.env.dom());
            }
        },
        ExprView::Variable { name } => {},
    }
}

/// A run has no more loop iterations left than it was given, and removes
/// no variable.
pub proof fn lemma_execution_bounds(s: StmtView, env: Bindings, budget: nat)
    ensures
        execution(s, env, budget).result matches Ok(left) ==> left <= budget,
        env.dom().subset_of(execution(s, env, budget).env.dom()),
    decreases budget, s, 0nat,
{
    match s {
        StmtView::Expr(e) => {
            lemma_evaluation_keeps_names(e, env);
        },
        StmtView::Print(e) => {
            lemma_evaluation_keeps_names(e, env);
        },
        StmtView::Var { name, initializer } => {
            lemma_evaluation_keeps_names(initializer, env);
        },
        StmtView::Block { statements } => {
            lemma_execution_from_bounds(statements, 0, env, budget);
        },
        StmtView::If { condition, then_branch, else_branch } => {
            lemma_evaluation_keeps_names(condition, env);
            let c = evaluation(condition, env);
            if c.result is Ok {
                if truthy(c.result->Ok_0) {
                    lemma_execution_bounds(*then_branch, c.env, budget);
                } else if else_branch is Some {
                    lemma_execution_bounds(*else_branch->0, c.env, budget);
                }
            }
        },
        StmtView::While { condition, body } => {
            lemma_evaluation_keeps_names(condition, env);
            let c = evaluation(condition, env);
            if c.result is Ok && truthy(c.result->Ok_0) && budget > 0 {
                let once = execution(*body, c.env, (budget - 1) as nat);
                lemma_execution_bounds(*body, c.env, (budget - 1) as nat);
                if once.result is Ok {
                    lemma_execution_bounds(
                        s,
                        once.env,
                        least(once.result->Ok_0, (budget - 1) as nat),
                    );
                }
            }
        },
    }
}

/// A run has no more loop iterations left than it was given, and removes
/// no variable.
pub proof fn lemma_execution_from_bounds(statements: Seq<StmtView>, i: nat, env: Bindings, budget: nat)
    ensures
        execution_from(statements, i, env, budget).result matches Ok(left) ==> left <= budget,
        env.dom().subset_of(execution_from(statements, i, env, budget).env.dom()),
    decreases budget, statements, statements.len() - i,
{
    if i < statements.len() {
        let first = execution(statements[i as int], env, budget);
        lemma_execution_bounds(statements[i as int], env, budget);
        if first.result is Ok {
            lemma_execution_from_bounds(
                statements,
                i + 1,
                first.env,
                least(first.result->Ok_0, budget),
            );
        }
    }
}

/// Running statements is running the first `k` of them and then the rest,
/// in the variables and with the budget that the first `k` left: the rest
/// adds to what they printed. If one of the first `k` stops the run, the run
/// ends as they do.
pub proof fn lemma_run_in_two(statements: Seq<StmtView>, i: nat, k: nat, env: Bindings, budget: nat)
    requires
        i <= k <= statements.len(),
    ensures
        ({
            let before = execution_from(statements.take(k as int), i, env, budget);
            execution_from(statements, i, env, budget) == match before.result {
                Ok(left) => sequel(before, execution_from(statements, k, before.env, left)),
                Err(_) => before,
            }
        }),
    decreases k - i,
{
    let prefix = statements.take(k as int);
    let before = execution_from(prefix, i, env, budget);
    let whole = execution_from(statements, i, env, budget);
    if i == k {
        assert(whole.output =~= Seq::<Seq<char>>::empty() + whole.output);
    } else {
        assert(prefix[i as int] == statements[i as int]);
        let first = execution(statements[i as int], env, budget);
        lemma_execution_bounds(statements[i as int], env, budget);
        if first.result is Ok {
            let left = least(first.result->Ok_0, budget);
            lemma_run_in_two(statements, i + 1, k, first.env, left);
            let inner = execution_from(prefix, i + 1, first.env, left);
            if inner.result is Ok {
                let rest = execution_from(statements, k, inner.env, inner.result->Ok_0);
                assert(first.output + (inner.output + rest.output) =~= (first.output
                    + inner.output) + rest.output);
            }
        }
    }
}

/// Error locality: where the statements before the `k`th complete and the
/// `k`th stops the run, the run has printed what they printed and then what
/// the `k`th printed before it stopped, and it ends in the variables that
/// the `k`th left, among them every variable that was there before it.
pub proof fn lemma_failure_keeps_earlier_effects(program: Seq<StmtView>, k: nat, env: Bindings, budget: nat)
    requires
        k < program.len(),
        run(program.take(k as int), env, budget).result is Ok,
        execution(
            program[k as int],
            run(program.take(k as int), env, budget).env,
            run(program.take(k as int), env, budget).result->Ok_0,
        ).result is Err,
    ensures
        ({
            let before = run(program.take(k as int), env, budget);
            let failing = execution(program[k as int], before.env, before.result->Ok_0);
            let whole = run(program, env, budget);
            &&& whole.result == failing.result
            &&& whole.output == before.output + failing.output
            &&& whole.env == failing.env
            &&& before.env.dom().subset_of(whole.env.dom())
            &&& env.dom().subset_of(whole.env.dom())
        }),
{
    let before = run(program.take(k as int), env, budget);
    lemma_run_in_two(program, 0, k, env, budget);
    lemma_execution_from_bounds(program.take(k as int), 0, env, budget);
    lemma_execution_bounds(program[k as int], before.env, before.result->Ok_0);
}

/// Running a print statement again in unchanged variables prints the same
/// again, whatever the budget.
pub proof fn lemma_print_repeats(e: ExprView, env: Bindings, budget: nat, again: nat)
    requires
        execution(StmtView::Print(e), env, budget).env == env,
    ensures
        execution(StmtView::Print(e), execution(StmtView::Print(e), env, budget).env, again).output
            == execution(StmtView::Print(e), env, budget).output,
        execution(StmtView::Print(e), execution(StmtView::Print(e), env, budget).env, again).env
            == env,
{
}

/// The run `o` with `extra` more loop iterations left at its end.
pub open spec fn with_more(o: Outcome, extra: nat) -> Outcome {
    Outcome {
        env: o.env,
        output: o.output,
        result: match o.result {
            Ok(left) => Ok(left + extra),
            Err(h) => Err(h),
        },
    }
}

/// The budget is only a limit: a run that does not run out of budget does
/// the same with any larger budget, and ends with as much more left as it
/// was given more.
pub proof fn lemma_budget_is_only_a_limit(s: StmtView, env: Bindings, budget: nat, extra: nat)
    requires
        execution(s, env, budget).result != Err::<nat, Halt>(Halt::OutOfBudget),
    ensures
        execution(s, env, budget + extra) == with_more(execution(s, env, budget), extra),
    decreases budget, s, 0nat,
{
    match s {
        StmtView::Expr(e) => {},
        StmtView::Print(e) => {},
        StmtView::Var { name, initializer } => {},
        StmtView::Block { statements } => {
            lemma_budget_is_only_a_limit_from(statements, 0, env, budget, extra);
        },
        StmtView::If { condition, then_branch, else_branch } => {
            let c = evaluation(condition, env);
            if c.result is Ok {
                if truthy(c.result->Ok_0) {
                    lemma_budget_is_only_a_limit(*then_branch, c.env, budget, extra);
                } else if else_branch is Some {
                    lemma_budget_is_only_a_limit(*else_branch->0, c.env, budget, extra);
                }
            }
        },
        StmtView::While { condition, body } => {
            let c = evaluation(condition, env);
            if c.result is Ok && truthy(c.result->Ok_0) {
                let once = execution(*body, c.env, (budget - 1) as nat);
                lemma_budget_is_only_a_limit(*body, c.env, (budget - 1) as nat, extra);
                lemma_execution_bounds(*body, c.env, (budget - 1) as nat);
                if once.result is Ok {
                    let left = once.result->Ok_0;
                    assert(least(left, (budget - 1) as nat) == left);
                    assert(least(left + extra, (budget + extra - 1) as nat) == left + extra);
                    lemma_budget_is_only_a_limit(s, once.env, left, extra);
                }
            }
        },
    }
}

/// The budget is only a limit, for statements in a row.
pub proof fn lemma_budget_is_only_a_limit_from(
    statements: Seq<StmtView>,
    i: nat,
    env: Bindings,
    budget: nat,
    extra: nat,
)
    requires
        execution_from(statements, i, env, budget).result != Err::<nat, Halt>(Halt::OutOfBudget),
    ensures
        execution_from(statements, i, env, budget + extra) == with_more(
            execution_from(statements, i, env, budget),
            extra,
        ),
    decreases budget, statements, statements.len() - i,
{
    if i < statements.len() {
        let first = execution(statements[i as int], env, budget);
        lemma_budget_is_only_a_limit(statements[i as int], env, budget, extra);
        lemma_execution_bounds(statements[i as int], env, budget);
        if first.result is Ok {
            let left = first.result->Ok_0;
            assert(least(left, budget) == left);
            assert(least(left + extra, budget + extra) == left + extra);
            lemma_budget_is_only_a_limit_from(statements, i + 1, first.env, left, extra);
        }
    }
}

} // verus!
