//! The parser: tokens in, statements out. One method for each rule of the
//! grammar, which `grammar` states as functions of the token sequence.

pub mod else_binding;
pub mod grammar;
pub mod precedence;
pub mod shape;

use vstd::prelude::*;
use crate::ast::{stmt_views, Expr, ExprView, Stmt, StmtView};
use crate::parser::grammar::{
    combine, error_at, is_operator, kind_at, lemma_declaration_spans, looseness, parse_assignment,
    parse_binary, parse_binary_rest, parse_block_items, parse_condition, parse_declaration,
    parse_expression, parse_primary, parse_program, parse_statement, parse_unary,
    parse_var_declaration, remaining, terminated, tighter, token_at, ExprParse, Level,
    ParseErrorKind, ParseErrorView, StmtParse,
};
use crate::token::{token_views, Literal, Token, TokenKind, TokenView};

verus! {

/// Why parsing stopped: the kind of error and the offending token.
#[derive(Debug)]
pub struct ParseError {
    pub kind: ParseErrorKind,
    pub token: Token,
}

impl View for ParseError {
    type V = ParseErrorView;

    open spec fn view(&self) -> ParseErrorView {
        ParseErrorView { kind: self.kind, token: self.token@ }
    }
}

/// Whether the parser's answer `r`, given after moving from `from` to `to`,
/// is what the grammar says.
pub open spec fn expr_agrees(r: Result<Expr, ParseError>, from: nat, to: nat, g: ExprParse) -> bool {
    match g {
        Ok((e, n)) => r is Ok && r->Ok_0@ == e && to == from + n,
        Err(e) => r is Err && r->Err_0@ == e,
    }
}

/// Whether the parser's answer `r`, given after moving from `from` to `to`,
/// is what the grammar says.
pub open spec fn stmt_agrees(r: Result<Stmt, ParseError>, from: nat, to: nat, g: StmtParse) -> bool {
    match g {
        Ok((s, n)) => r is Ok && r->Ok_0@ == s && to == from + n,
        Err(e) => r is Err && r->Err_0@ == e,
    }
}

/// The operators of a level.
fn operators(level: Level) -> (r: Vec<TokenKind>)
    ensures
        forall|k: TokenKind| r@.contains(k) <==> is_operator(level, k),
{
    let r = match level {
        Level::Or => vec![TokenKind::Or],
        Level::And => vec![TokenKind::And],
        Level::Equality => vec![TokenKind::BangEqual, TokenKind::EqualEqual],
        Level::Comparison => vec![
            TokenKind::Greater,
            TokenKind::GreaterEqual,
            TokenKind::Less,
            TokenKind::LessEqual,
        ],
        Level::Term => vec![TokenKind::Minus, TokenKind::Plus],
        Level::Factor => vec![TokenKind::Slash, TokenKind::Star],
    };
    proof {
        assert forall|k: TokenKind| r@.contains(k) <==> is_operator(level, k) by {
            if is_operator(level, k) {
                let i = choose|i: int| 0 <= i < r@.len() && r@[i] == k;
                assert(r@[i] == k);
            }
        }
    }
    r
}

/// The node for `left operator right` at the level.
fn fold(level: Level, left: Expr, operator: Token, right: Expr) -> (r: Expr)
    ensures
        r@ == combine(level, left@, operator@, right@),
{
    match level {
        Level::Or | Level::And => Expr::Logical {
            left: Box::new(left),
            operator,
            right: Box::new(right),
        },
        _ => Expr::Binary { left: Box::new(left), operator, right: Box::new(right) },
    }
}

/// The parser: the tokens and the place of the token considered next.
pub struct Parser {
    tokens: Vec<Token>,
    current: usize,
}

impl Parser {
    /// The tokens.
    pub closed spec fn tokens(&self) -> Seq<TokenView> {
        token_views(self.tokens@)
    }

    /// The place of the token considered next.
    pub closed spec fn position(&self) -> nat {
        self.current as nat
    }

    /// The cursor is not behind the end of the tokens.
    pub closed spec fn wf(&self) -> bool {
        self.current <= self.tokens.len()
    }

    /// A parser at the first of the tokens.
    pub fn new(tokens: Vec<Token>) -> (r: Parser)
        ensures
            r.wf(),
            r.tokens() == token_views(tokens@),
            r.position() == 0,
    {
        Parser { tokens, current: 0 }
    }

    /// The kind of the token at the cursor.
    fn peek_kind(&self) -> (r: TokenKind)
        requires
            self.wf(),
        ensures
            r == kind_at(self.tokens(), self.position()),
    {
        if self.current < self.tokens.len() {
            self.tokens[self.current].kind
        } else {
            TokenKind::Eof
        }
    }

    /// Whether the tokens are used up.
    fn is_at_end(&self) -> (r: bool)
        requires
            self.wf(),
        ensures
            r == (kind_at(self.tokens(), self.position()) == TokenKind::Eof),
    {
        self.peek_kind() == TokenKind::Eof
    }

    /// The token at the cursor.
    fn peek(&self) -> (r: Token)
        requires
            self.wf(),
        ensures
            r@ == token_at(self.tokens(), self.position()),
    {
        if self.current < self.tokens.len() {
            self.tokens[self.current].clone()
        } else {
            Token::new(TokenKind::Eof, String::new(), None, 0)
        }
    }

    /// The token before the cursor.
    fn previous(&self) -> (r: Token)
        requires
            self.wf(),
            self.position() > 0,
        ensures
            r@ == token_at(self.tokens(), (self.position() - 1) as nat),
    {
        self.tokens[self.current - 1].clone()
    }

    /// Moves the cursor past the token it stands at, unless the tokens are
    /// used up, and returns the token that is then before the cursor: the
    /// token consumed, or, at the end of the tokens, the last one before the
    /// end. There has to be such a token.
    fn advance(&mut self) -> (r: Token)
        requires
            old(self).wf(),
            old(self).position() >= 1 || kind_at(old(self).tokens(), old(self).position())
                != TokenKind::Eof,
        ensures
            final(self).wf(),
            final(self).tokens == old(self).tokens,
            final(self).position() == old(self).position() + if kind_at(
                old(self).tokens(),
                old(self).position(),
            ) == TokenKind::Eof {
                0nat
            } else {
                1nat
            },
            final(self).position() >= 1,
            r@ == token_at(final(self).tokens(), (final(self).position() - 1) as nat),
    {
        if !self.is_at_end() {
            self.current += 1;
        }
        self.previous()
    }

    /// Whether the token at the cursor is of the kind, the tokens not being
    /// used up.
    fn check(&self, kind: TokenKind) -> (r: bool)
        requires
            self.wf(),
        ensures
            r == (kind_at(self.tokens(), self.position()) == kind && kind != TokenKind::Eof),
    {
        if self.is_at_end() {
            false
        } else {
            self.peek_kind() == kind
        }
    }

    /// Consumes the token at the cursor if it is of one of the kinds.
    fn matches(&mut self, kinds: &[TokenKind]) -> (r: bool)
        requires
            old(self).wf(),
        ensures
            final(self).wf(),
            final(self).tokens == old(self).tokens,
            r == (kinds@.contains(kind_at(old(self).tokens(), old(self).position())) && kind_at(
                old(self).tokens(),
                old(self).position(),
            ) != TokenKind::Eof),
            final(self).position() == old(self).position() + if r {
                1nat
            } else {
                0nat
            },
    {
        let mut i: usize = 0;
        let mut found = false;
        while i < kinds.len()
            invariant
                self.wf(),
                i <= kinds.len(),
                found == exists|j: int|
                    0 <= j < i && kinds@[j] == kind_at(self.tokens(), self.position()) && kinds@[j]
                        != TokenKind::Eof,
            decreases kinds.len() - i,
        {
            if self.check(kinds[i]) {
                found = true;
            }
            i += 1;
        }
        if found {
            self.advance();
            true
        } else {
            false
        }
    }

    /// Consumes the token at the cursor if it is of the kind, and fails
    /// with an error of kind `otherwise` at that token, leaving the cursor,
    /// if it is not. The end of the tokens is never consumed.
    fn consume(&mut self, kind: TokenKind, otherwise: ParseErrorKind) -> (r: Result<Token, ParseError>)
        requires
            old(self).wf(),
        ensures
            final(self).wf(),
            final(self).tokens == old(self).tokens,
            r is Ok <==> kind_at(old(self).tokens(), old(self).position()) == kind && kind
                != TokenKind::Eof,
            match r {
                Ok(token) => {
                    &&& token@ == token_at(old(self).tokens(), old(self).position())
                    &&& final(self).position() == old(self).position() + 1
                },
                Err(e) => {
                    &&& e@ == error_at(otherwise, old(self).tokens(), old(self).position())
                    &&& final(self).position() == old(self).position()
                },
            },
    {
        if self.check(kind) {
            Ok(self.advance())
        } else {
            Err(ParseError { kind: otherwise, token: self.peek() })
        }
    }

    /// Whether the parser `self`, having started from `before` and
    /// answered `r`, did what the grammar's result `g` says.
    pub closed spec fn parsed_expr(&self, before: &Parser, r: Result<Expr, ParseError>, g: ExprParse) -> bool {
        &&& self.wf()
        &&& self.tokens == before.tokens
        &&& expr_agrees(r, before.position(), self.position(), g)
        &&& self.stopped_at(before, r is Err, r->Err_0)
    }

    /// Whether the parser `self`, having started from `before` and
    /// answered `r`, did what the grammar's result `g` says.
    pub closed spec fn parsed_stmt(&self, before: &Parser, r: Result<Stmt, ParseError>, g: StmtParse) -> bool {
        &&& self.wf()
        &&& self.tokens == before.tokens
        &&& stmt_agrees(r, before.position(), self.position(), g)
        &&& self.stopped_at(before, r is Err, r->Err_0)
    }

    /// Where the parser stands after an error: not before where it
    /// started, and at the offending token, which the error carries.
    pub open spec fn stopped_at(&self, before: &Parser, failed: bool, e: ParseError) -> bool {
        failed ==> {
            &&& before.position() <= self.position()
            &&& e@.token == token_at(self.tokens(), self.position())
        }
    }

    /// Parses an expression.
    pub fn expression(&mut self) -> (r: Result<Expr, ParseError>)
        requires
            old(self).wf(),
        ensures
            final(self).wf(),
            final(self).tokens() == old(self).tokens(),
            expr_agrees(
                r,
                old(self).position(),
                final(self).position(),
                parse_expression(old(self).tokens(), old(self).position()),
            ),
            final(self).parsed_expr(
                old(self),
                r,
                parse_expression(old(self).tokens(), old(self).position()),
            ),
            final(self).stopped_at(old(self), r is Err, r->Err_0),
        decreases remaining(old(self).tokens(), old(self).position()), 40nat,
    {
        proof {
            reveal(parse_expression);
        }
        self.assignment()
    }

    /// Parses an assignment, or an expression that binds tighter.
    fn assignment(&mut self) -> (r: Result<Expr, ParseError>)
        requires
            old(self).wf(),
        ensures
            final(self).parsed_expr(
                old(self),
                r,
                parse_assignment(old(self).tokens(), old(self).position()),
            ),
        decreases remaining(old(self).tokens(), old(self).position()), 39nat,
    {
        let left = match self.logic_or() {
            Err(e) => {
                return Err(e);
            },
            Ok(left) => left,
        };
        if self.check(TokenKind::Equal) {
            match left {
                Expr::Variable { name } => {
                    self.advance();
                    match self.assignment() {
                        Err(e) => Err(e),
                        Ok(value) => Ok(Expr::Assign { name, value: Box::new(value) }),
                    }
                },
                _ => Err(
                    ParseError { kind: ParseErrorKind::InvalidAssignmentTarget, token: self.peek() },
                ),
            }
        } else {
            Ok(left)
        }
    }

    /// Parses a chain of `or`.
    fn logic_or(&mut self) -> (r: Result<Expr, ParseError>)
        requires
            old(self).wf(),
        ensures
            final(self).parsed_expr(
                old(self),
                r,
                parse_binary(old(self).tokens(), old(self).position(), Level::Or),
            ),
        decreases remaining(old(self).tokens(), old(self).position()), 33nat,
    {
        self.recursive_descent(Level::Or)
    }

    /// Parses a chain of `and`.
    fn logic_and(&mut self) -> (r: Result<Expr, ParseError>)
        requires
            old(self).wf(),
        ensures
            final(self).parsed_expr(
                old(self),
                r,
                parse_binary(old(self).tokens(), old(self).position(), Level::And),
            ),
        decreases remaining(old(self).tokens(), old(self).position()), 28nat,
    {
        self.recursive_descent(Level::And)
    }

    /// Parses a chain of `==` and `!=`.
    fn equality(&mut self) -> (r: Result<Expr, ParseError>)
        requires
            old(self).wf(),
        ensures
            final(self).parsed_expr(
                old(self),
                r,
                parse_binary(old(self).tokens(), old(self).position(), Level::Equality),
            ),
        decreases remaining(old(self).tokens(), old(self).position()), 23nat,
    {
        self.recursive_descent(Level::Equality)
    }

    /// Parses a chain of `<`, `<=`, `>` and `>=`.
    fn comparison(&mut self) -> (r: Result<Expr, ParseError>)
        requires
            old(self).wf(),
        ensures
            final(self).parsed_expr(
                old(self),
                r,
                parse_binary(old(self).tokens(), old(self).position(), Level::Comparison),
            ),
        decreases remaining(old(self).tokens(), old(self).position()), 18nat,
    {
        self.recursive_descent(Level::Comparison)
    }

    /// Parses a chain of `+` and `-`.
    fn term(&mut self) -> (r: Result<Expr, ParseError>)
        requires
            old(self).wf(),
        ensures
            final(self).parsed_expr(
                old(self),
                r,
                parse_binary(old(self).tokens(), old(self).position(), Level::Term),
            ),
        decreases remaining(old(self).tokens(), old(self).position()), 13nat,
    {
        self.recursive_descent(Level::Term)
    }

    /// Parses a chain of `*` and `/`.
    fn factor(&mut self) -> (r: Result<Expr, ParseError>)
        requires
            old(self).wf(),
        ensures
            final(self).parsed_expr(
                old(self),
                r,
                parse_binary(old(self).tokens(), old(self).position(), Level::Factor),
            ),
        decreases remaining(old(self).tokens(), old(self).position()), 8nat,
    {
        self.recursive_descent(Level::Factor)
    }

    /// Parses an operand of the level: an expression of the next tighter
    /// one.
    fn operand(&mut self, level: Level) -> (r: Result<Expr, ParseError>)
        requires
            old(self).wf(),
        ensures
            final(self).parsed_expr(
                old(self),
                r,
                match tighter(level) {
                    Some(l) => parse_binary(old(self).tokens(), old(self).position(), l),
                    None => parse_unary(old(self).tokens(), old(self).position()),
                },
            ),
        decreases remaining(old(self).tokens(), old(self).position()), 5 * looseness(level) + 1,
    {
        match level {
            Level::Or => self.logic_and(),
            Level::And => self.equality(),
            Level::Equality => self.comparison(),
            Level::Comparison => self.term(),
            Level::Term => self.factor(),
            Level::Factor => self.unary(),
        }
    }

    /// Precedence climbing, shared by the binary levels: parses one
    /// operand, then, while an operator of the level follows, consumes it,
    /// parses the right operand and folds the two into a node whose left
    /// child is what was parsed so far.
    #[verifier::loop_isolation(false)]
    fn recursive_descent(&mut self, level: Level) -> (r: Result<Expr, ParseError>)
        requires
            old(self).wf(),
        ensures
            final(self).parsed_expr(
                old(self),
                r,
                parse_binary(old(self).tokens(), old(self).position(), level),
            ),
        decreases remaining(old(self).tokens(), old(self).position()), 5 * looseness(level) + 2,
    {
        let ghost t = self.tokens();
        let ghost from = self.position();
        let mut expr = match self.operand(level) {
            Err(e) => {
                return Err(e);
            },
            Ok(first) => first,
        };
        let ghost start = self.position();
        let ghost target = parse_binary_rest(t, start, level, expr@);
        let kinds = operators(level);
        let ghost mut at = self.position();
        let mut more = self.matches(kinds.as_slice());
        while more
            invariant
                self.wf(),
                self.tokens == old(self).tokens,
                start <= at,
                self.position() == at + if more {
                    1nat
                } else {
                    0nat
                },
                more == is_operator(level, kind_at(t, at)),
                match parse_binary_rest(t, at, level, expr@) {
                    Ok((whole, m)) => target == Ok::<(ExprView, nat), ParseErrorView>(
                        (whole, (at - start + m) as nat),
                    ),
                    Err(e) => target == Err::<(ExprView, nat), ParseErrorView>(e),
                },
            decreases self.tokens.len() - at,
        {
            let operator = self.previous();
            let right = match self.operand(level) {
                Err(e) => {
                    return Err(e);
                },
                Ok(right) => right,
            };
            expr = fold(level, expr, operator, right);
            proof {
                at = self.position();
            }
            more = self.matches(kinds.as_slice());
        }
        Ok(expr)
    }

    /// Parses a negation or a primary expression.
    fn unary(&mut self) -> (r: Result<Expr, ParseError>)
        requires
            old(self).wf(),
        ensures
            final(self).parsed_expr(
                old(self),
                r,
                parse_unary(old(self).tokens(), old(self).position()),
            ),
        decreases remaining(old(self).tokens(), old(self).position()), 1nat,
    {
        if self.check(TokenKind::Bang) || self.check(TokenKind::Minus) {
            let operator = self.advance();
            match self.unary() {
                Err(e) => Err(e),
                Ok(right) => Ok(Expr::Unary { operator, right: Box::new(right) }),
            }
        } else {
            self.primary()
        }
    }

    /// Parses a literal, a variable or an expression in parentheses.
    fn primary(&mut self) -> (r: Result<Expr, ParseError>)
        requires
            old(self).wf(),
        ensures
            final(self).parsed_expr(
                old(self),
                r,
                parse_primary(old(self).tokens(), old(self).position()),
            ),
        decreases remaining(old(self).tokens(), old(self).position()), 0nat,
    {
        proof {
            reveal(parse_expression);
        }
        match self.peek_kind() {
            TokenKind::False => {
                self.advance();
                Ok(Expr::Literal(Literal::Boolean(false)))
            },
            TokenKind::True => {
                self.advance();
                Ok(Expr::Literal(Literal::Boolean(true)))
            },
            TokenKind::Nil => {
                self.advance();
                Ok(Expr::Literal(Literal::Nil))
            },
            TokenKind::Number | TokenKind::String => {
                let token = self.advance();
                match token.literal {
                    Some(value) => Ok(Expr::Literal(value)),
                    None => Ok(Expr::Literal(Literal::Nil)),
                }
            },
            TokenKind::Identifier => {
                let name = self.advance();
                Ok(Expr::Variable { name })
            },
            TokenKind::LeftParen => {
                self.advance();
                match self.expression() {
                    Err(e) => Err(e),
                    Ok(inner) => match self.consume(
                        TokenKind::RightParen,
                        ParseErrorKind::MissingClosingParen,
                    ) {
                        Err(e) => Err(e),
                        Ok(_) => Ok(Expr::Grouping { expression: Box::new(inner) }),
                    },
                }
            },
            _ => Err(ParseError { kind: ParseErrorKind::UnexpectedToken, token: self.peek() }),
        }
    }

    /// Parses the `;` that ends the statement `statement`, which began at
    /// `from`.
    fn terminate(&mut self, statement: Stmt, Ghost(from): Ghost<nat>) -> (r: Result<Stmt, ParseError>)
        requires
            old(self).wf(),
            from <= old(self).position(),
        ensures
            final(self).wf(),
            final(self).tokens == old(self).tokens,
            stmt_agrees(
                r,
                from,
                final(self).position(),
                terminated(
                    old(self).tokens(),
                    from,
                    statement@,
                    (old(self).position() - from) as nat,
                ),
            ),
            final(self).stopped_at(old(self), r is Err, r->Err_0),
    {
        match self.consume(TokenKind::Semicolon, ParseErrorKind::UnexpectedToken) {
            Err(e) => Err(e),
            Ok(_) => Ok(statement),
        }
    }

    /// Parses a variable declaration, the cursor being at its `var`.
    fn var_declaration(&mut self) -> (r: Result<Stmt, ParseError>)
        requires
            old(self).wf(),
            kind_at(old(self).tokens(), old(self).position()) == TokenKind::Var,
        ensures
            final(self).parsed_stmt(
                old(self),
                r,
                parse_var_declaration(old(self).tokens(), old(self).position()),
            ),
    {
        let ghost from = self.position();
        self.advance();
        let name = match self.consume(TokenKind::Identifier, ParseErrorKind::UnexpectedToken) {
            Err(e) => {
                return Err(e);
            },
            Ok(name) => name,
        };
        let initializer = if self.check(TokenKind::Equal) {
            self.advance();
            match self.expression() {
                Err(e) => {
                    return Err(e);
                },
                Ok(value) => value,
            }
        } else {
            Expr::Literal(Literal::Nil)
        };
        self.terminate(Stmt::Var { name, initializer }, Ghost(from))
    }

    /// Parses the condition of an `if` or a `while`, the cursor being at
    /// the keyword.
    fn condition(&mut self) -> (r: Result<Expr, ParseError>)
        requires
            old(self).wf(),
            kind_at(old(self).tokens(), old(self).position()) == TokenKind::If || kind_at(
                old(self).tokens(),
                old(self).position(),
            ) == TokenKind::While,
        ensures
            final(self).parsed_expr(
                old(self),
                r,
                parse_condition(old(self).tokens(), old(self).position()),
            ),
    {
        self.advance();
        match self.consume(TokenKind::LeftParen, ParseErrorKind::UnexpectedToken) {
            Err(e) => {
                return Err(e);
            },
            Ok(_) => {},
        }
        let condition = match self.expression() {
            Err(e) => {
                return Err(e);
            },
            Ok(condition) => condition,
        };
        match self.consume(TokenKind::RightParen, ParseErrorKind::MissingClosingParen) {
            Err(e) => Err(e),
            Ok(_) => Ok(condition),
        }
    }

    /// Parses a variable declaration or a statement.
    fn declaration(&mut self) -> (r: Result<Stmt, ParseError>)
        requires
            old(self).wf(),
        ensures
            final(self).parsed_stmt(
                old(self),
                r,
                parse_declaration(old(self).tokens(), old(self).position()),
            ),
        decreases remaining(old(self).tokens(), old(self).position()), 60nat,
    {
        proof {
            reveal(parse_declaration);
            reveal(parse_statement);
        }
        if self.check(TokenKind::Var) {
            self.var_declaration()
        } else {
            self.statement()
        }
    }

    /// Parses a statement.
    fn statement(&mut self) -> (r: Result<Stmt, ParseError>)
        requires
            old(self).wf(),
        ensures
            final(self).parsed_stmt(
                old(self),
                r,
                parse_statement(old(self).tokens(), old(self).position()),
            ),
        decreases remaining(old(self).tokens(), old(self).position()), 59nat,
    {
        proof {
            reveal(parse_statement);
            reveal(parse_expression);
        }
        let ghost from = self.position();
        match self.peek_kind() {
            TokenKind::Print => {
                self.advance();
                match self.expression() {
                    Err(e) => Err(e),
                    Ok(value) => self.terminate(Stmt::Print(value), Ghost(from)),
                }
            },
            TokenKind::LeftBrace => self.block(),
            TokenKind::If => self.if_statement(),
            TokenKind::While => self.while_statement(),
            _ => match self.expression() {
                Err(e) => Err(e),
                Ok(value) => self.terminate(Stmt::Expr(value), Ghost(from)),
            },
        }
    }

    /// Parses the declarations of a block up to its `}`, which is left
    /// for the caller.
    #[verifier::loop_isolation(false)]
    fn block_items(&mut self) -> (r: Result<Vec<Stmt>, ParseError>)
        requires
            old(self).wf(),
        ensures
            final(self).wf(),
            final(self).tokens == old(self).tokens,
            match parse_block_items(old(self).tokens(), old(self).position()) {
                Ok((items, n)) => {
                    &&& r is Ok
                    &&& stmt_views(r->Ok_0@) == items
                    &&& final(self).position() == old(self).position() + n
                    &&& kind_at(final(self).tokens(), final(self).position())
                        == TokenKind::RightBrace
                },
                Err(e) => r is Err && r->Err_0@ == e,
            },
            final(self).stopped_at(old(self), r is Err, r->Err_0),
        decreases remaining(old(self).tokens(), old(self).position()), 61nat,
    {
        proof {
            reveal(parse_declaration);
        }
        let ghost t = self.tokens();
        let ghost start = self.position();
        let ghost target = parse_block_items(t, start);
        let mut statements: Vec<Stmt> = Vec::new();
        assert(stmt_views(statements@) =~= Seq::<StmtView>::empty());
        while !self.check(TokenKind::RightBrace) && !self.is_at_end()
            invariant
                self.wf(),
                self.tokens == old(self).tokens,
                start <= self.position(),
                match parse_block_items(t, self.position()) {
                    Ok((rest, m)) => target == Ok::<(Seq<StmtView>, nat), ParseErrorView>(
                        (stmt_views(statements@) + rest, (self.position() - start + m) as nat),
                    ),
                    Err(e) => target == Err::<(Seq<StmtView>, nat), ParseErrorView>(e),
                },
            decreases self.tokens.len() - self.current,
        {
            let ghost at = self.position();
            let ghost before = stmt_views(statements@);
            proof {
                lemma_declaration_spans(t, at);
            }
            match self.declaration() {
                Err(e) => {
                    return Err(e);
                },
                Ok(statement) => {
                    statements.push(statement);
                    proof {
                        assert(stmt_views(statements@) =~= before.push(statement@));
                        match parse_block_items(t, self.position()) {
                            Ok((rest, m)) => {
                                assert(before + (seq![statement@] + rest) =~= before.push(
                                    statement@,
                                ) + rest);
                            },
                            Err(_) => {},
                        }
                    }
                },
            }
        }
        if self.is_at_end() {
            return Err(ParseError { kind: ParseErrorKind::UnexpectedToken, token: self.peek() });
        }
        assert(stmt_views(statements@) + Seq::<StmtView>::empty() =~= stmt_views(statements@));
        Ok(statements)
    }

    /// Parses a block, the cursor being at its `{`.
    fn block(&mut self) -> (r: Result<Stmt, ParseError>)
        requires
            old(self).wf(),
            kind_at(old(self).tokens(), old(self).position()) == TokenKind::LeftBrace,
        ensures
            final(self).parsed_stmt(
                old(self),
                r,
                parse_statement(old(self).tokens(), old(self).position()),
            ),
        decreases remaining(old(self).tokens(), old(self).position()), 58nat,
    {
        proof {
            reveal(parse_statement);
        }
        self.advance();
        let statements = match self.block_items() {
            Err(e) => {
                return Err(e);
            },
            Ok(statements) => statements,
        };
        self.advance();
        let ghost items = stmt_views(statements@);
        let block = Stmt::Block { statements };
        assert(block@ == StmtView::Block { statements: items }) by {
            assert(block@->Block_statements =~= items);
        }
        Ok(block)
    }

    /// Parses a conditional, the cursor being at its `if`. An `else` that
    /// follows the branch is taken at once, so it belongs to the nearest
    /// `if`.
    fn if_statement(&mut self) -> (r: Result<Stmt, ParseError>)
        requires
            old(self).wf(),
            kind_at(old(self).tokens(), old(self).position()) == TokenKind::If,
        ensures
            final(self).parsed_stmt(
                old(self),
                r,
                parse_statement(old(self).tokens(), old(self).position()),
            ),
        decreases remaining(old(self).tokens(), old(self).position()), 58nat,
    {
        proof {
            reveal(parse_statement);
        }
        let condition = match self.condition() {
            Err(e) => {
                return Err(e);
            },
            Ok(condition) => condition,
        };
        let then_branch = match self.statement() {
            Err(e) => {
                return Err(e);
            },
            Ok(branch) => branch,
        };
        if self.check(TokenKind::Else) {
            self.advance();
            match self.statement() {
                Err(e) => Err(e),
                Ok(branch) => Ok(
                    Stmt::If {
                        condition,
                        then_branch: Box::new(then_branch),
                        else_branch: Some(Box::new(branch)),
                    },
                ),
            }
        } else {
            Ok(Stmt::If { condition, then_branch: Box::new(then_branch), else_branch: None })
        }
    }

    /// Parses a loop, the cursor being at its `while`.
    fn while_statement(&mut self) -> (r: Result<Stmt, ParseError>)
        requires
            old(self).wf(),
            kind_at(old(self).tokens(), old(self).position()) == TokenKind::While,
        ensures
            final(self).parsed_stmt(
                old(self),
                r,
                parse_statement(old(self).tokens(), old(self).position()),
            ),
        decreases remaining(old(self).tokens(), old(self).position()), 58nat,
    {
        proof {
            reveal(parse_statement);
        }
        let condition = match self.condition() {
            Err(e) => {
                return Err(e);
            },
            Ok(condition) => condition,
        };
        match self.statement() {
            Err(e) => Err(e),
            Ok(body) => Ok(Stmt::While { condition, body: Box::new(body) }),
        }
    }

    /// Parses the tokens from the cursor on as a program: declarations up
    /// to the end of the tokens. Stops at the first error.
    #[verifier::loop_isolation(false)]
    pub fn parse(&mut self) -> (r: Result<Vec<Stmt>, ParseError>)
        requires
            old(self).wf(),
        ensures
            final(self).wf(),
            final(self).tokens() == old(self).tokens(),
            match parse_program(old(self).tokens(), old(self).position()) {
                Ok(program) => r is Ok && stmt_views(r->Ok_0@) == program,
                Err(e) => r is Err && r->Err_0@ == e,
            },
            final(self).stopped_at(old(self), r is Err, r->Err_0),
            r is Ok ==> kind_at(final(self).tokens(), final(self).position()) == TokenKind::Eof,
    {
        let ghost t = self.tokens();
        let ghost target = parse_program(t, self.position());
        let mut statements: Vec<Stmt> = Vec::new();
        assert(stmt_views(statements@) =~= Seq::<StmtView>::empty());
        while !self.is_at_end()
            invariant
                self.wf(),
                self.tokens == old(self).tokens,
                old(self).position() <= self.position(),
                match parse_program(t, self.position()) {
                    Ok(rest) => target == Ok::<Seq<StmtView>, ParseErrorView>(
                        stmt_views(statements@) + rest,
                    ),
                    Err(e) => target == Err::<Seq<StmtView>, ParseErrorView>(e),
                },
            decreases self.tokens.len() - self.current,
        {
            let ghost at = self.position();
            let ghost before = stmt_views(statements@);
            proof {
                lemma_declaration_spans(t, at);
            }
            match self.declaration() {
                Err(e) => {
                    return Err(e);
                },
                Ok(statement) => {
                    statements.push(statement);
                    proof {
                        assert(stmt_views(statements@) =~= before.push(statement@));
                        match parse_program(t, self.position()) {
                            Ok(rest) => {
                                assert(before + (seq![statement@] + rest) =~= before.push(
                                    statement@,
                                ) + rest);
                            },
                            Err(_) => {},
                        }
                    }
                },
            }
        }
        assert(stmt_views(statements@) + Seq::<StmtView>::empty() =~= stmt_views(statements@));
        Ok(statements)
    }
}

} // verus!
