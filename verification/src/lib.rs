//! A small dynamically typed scripting language: scanner, parser and
//! tree-walking evaluator, with every stage verified against a mathematical
//! model of what it computes.

pub mod ast;
pub mod environment;
pub mod interpreter;
pub mod number;
pub mod parser;
pub mod rescan;
pub mod scanner;
mod strings;
pub mod token;

use vstd::prelude::*;
use crate::environment::{Bindings, Environment};
use crate::interpreter::error::{Error, Fault};
use crate::interpreter::semantics::{run, Halt};
use crate::interpreter::{execute, line_views, Stop};
use crate::parser::grammar::{parse, ParseErrorView};
use crate::parser::{ParseError, Parser};
use crate::scanner::{scan, LexError, Scanner};
use crate::token::Value;

verus! {

/// Why a run did not complete, as a mathematical value.
pub enum Failure {
    Lex(LexError),
    Parse(ParseErrorView),
    Runtime(Fault),
    OutOfBudget,
}

/// Why a run did not complete.
#[derive(Debug)]
pub enum Diagnostic {
    /// The text could not be scanned.
    Lex(LexError),
    /// The tokens could not be parsed.
    Parse(ParseError),
    /// A statement failed.
    Runtime(Error),
    /// The loops used up the iterations allowed.
    OutOfBudget,
}

impl View for Diagnostic {
    type V = Failure;

    open spec fn view(&self) -> Failure {
        match self {
            Diagnostic::Lex(e) => Failure::Lex(*e),
            Diagnostic::Parse(e) => Failure::Parse(e@),
            Diagnostic::Runtime(e) => Failure::Runtime(e@),
            Diagnostic::OutOfBudget => Failure::OutOfBudget,
        }
    }
}

/// What one run of a source text does to a session.
pub struct Transcript {
    /// The variables afterwards.
    pub env: Bindings,
    /// The lines printed, in order.
    pub output: Seq<Seq<char>>,
    /// Why the run did not complete, if it did not.
    pub failure: Option<Failure>,
}

/// The run of a source text in a session whose variables are `env`: the
/// text is scanned, the tokens are parsed, the program is executed. A text
/// that does not scan or parse executes nothing.
pub open spec fn transcript(source: Seq<char>, env: Bindings, budget: nat) -> Transcript {
    let scanned = scan(source);
    match scanned.error {
        Some(e) => Transcript { env, output: Seq::empty(), failure: Some(Failure::Lex(e)) },
        None => match parse(scanned.tokens) {
            Err(e) => Transcript { env, output: Seq::empty(), failure: Some(Failure::Parse(e)) },
            Ok(program) => {
                let outcome = run(program, env, budget);
                Transcript {
                    env: outcome.env,
                    output: outcome.output,
                    failure: match outcome.result {
                        Ok(_) => None,
                        Err(Halt::Fault(f)) => Some(Failure::Runtime(f)),
                        Err(Halt::OutOfBudget) => Some(Failure::OutOfBudget),
                    },
                }
            },
        },
    }
}

/// A session: the variables that stay alive from one run to the next.
pub struct Lox {
    env: Environment,
}

impl Lox {
    /// The variables of the session.
    pub closed spec fn bindings(&self) -> Bindings {
        self.env@
    }

    /// A session without variables.
    pub fn new() -> (r: Lox)
        ensures
            r.bindings() == Map::<Seq<char>, Value>::empty(),
    {
        Lox { env: Environment::new() }
    }

    /// Runs a source text in the session. The lines it prints are appended
    /// to `out`, also those printed before a statement fails. Its loops may
    /// take `budget` iterations in all.
    pub fn run(&mut self, src: String, out: &mut Vec<String>, budget: u64) -> (r: Result<
        (),
        Diagnostic,
    >)
        requires
            src@.len() < usize::MAX,
        ensures
            final(self).bindings() == transcript(src@, old(self).bindings(), budget as nat).env,
            line_views(final(out)@) == line_views(old(out)@) + transcript(
                src@,
                old(self).bindings(),
                budget as nat,
            ).output,
            match transcript(src@, old(self).bindings(), budget as nat).failure {
                None => r is Ok,
                Some(f) => r is Err && r->Err_0@ == f,
            },
    {
        assert(line_views(out@) + Seq::<Seq<char>>::empty() =~= line_views(out@));
        let mut scanner = Scanner::new(src);
        match scanner.scan_tokens() {
            Err(e) => {
                return Err(Diagnostic::Lex(e));
            },
            Ok(_) => {},
        }
        assert(scanner.scanned() =~= scan(src@).tokens);
        let mut parser = Parser::new(scanner.into_tokens());
        let program = match parser.parse() {
            Err(e) => {
                return Err(Diagnostic::Parse(e));
            },
            Ok(program) => program,
        };
        match execute(&program, &mut self.env, out, budget) {
            Ok(_) => Ok(()),
            Err(Stop::Error(e)) => Err(Diagnostic::Runtime(e)),
            Err(Stop::OutOfBudget) => Err(Diagnostic::OutOfBudget),
        }
    }
}

impl Default for Lox {
    fn default() -> (r: Lox)
        ensures
            r.bindings() == Map::<Seq<char>, Value>::empty(),
    {
        Lox::new()
    }
}

} // verus!
