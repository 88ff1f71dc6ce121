//! Runtime errors.

use vstd::prelude::*;
use crate::token::{Token, TokenView};

verus! {

/// A runtime error as a mathematical value.
pub enum Fault {
    /// The operator named cannot work on the operands it got.
    TypeMismatch(TokenView),
    /// The variable named is not declared.
    UndefinedVariable(TokenView),
    /// The division named has a divisor of zero.
    DivisionByZero(TokenView),
}

/// The kinds of runtime error, each with the token of the operator or
/// variable involved, which carries the line.
#[derive(Debug)]
pub enum ErrorKind {
    /// An operator whose operands are of the wrong kind.
    TypeMismatch(Token),
    /// A variable that is read or assigned without being declared.
    UndefinedVariable(Token),
    /// A division by zero: numbers are exact, so there is no infinity to
    /// give.
    DivisionByZero(Token),
}

impl View for ErrorKind {
    type V = Fault;

    open spec fn view(&self) -> Fault {
        match self {
            ErrorKind::TypeMismatch(t) => Fault::TypeMismatch(t@),
            ErrorKind::UndefinedVariable(t) => Fault::UndefinedVariable(t@),
            ErrorKind::DivisionByZero(t) => Fault::DivisionByZero(t@),
        }
    }
}

/// A runtime error.
#[derive(Debug)]
pub struct Error {
    pub kind: ErrorKind,
}

impl View for Error {
    type V = Fault;

    open spec fn view(&self) -> Fault {
        self.kind@
    }
}

impl Error {
    pub fn new(kind: ErrorKind) -> (r: Error)
        ensures
            r.kind == kind,
    {
        Error { kind }
    }
}

} // verus!
