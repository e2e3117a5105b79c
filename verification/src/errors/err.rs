//! The line of text that reports a failure, and the failure that stops an
//! evaluation.

use crate::parsing::tokens::{Token, TokenType, TokenView};
use crate::text::{decimal, decimal_text};
use vstd::prelude::*;
use vstd::string::StringExecFns;

verus! {

/// The report of a failure on `line`, at `location`, as one line of text.
pub open spec fn report_text(line: u32, location: Seq<char>, message: Seq<char>) -> Seq<char> {
    "[Line "@ + decimal(line as nat) + "] ERROR"@ + location + ": "@ + message
}

/// The report of a failure on `line`: `[Line <line>] ERROR: <message>`.
pub fn error(line: u32, message: &String) -> (r: String)
    ensures
        r@ == report_text(line, Seq::empty(), message@),
{
    let location = String::new();
    report(line, &location, message)
}

fn report(line: u32, location: &String, message: &String) -> (r: String)
    ensures
        r@ == report_text(line, location@, message@),
{
    let mut r = "[Line ".to_owned();
    let number = decimal_text(line);
    r.append(number.as_str());
    r.append("] ERROR");
    r.append(location.as_str());
    r.append(": ");
    r.append(message.as_str());
    r
}

/// Why an evaluation failed.
#[derive(Debug, Clone, Copy, PartialEq, Eq, Structural)]
pub enum Failure {
    /// An operator was applied to values it is not defined on.
    TypeMismatch,
    /// A name was looked up that no scope defines.
    UndefinedVariable,
}

/// A failure that stops an evaluation: what went wrong, and the token it
/// is attributed to.
#[derive(Debug, Clone)]
pub struct RuntimeErr {
    pub kind: Failure,
    pub message: String,
    pub token: Token,
}

/// A runtime failure as plain mathematical values.
pub struct RuntimeErrView {
    pub kind: Failure,
    pub message: Seq<char>,
    pub token: TokenView,
}

impl View for RuntimeErr {
    type V = RuntimeErrView;

    open spec fn view(&self) -> RuntimeErrView {
        RuntimeErrView { kind: self.kind, message: self.message@, token: self.token@ }
    }
}

/// The failure of an operator `token` applied to values it is not defined
/// on.
pub open spec fn type_mismatch(token: TokenView) -> RuntimeErrView {
    RuntimeErrView {
        kind: Failure::TypeMismatch,
        message: "invalid arguments to operation"@,
        token,
    }
}

/// The failure of a lookup of the name that `token` spells.
pub open spec fn undefined_variable(token: TokenView) -> RuntimeErrView {
    RuntimeErrView { kind: Failure::UndefinedVariable, message: "Undefined variable"@, token }
}

impl RuntimeErr {
    /// A failure of the given kind, attributed to `token`.
    pub fn new(kind: Failure, message: String, token: Token) -> (r: Self)
        ensures
            r@ == (RuntimeErrView { kind, message: message@, token: token@ }),
    {
        RuntimeErr { kind, message, token }
    }

    /// A placeholder failure, attributed to a `!` on line 1.
    pub fn default() -> (r: Self)
        ensures
            r@ == (RuntimeErrView {
                kind: Failure::TypeMismatch,
                message: "ERR"@,
                token: TokenView {
                    variant: TokenType::BANG,
                    lexeme: "!"@,
                    string: None,
                    number: None,
                    line: 1,
                },
            }),
    {
        RuntimeErr {
            kind: Failure::TypeMismatch,
            message: "ERR".to_owned(),
            token: Token::new(TokenType::BANG, "!".to_owned(), 1),
        }
    }

    /// The failure of the operator `token` applied to values it is not
    /// defined on.
    pub fn mismatch(token: &Token) -> (r: Self)
        ensures
            r@ == type_mismatch(token@),
    {
        RuntimeErr::new(
            Failure::TypeMismatch,
            "invalid arguments to operation".to_owned(),
            token.duplicate(),
        )
    }

    /// The failure of a lookup of the name that `token` spells.
    pub fn undefined(token: &Token) -> (r: Self)
        ensures
            r@ == undefined_variable(token@),
    {
        RuntimeErr::new(
            Failure::UndefinedVariable,
            "Undefined variable".to_owned(),
            token.duplicate(),
        )
    }

    /// A copy of this failure.
    pub fn duplicate(&self) -> (r: Self)
        ensures
            r@ == self@,
    {
        RuntimeErr { kind: self.kind, message: self.message.clone(), token: self.token.duplicate() }
    }
}

} // verus!
