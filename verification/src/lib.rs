//! A small dynamically typed scripting language: source text is scanned
//! into tokens, tokens are parsed into statements, statements are evaluated.
//!
//! Numbers are IEEE 754 binary64 values and are carried by their bit
//! patterns (`u64`).  The library decides everything that does not need the
//! floating-point unit; what does need it (decoding a literal, the four
//! arithmetic operations, rendering a number) is asked of the caller.

pub mod errors;
pub mod number;
pub mod parsing;
pub mod runtime;
pub mod text;

use crate::parsing::expressions::ValueView;
use crate::parsing::parser::{parse, Parser, SyntaxFailure};
use crate::parsing::scanner::{
    attach_numbers, number_lexemes, numbers_before, numbers_of, scan, ScanFailure, Scanner,
    valued,
};
use crate::runtime::interpreter::{course, value_views, Interpreter, Run, StatusView};
use vstd::prelude::*;
use vstd::string::StringSliceAdditionalSpecFns;
use vstd::utf8::encode_utf8;

verus! {

/// What came of running one source text.
#[derive(Debug)]
pub enum Report {
    /// The text could not be scanned.  Nothing was parsed or executed.
    Lexical(ScanFailure),
    /// The text holds more number literals than values were supplied for.
    /// These are the lexemes of all of them, in order.  Nothing was parsed
    /// or executed.
    Undecoded(Vec<String>),
    /// The text was scanned and parsed, and the statements that follow the
    /// grammar were run: the failures of the others, and the run.
    Ran(Vec<SyntaxFailure>, Run),
}

/// A report as plain mathematical values.
pub enum ReportView {
    Lexical(ScanFailure),
    Undecoded(Seq<Seq<char>>),
    Ran(Seq<SyntaxFailure>, Seq<ValueView>, StatusView),
}

/// The views of a sequence of strings, in order.
pub open spec fn texts(strings: Seq<String>) -> Seq<Seq<char>> {
    Seq::new(strings.len(), |i: int| strings[i]@)
}

impl View for Report {
    type V = ReportView;

    open spec fn view(&self) -> ReportView {
        match self {
            Report::Lexical(failure) => ReportView::Lexical(*failure),
            Report::Undecoded(lexemes) => ReportView::Undecoded(texts(lexemes@)),
            Report::Ran(failures, run) => ReportView::Ran(
                failures@,
                value_views(run.output@),
                run.status@,
            ),
        }
    }
}

/// What comes of running the source text with the bytes `source`, where
/// `numbers` are the values of its number literals in order and `answers`
/// the results of its arithmetic in the order in which it is reached.
///
/// A text that cannot be scanned is neither parsed nor run.  A statement
/// that does not follow the grammar is reported, and the others are run
/// in a scope of their own.
pub open spec fn outcome(source: Seq<u8>, numbers: Seq<u64>, answers: Seq<u64>) -> ReportView {
    match scan(source) {
        Err(failure) => ReportView::Lexical(failure),
        Ok(tokens) => if numbers.len() < numbers_before(tokens, tokens.len() as int) {
            ReportView::Undecoded(number_lexemes(tokens, tokens.len() as int))
        } else {
            let parsed = parse(valued(tokens, numbers));
            let run = course(parsed.statements, 0, answers, 0, Map::empty());
            ReportView::Ran(parsed.failures, run.output, run.status)
        },
    }
}

/// Whether a report tells of a failure of any kind.
pub open spec fn tells_failure(report: ReportView) -> bool {
    match report {
        ReportView::Lexical(_) => true,
        ReportView::Undecoded(_) => false,
        ReportView::Ran(failures, _, status) => failures.len() > 0 || status is Failed,
    }
}

/// Runs source texts, one after the other, and remembers whether any of
/// them failed.
pub struct Lox {
    pub has_error: bool,
}

impl Lox {
    pub fn new() -> (r: Self)
        ensures
            !r.has_error,
    {
        Lox { has_error: false }
    }

    /// Scans, parses and runs `input`.  `numbers` are the values of its
    /// number literals in order, `answers` the results of its arithmetic in
    /// the order in which it is reached.
    pub fn run(&mut self, input: &String, numbers: &Vec<u64>, answers: &Vec<u64>) -> (r: Report)
        ensures
            r@ == outcome(encode_utf8(input@), numbers@, answers@),
            final(self).has_error == (old(self).has_error || tells_failure(r@)),
    {
        let mut scanner = Scanner::new(input.clone());
        let tokens = match scanner.scan_tokens() {
            Ok(tokens) => tokens,
            Err(failure) => {
                self.has_error = true;
                return Report::Lexical(failure);
            },
        };
        let lexemes = numbers_of(&tokens);
        if numbers.len() < lexemes.len() {
            return Report::Undecoded(lexemes);
        }
        let tokens = attach_numbers(&tokens, numbers);
        let mut parser = Parser::new(tokens);
        let statements = parser.parse();
        let failures = parser.into_failures();
        let mut interpreter = Interpreter::new();
        let run = interpreter.interpret(&statements, answers);
        let failed = match &run.status {
            crate::runtime::interpreter::Status::Failed(_) => true,
            _ => false,
        };
        if failures.len() > 0 || failed {
            self.has_error = true;
        }
        Report::Ran(failures, run)
    }
}

} // verus!
