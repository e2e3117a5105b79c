//! The interpreter: executes statements in order, with the variables they
//! declare.
//!
//! As in the evaluation of one expression, the results of additions,
//! subtractions, multiplications and divisions are taken from a list of
//! answers, one for each in the order in which the program reaches them.
//! What a program prints is returned, not written.

use crate::errors::err::{RuntimeErr, RuntimeErrView};
use crate::parsing::expressions::{expr_view, Expr, Value, ValueView};
use crate::parsing::statements::{stmt_views, Dec, ExprStmt, Print, Stmt, StmtView};
use crate::parsing::tokens::Token;
use crate::parsing::visitor::{evaluation, Outcome, OutcomeView, Request};
use crate::runtime::environment::{lookup, Environment, Frame};
use vstd::prelude::*;

verus! {

/// What executing one statement comes to.
#[derive(Debug)]
pub enum Step {
    /// The statement is done and printed nothing.
    Done,
    /// The statement is done and printed this value.
    Printed(Value),
    /// The answers ran out: this operation is the next one needed.
    Pending(Request),
    /// The statement failed.
    Failed(RuntimeErr),
}

/// What a statement does, as plain mathematical values.
pub enum Effect {
    /// Nothing that lasts.
    Nothing,
    /// It prints this value.
    Printed(ValueView),
    /// It binds this name to this value.
    Defined(Seq<char>, ValueView),
    /// The answers ran out: this operation is the next one needed.
    Pending(Request),
    /// It fails.
    Failed(RuntimeErrView),
}

/// What the outcome of its expression makes of a statement, `done` saying
/// what the statement does with a value.
pub open spec fn effect_of(outcome: OutcomeView, done: spec_fn(ValueView) -> Effect) -> Effect {
    match outcome {
        OutcomeView::Done(literal) => done(literal.val),
        OutcomeView::Pending(request) => Effect::Pending(request),
        OutcomeView::Failed(failure) => Effect::Failed(failure),
    }
}

/// What the statement `s` does with the answers from `at` on still unused,
/// and the place of the first answer unused after it.
pub open spec fn execution(s: StmtView, answers: Seq<u64>, at: nat) -> (Effect, nat) {
    match s {
        StmtView::ExprStmt(e) => (
            effect_of(evaluation(e, answers, at).0, |v: ValueView| Effect::Nothing),
            evaluation(e, answers, at).1,
        ),
        StmtView::Print(e) => (
            effect_of(evaluation(e, answers, at).0, |v: ValueView| Effect::Printed(v)),
            evaluation(e, answers, at).1,
        ),
        StmtView::Dec(name, e) => (
            effect_of(evaluation(e, answers, at).0, |v: ValueView| Effect::Defined(name.lexeme, v)),
            evaluation(e, answers, at).1,
        ),
    }
}

/// How a run ended.
#[derive(Debug)]
pub enum Status {
    /// Every statement was executed.
    Finished,
    /// The answers ran out: this operation is the next one needed.
    Pending(Request),
    /// A statement failed; the statements after it were not executed.
    Failed(RuntimeErr),
}

/// How a run ended, as plain mathematical values.
pub enum StatusView {
    Finished,
    Pending(Request),
    Failed(RuntimeErrView),
}

impl View for Status {
    type V = StatusView;

    open spec fn view(&self) -> StatusView {
        match self {
            Status::Finished => StatusView::Finished,
            Status::Pending(r) => StatusView::Pending(*r),
            Status::Failed(e) => StatusView::Failed(e@),
        }
    }
}

/// A run: the values printed by the statements that were executed, in
/// order, and how the run ended.
#[derive(Debug)]
pub struct Run {
    pub output: Vec<Value>,
    pub status: Status,
}

/// The views of a sequence of values, in order.
pub open spec fn value_views(values: Seq<Value>) -> Seq<ValueView> {
    Seq::new(values.len(), |i: int| values[i]@)
}

/// A run as plain mathematical values, with the variables of the scope in
/// which it ran as they are after it.
pub struct Course {
    pub output: Seq<ValueView>,
    pub status: StatusView,
    pub frame: Frame,
}

/// The run of the statements of `stmts` from `from` on, in a scope with
/// the variables `frame`, with the answers from `at` on still unused.
///
/// Statements are executed in order.  The first that fails, or that needs
/// an answer that is not there, ends the run.
pub open spec fn course(
    stmts: Seq<StmtView>,
    from: int,
    answers: Seq<u64>,
    at: nat,
    frame: Frame,
) -> Course
    decreases stmts.len() - from,
{
    if 0 <= from < stmts.len() {
        let (effect, next) = execution(stmts[from], answers, at);
        match effect {
            Effect::Nothing => course(stmts, from + 1, answers, next, frame),
            Effect::Printed(v) => {
                let rest = course(stmts, from + 1, answers, next, frame);
                Course { output: seq![v] + rest.output, status: rest.status, frame: rest.frame }
            },
            Effect::Defined(name, v) => course(
                stmts,
                from + 1,
                answers,
                next,
                frame.insert(name, v),
            ),
            Effect::Pending(request) => Course {
                output: Seq::empty(),
                status: StatusView::Pending(request),
                frame,
            },
            Effect::Failed(failure) => Course {
                output: Seq::empty(),
                status: StatusView::Failed(failure),
                frame,
            },
        }
    } else {
        Course { output: Seq::empty(), status: StatusView::Finished, frame }
    }
}

/// Executes statements in one scope.
pub struct Interpreter {
    environment: Environment,
    evaluator: crate::parsing::visitor::Interpreter,
}

impl Interpreter {
    /// The scope in which statements run and the scopes around it, from
    /// the inside out.
    pub closed spec fn scopes(&self) -> Seq<Frame> {
        self.environment.scopes()
    }

    /// An interpreter with one scope that holds no variables.
    pub fn new() -> (r: Self)
        ensures
            r.scopes() == seq![Map::<Seq<char>, ValueView>::empty()],
    {
        Interpreter {
            environment: Environment::new(),
            evaluator: crate::parsing::visitor::Interpreter::new(),
        }
    }

    /// Runs `stmts` in order, taking the results of their additions,
    /// subtractions, multiplications and divisions from `answers` in the
    /// order in which they are needed.  A failure ends the run.
    pub fn interpret(&mut self, stmts: &Vec<Stmt>, answers: &Vec<u64>) -> (r: Run)
        ensures
            ({
                let c = course(stmt_views(stmts@), 0, answers@, 0, old(self).scopes()[0]);
                &&& value_views(r.output@) == c.output
                &&& r.status@ == c.status
                &&& final(self).scopes() == old(self).scopes().update(0, c.frame)
            }),
    {
        proof {
            self.environment.lemma_has_scope();
        }
        let mut output: Vec<Value> = Vec::new();
        let mut at: usize = 0;
        let mut i: usize = 0;
        let ghost all = stmt_views(stmts@);
        let ghost whole = course(all, 0, answers@, 0, old(self).scopes()[0]);
        assert(value_views(output@) =~= Seq::empty());
        assert(self.scopes() =~= old(self).scopes().update(0, old(self).scopes()[0]));
        while i < stmts.len()
            invariant
                i <= stmts.len(),
                all == stmt_views(stmts@),
                old(self).scopes().len() > 0,
                self.scopes().len() == old(self).scopes().len(),
                self.scopes() == old(self).scopes().update(0, self.scopes()[0]),
                whole == course(all, 0, answers@, 0, old(self).scopes()[0]),
                ({
                    let rest = course(all, i as int, answers@, at as nat, self.scopes()[0]);
                    &&& whole.output == value_views(output@) + rest.output
                    &&& whole.status == rest.status
                    &&& whole.frame == rest.frame
                }),
            decreases stmts.len() - i,
        {
            let ghost before = value_views(output@);
            let ghost rest = course(all, i + 1, answers@, at as nat, self.scopes()[0]);
            let (step, next) = self.execute(&stmts[i], answers, at);
            assert(self.scopes() =~= old(self).scopes().update(0, self.scopes()[0]));
            match step {
                Step::Done => {},
                Step::Printed(value) => {
                    output.push(value);
                    proof {
                        let rest = course(all, i + 1, answers@, next as nat, self.scopes()[0]);
                        assert(value_views(output@) =~= before.push(value@));
                        assert(before + (seq![value@] + rest.output) =~= before.push(value@)
                            + rest.output);
                    }
                },
                Step::Pending(request) => {
                    assert(whole.output =~= value_views(output@));
                    return Run { output, status: Status::Pending(request) };
                },
                Step::Failed(failure) => {
                    assert(whole.output =~= value_views(output@));
                    return Run { output, status: Status::Failed(failure) };
                },
            }
            at = next;
            i += 1;
        }
        assert(whole.output =~= value_views(output@));
        Run { output, status: Status::Finished }
    }

    /// Evaluates `e` with the answers from `at` on still unused; also
    /// returns the place of the first answer unused afterwards.
    pub fn evaluate(&self, e: &Expr, answers: &Vec<u64>, at: usize) -> (r: (Outcome, usize))
        ensures
            r.0@ == evaluation(e@, answers@, at as nat).0,
            r.1 == evaluation(e@, answers@, at as nat).1,
    {
        self.evaluator.evaluate_from(e, answers, at)
    }

    /// Whether a value counts as true.
    pub fn is_truthy(&self, expr: &Value) -> (r: bool)
        ensures
            r == crate::parsing::expressions::truthy(expr@),
    {
        self.evaluator.is_truthy(expr)
    }

    /// The value of the variable that `name` spells: that of the innermost
    /// scope that defines it.
    pub fn lookup(&self, name: &Token) -> (r: Result<Value, RuntimeErr>)
        ensures
            match lookup(self.scopes(), name@.lexeme) {
                Some(value) => r matches Ok(v) && v@ == value,
                None => r matches Err(e) && e@ == crate::errors::err::undefined_variable(name@),
            },
    {
        self.environment.get(name)
    }

    /// Executes `stmt` with the answers from `at` on still unused; also
    /// returns the place of the first answer unused afterwards.  A
    /// declaration binds its name in the scope of the interpreter.
    pub fn execute(&mut self, stmt: &Stmt, answers: &Vec<u64>, at: usize) -> (r: (Step, usize))
        ensures
            r.1 == execution(stmt@, answers@, at as nat).1,
            final(self).scopes().len() == old(self).scopes().len(),
            match execution(stmt@, answers@, at as nat).0 {
                Effect::Nothing => r.0 is Done && final(self).scopes() == old(self).scopes(),
                Effect::Printed(v) => r.0 matches Step::Printed(x) && x@ == v && final(self).scopes() == old(self).scopes(),
                Effect::Defined(name, v) => r.0 is Done && final(self).scopes() == old(self).scopes().update(0, old(self).scopes()[0].insert(name, v)),
                Effect::Pending(request) => r.0 == Step::Pending(request) && final(self).scopes()
                    == old(self).scopes(),
                Effect::Failed(failure) => r.0 matches Step::Failed(x) && x@ == failure && final(self).scopes() == old(self).scopes(),
            },
    {
        match stmt {
            Stmt::Dec(d) => self.visit_declaration(d, answers, at),
            Stmt::Print(p) => self.visit_print_stmt(p, answers, at),
            Stmt::ExprStmt(s) => self.visit_expr_stmt(s, answers, at),
        }
    }

    fn visit_declaration(&mut self, s: &Dec, answers: &Vec<u64>, at: usize) -> (r: (Step, usize))
        ensures
            r.1 == evaluation(expr_view(*s.expr), answers@, at as nat).1,
            final(self).scopes().len() == old(self).scopes().len(),
            match evaluation(expr_view(*s.expr), answers@, at as nat).0 {
                OutcomeView::Done(l) => r.0 is Done && final(self).scopes() == old(self).scopes().update(0, old(self).scopes()[0].insert(s.name@.lexeme, l.val)),
                OutcomeView::Pending(request) => r.0 == Step::Pending(request) && final(self).scopes() == old(self).scopes(),
                OutcomeView::Failed(failure) => r.0 matches Step::Failed(x) && x@ == failure
                    && final(self).scopes() == old(self).scopes(),
            },
    {
        let (value, next) = self.evaluate(&s.expr, answers, at);
        match value {
            Outcome::Done(literal) => {
                self.environment.define(s.name.lexeme.clone(), literal.val);
                (Step::Done, next)
            },
            Outcome::Pending(request) => (Step::Pending(request), next),
            Outcome::Failed(failure) => (Step::Failed(failure), next),
        }
    }

    fn visit_expr_stmt(&self, s: &ExprStmt, answers: &Vec<u64>, at: usize) -> (r: (Step, usize))
        ensures
            r.1 == evaluation(expr_view(*s.expr), answers@, at as nat).1,
            match evaluation(expr_view(*s.expr), answers@, at as nat).0 {
                OutcomeView::Done(_) => r.0 is Done,
                OutcomeView::Pending(request) => r.0 == Step::Pending(request),
                OutcomeView::Failed(failure) => r.0 matches Step::Failed(x) && x@ == failure,
            },
    {
        let (value, next) = self.evaluate(&s.expr, answers, at);
        match value {
            Outcome::Done(_) => (Step::Done, next),
            Outcome::Pending(request) => (Step::Pending(request), next),
            Outcome::Failed(failure) => (Step::Failed(failure), next),
        }
    }

    fn visit_print_stmt(&self, s: &Print, answers: &Vec<u64>, at: usize) -> (r: (Step, usize))
        ensures
            r.1 == evaluation(expr_view(*s.expr), answers@, at as nat).1,
            match evaluation(expr_view(*s.expr), answers@, at as nat).0 {
                OutcomeView::Done(l) => r.0 matches Step::Printed(x) && x@ == l.val,
                OutcomeView::Pending(request) => r.0 == Step::Pending(request),
                OutcomeView::Failed(failure) => r.0 matches Step::Failed(x) && x@ == failure,
            },
    {
        let (value, next) = self.evaluate(&s.expr, answers, at);
        match value {
            Outcome::Done(literal) => (Step::Printed(literal.val), next),
            Outcome::Pending(request) => (Step::Pending(request), next),
            Outcome::Failed(failure) => (Step::Failed(failure), next),
        }
    }
}

} // verus!
