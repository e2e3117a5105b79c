//! What a program means, and why asking for one answer at a time gets
//! there.
//!
//! As for one expression, the meaning of a sequence of statements is given
//! for an arithmetic unit.  A run that is handed the unit's results one by
//! one, each for the operation it asked for last, ends as the statements mean
//! for that unit.

use crate::parsing::expressions::{ExprView, ValueView};
use crate::parsing::semantics::{follows, lemma_evaluation_reaches, results, value};
use crate::parsing::statements::StmtView;
use crate::parsing::visitor::{evaluation, Request};
use crate::runtime::environment::Frame;
use crate::runtime::interpreter::{course, execution, Course, Effect, StatusView};
use vstd::prelude::*;

verus! {

/// The expression of a statement.
pub open spec fn expression_of(s: StmtView) -> ExprView {
    match s {
        StmtView::ExprStmt(e) => e,
        StmtView::Print(e) => e,
        StmtView::Dec(_, e) => e,
    }
}

/// What the statements of `stmts` from `from` on do for the unit `unit`, in
/// a scope with the variables `frame`: what they print, how they end, and
/// the variables after them.
///
/// Statements are executed in order, and the first that fails ends the run.
pub open spec fn meaning(
    stmts: Seq<StmtView>,
    from: int,
    unit: spec_fn(Request) -> u64,
    frame: Frame,
) -> Course
    decreases stmts.len() - from,
{
    if 0 <= from < stmts.len() {
        match value(expression_of(stmts[from]), unit) {
            Ok(l) => match stmts[from] {
                StmtView::ExprStmt(_) => meaning(stmts, from + 1, unit, frame),
                StmtView::Print(_) => {
                    let rest = meaning(stmts, from + 1, unit, frame);
                    Course {
                        output: seq![l.val] + rest.output,
                        status: rest.status,
                        frame: rest.frame,
                    }
                },
                StmtView::Dec(name, _) => meaning(
                    stmts,
                    from + 1,
                    unit,
                    frame.insert(name.lexeme, l.val),
                ),
            },
            Err(failure) => Course {
                output: Seq::empty(),
                status: StatusView::Failed(failure),
                frame,
            },
        }
    } else {
        Course { output: Seq::empty(), status: StatusView::Finished, frame }
    }
}

/// The results that the unit gives while the statements of `stmts` from
/// `from` on are run, in the order in which they are asked for.
pub open spec fn results_of(stmts: Seq<StmtView>, from: int, unit: spec_fn(Request) -> u64) -> Seq<
    u64,
>
    decreases stmts.len() - from,
{
    if 0 <= from < stmts.len() {
        match value(expression_of(stmts[from]), unit) {
            Ok(_) => results(expression_of(stmts[from]), unit) + results_of(
                stmts,
                from + 1,
                unit,
            ),
            Err(_) => results(expression_of(stmts[from]), unit),
        }
    } else {
        Seq::empty()
    }
}

/// Whether a run that started with the answers from `at` on unused came
/// as far as those answers take it towards `meant`: to `meant` itself where
/// all of `wanted` were there, and else to a request for the first of
/// `wanted` that was not.
pub open spec fn run_reached(
    c: Course,
    answers: Seq<u64>,
    at: nat,
    wanted: Seq<u64>,
    meant: Course,
    unit: spec_fn(Request) -> u64,
) -> bool {
    if at + wanted.len() <= answers.len() {
        c == meant
    } else {
        &&& c.status matches StatusView::Pending(request)
        &&& unit(request) == wanted[answers.len() - at]
    }
}

/// A run comes as far as its answers take it.
pub proof fn lemma_course_reaches(
    stmts: Seq<StmtView>,
    from: int,
    unit: spec_fn(Request) -> u64,
    answers: Seq<u64>,
    at: nat,
    frame: Frame,
)
    requires
        follows(answers, at, results_of(stmts, from, unit)),
    ensures
        run_reached(
            course(stmts, from, answers, at, frame),
            answers,
            at,
            results_of(stmts, from, unit),
            meaning(stmts, from, unit, frame),
            unit,
        ),
    decreases stmts.len() - from,
{
    if 0 <= from < stmts.len() {
        let s = stmts[from];
        let e = expression_of(s);
        let all = results_of(stmts, from, unit);
        let first = results(e, unit);
        assert(follows(answers, at, first)) by {
            assert forall|i: int| 0 <= i < first.len() && at + i < answers.len() implies answers[at
                + i] == #[trigger] first[i] by {
                assert(all[i] == first[i]);
            }
        }
        lemma_evaluation_reaches(e, unit, answers, at);
        assert(execution(s, answers, at).1 == evaluation(e, answers, at).1);
        if at + first.len() <= answers.len() {
            match value(e, unit) {
                Ok(l) => {
                    let next = (at + first.len()) as nat;
                    let rest = results_of(stmts, from + 1, unit);
                    assert(follows(answers, next, rest)) by {
                        assert forall|i: int|
                            0 <= i < rest.len() && next + i < answers.len() implies answers[next
                            + i] == #[trigger] rest[i] by {
                            assert(all[first.len() + i] == rest[i]);
                        }
                    }
                    let after = match s {
                        StmtView::Dec(name, _) => frame.insert(name.lexeme, l.val),
                        _ => frame,
                    };
                    lemma_course_reaches(stmts, from + 1, unit, answers, next, after);
                    if !(next + rest.len() <= answers.len()) {
                        assert(all[first.len() + (answers.len() - next)] == rest[answers.len()
                            - next]);
                    }
                },
                Err(_) => {},
            }
        } else {
            assert(all[answers.len() - at] == first[answers.len() - at]);
        }
    }
}

/// Handing a run the unit's result for the operation it asks for, one
/// after the other, ends as the statements mean for that unit: with the
/// first of the unit's results as answers the run asks for an operation
/// whose result is the next of them, and with all of them it prints what the
/// statements print, ends as they end and leaves the variables they leave.
pub proof fn lemma_answers_lead_to_meaning(
    stmts: Seq<StmtView>,
    unit: spec_fn(Request) -> u64,
    answers: Seq<u64>,
    frame: Frame,
)
    requires
        answers.len() <= results_of(stmts, 0, unit).len(),
        answers == results_of(stmts, 0, unit).subrange(0, answers.len() as int),
    ensures
        answers.len() == results_of(stmts, 0, unit).len() ==> course(stmts, 0, answers, 0, frame)
            == meaning(stmts, 0, unit, frame),
        answers.len() < results_of(stmts, 0, unit).len() ==> ({
            &&& course(stmts, 0, answers, 0, frame).status matches StatusView::Pending(request)
            &&& answers.push(unit(request)) == results_of(stmts, 0, unit).subrange(
                0,
                answers.len() + 1int,
            )
        }),
{
    let wanted = results_of(stmts, 0, unit);
    assert(follows(answers, 0, wanted)) by {
        assert forall|i: int| 0 <= i < wanted.len() && 0 + i < answers.len() implies answers[0 + i]
            == #[trigger] wanted[i] by {
            assert(wanted.subrange(0, answers.len() as int)[i] == wanted[i]);
        }
    }
    lemma_course_reaches(stmts, 0, unit, answers, 0, frame);
    if answers.len() < wanted.len() {
        let request = course(stmts, 0, answers, 0, frame).status->Pending_0;
        assert(answers.push(unit(request)) =~= wanted.subrange(0, answers.len() + 1int));
    }
}

} // verus!
