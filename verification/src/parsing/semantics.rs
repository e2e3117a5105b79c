//! What an expression means, and why asking for one answer at a time gets
//! there.
//!
//! The meaning of an expression is given for an arithmetic unit: a function
//! that says what each operation on two numbers results in.  An evaluation
//! that is handed the unit's results one by one, each for the operation it
//! asked for last, ends with the value that the expression has for that unit.

use crate::errors::err::{type_mismatch, RuntimeErrView};
use crate::parsing::expressions::{ExprView, LiteralView, ValueView};
use crate::parsing::tokens::TokenView;
use crate::parsing::visitor::{
    binary_rule, evaluation, settle, unary_rule, OutcomeView, Request, Rule,
};
use vstd::prelude::*;

verus! {

/// What an operator whose rule is `rule` has for a value, for the unit
/// `unit`.
pub open spec fn ruled(rule: Rule, operator: TokenView, unit: spec_fn(Request) -> u64) -> Result<
    LiteralView,
    RuntimeErrView,
> {
    match rule {
        Rule::Value(v) => Ok(LiteralView { val: v, token: operator }),
        Rule::Arithmetic(request) => Ok(
            LiteralView { val: ValueView::Int(unit(request)), token: operator },
        ),
        Rule::Mismatch => Err(type_mismatch(operator)),
    }
}

/// The results that the unit is asked for by an operator whose rule is
/// `rule`: one, or none.
pub open spec fn rule_asks(rule: Rule, unit: spec_fn(Request) -> u64) -> Seq<u64> {
    match rule {
        Rule::Arithmetic(request) => seq![unit(request)],
        _ => Seq::empty(),
    }
}

/// The value of `e` for the unit `unit`, or the failure of its first
/// operator that is applied to values it is not defined on.
pub open spec fn value(e: ExprView, unit: spec_fn(Request) -> u64) -> Result<
    LiteralView,
    RuntimeErrView,
>
    decreases e,
{
    match e {
        ExprView::Literal(l) => Ok(l),
        ExprView::Grouping(inner) => value(*inner, unit),
        ExprView::Unary(operator, right) => match value(*right, unit) {
            Ok(v) => ruled(unary_rule(operator.variant, v.val), operator, unit),
            Err(failure) => Err(failure),
        },
        ExprView::Binary(left, operator, right) => match value(*left, unit) {
            Ok(x) => match value(*right, unit) {
                Ok(y) => ruled(binary_rule(operator.variant, x.val, y.val), operator, unit),
                Err(failure) => Err(failure),
            },
            Err(failure) => Err(failure),
        },
    }
}

/// The results that the unit gives while `e` is evaluated, in the order in
/// which they are asked for.
pub open spec fn results(e: ExprView, unit: spec_fn(Request) -> u64) -> Seq<u64>
    decreases e,
{
    match e {
        ExprView::Literal(l) => Seq::empty(),
        ExprView::Grouping(inner) => results(*inner, unit),
        ExprView::Unary(operator, right) => match value(*right, unit) {
            Ok(v) => results(*right, unit) + rule_asks(unary_rule(operator.variant, v.val), unit),
            Err(_) => results(*right, unit),
        },
        ExprView::Binary(left, operator, right) => match value(*left, unit) {
            Ok(x) => match value(*right, unit) {
                Ok(y) => results(*left, unit) + results(*right, unit) + rule_asks(
                    binary_rule(operator.variant, x.val, y.val),
                    unit,
                ),
                Err(_) => results(*left, unit) + results(*right, unit),
            },
            Err(_) => results(*left, unit),
        },
    }
}

/// How an evaluation ends that has come to a value or a failure.
pub open spec fn ended(value: Result<LiteralView, RuntimeErrView>) -> OutcomeView {
    match value {
        Ok(l) => OutcomeView::Done(l),
        Err(failure) => OutcomeView::Failed(failure),
    }
}

/// Whether the answers from `at` on are the first of `wanted`, or all of
/// `wanted` and more.
pub open spec fn follows(answers: Seq<u64>, at: nat, wanted: Seq<u64>) -> bool {
    &&& at <= answers.len()
    &&& forall|i: int|
        0 <= i < wanted.len() && at + i < answers.len() ==> answers[at + i] == #[trigger] wanted[i]
}

/// Whether an evaluation that started with the answers from `at` on unused
/// came as far as those answers take it towards `value`: to `value` itself
/// where all of `wanted` were there, and else to a request for the first of
/// `wanted` that was not.
pub open spec fn reached(
    outcome: (OutcomeView, nat),
    answers: Seq<u64>,
    at: nat,
    wanted: Seq<u64>,
    value: Result<LiteralView, RuntimeErrView>,
    unit: spec_fn(Request) -> u64,
) -> bool {
    if at + wanted.len() <= answers.len() {
        outcome == (ended(value), at + wanted.len())
    } else {
        &&& outcome.0 matches OutcomeView::Pending(request)
        &&& unit(request) == wanted[answers.len() - at]
    }
}

proof fn lemma_settle_reaches(
    rule: Rule,
    operator: TokenView,
    answers: Seq<u64>,
    at: nat,
    unit: spec_fn(Request) -> u64,
)
    requires
        follows(answers, at, rule_asks(rule, unit)),
    ensures
        reached(
            settle(rule, operator, answers, at),
            answers,
            at,
            rule_asks(rule, unit),
            ruled(rule, operator, unit),
            unit,
        ),
{
    match rule {
        Rule::Arithmetic(request) => {
            let wanted = rule_asks(rule, unit);
            if at < answers.len() {
                assert(answers[at + 0int] == wanted[0]);
            }
        },
        _ => {},
    }
}

/// An evaluation comes as far as its answers take it.
pub proof fn lemma_evaluation_reaches(
    e: ExprView,
    unit: spec_fn(Request) -> u64,
    answers: Seq<u64>,
    at: nat,
)
    requires
        follows(answers, at, results(e, unit)),
    ensures
        reached(evaluation(e, answers, at), answers, at, results(e, unit), value(e, unit), unit),
    decreases e,
{
    match e {
        ExprView::Literal(l) => {},
        ExprView::Grouping(inner) => {
            lemma_evaluation_reaches(*inner, unit, answers, at);
        },
        ExprView::Unary(operator, right) => {
            let first = results(*right, unit);
            assert(follows(answers, at, first)) by {
                assert forall|i: int| 0 <= i < first.len() && at + i < answers.len() implies answers[at
                    + i] == #[trigger] first[i] by {
                    assert(results(e, unit)[i] == first[i]);
                }
            }
            lemma_evaluation_reaches(*right, unit, answers, at);
            if at + first.len() <= answers.len() {
                match value(*right, unit) {
                    Ok(v) => {
                        let rule = unary_rule(operator.variant, v.val);
                        let next = (at + first.len()) as nat;
                        let last = rule_asks(rule, unit);
                        assert(follows(answers, next, last)) by {
                            assert forall|i: int|
                                0 <= i < last.len() && next + i < answers.len() implies answers[next
                                + i] == #[trigger] last[i] by {
                                assert(results(e, unit)[first.len() + i] == last[i]);
                            }
                        }
                        lemma_settle_reaches(rule, operator, answers, next, unit);
                    },
                    Err(_) => {},
                }
            } else {
                assert(results(e, unit)[answers.len() - at] == first[answers.len() - at]);
            }
        },
        ExprView::Binary(left, operator, right) => {
            let first = results(*left, unit);
            assert(follows(answers, at, first)) by {
                assert forall|i: int| 0 <= i < first.len() && at + i < answers.len() implies answers[at
                    + i] == #[trigger] first[i] by {
                    assert(results(e, unit)[i] == first[i]);
                }
            }
            lemma_evaluation_reaches(*left, unit, answers, at);
            if at + first.len() <= answers.len() {
                match value(*left, unit) {
                    Ok(x) => {
                        let middle = (at + first.len()) as nat;
                        let second = results(*right, unit);
                        assert(follows(answers, middle, second)) by {
                            assert forall|i: int|
                                0 <= i < second.len() && middle + i < answers.len() implies answers[middle
                                + i] == #[trigger] second[i] by {
                                assert(results(e, unit)[first.len() + i] == second[i]);
                            }
                        }
                        lemma_evaluation_reaches(*right, unit, answers, middle);
                        if middle + second.len() <= answers.len() {
                            match value(*right, unit) {
                                Ok(y) => {
                                    let rule = binary_rule(operator.variant, x.val, y.val);
                                    let next = (middle + second.len()) as nat;
                                    let last = rule_asks(rule, unit);
                                    assert(follows(answers, next, last)) by {
                                        assert forall|i: int|
                                            0 <= i < last.len() && next + i
                                                < answers.len() implies answers[next + i]
                                            == #[trigger] last[i] by {
                                            assert(results(e, unit)[first.len() + second.len() + i]
                                                == last[i]);
                                        }
                                    }
                                    lemma_settle_reaches(rule, operator, answers, next, unit);
                                },
                                Err(_) => {},
                            }
                        } else {
                            assert(results(e, unit)[first.len() + (answers.len() - middle)]
                                == second[answers.len() - middle]);
                        }
                    },
                    Err(_) => {},
                }
            } else {
                assert(results(e, unit)[answers.len() - at] == first[answers.len() - at]);
            }
        },
    }
}

/// Handing an evaluation the unit's result for the operation it asks for,
/// one after the other, ends with the value of the expression for that unit:
/// with the first of the unit's results as answers the evaluation asks for
/// an operation whose result is the next of them, and with all of them it
/// has the value.
pub proof fn lemma_answers_lead_to_value(
    e: ExprView,
    unit: spec_fn(Request) -> u64,
    answers: Seq<u64>,
)
    requires
        answers.len() <= results(e, unit).len(),
        answers == results(e, unit).subrange(0, answers.len() as int),
    ensures
        answers.len() == results(e, unit).len() ==> evaluation(e, answers, 0).0 == ended(
            value(e, unit),
        ),
        answers.len() < results(e, unit).len() ==> ({
            &&& evaluation(e, answers, 0).0 matches OutcomeView::Pending(request)
            &&& answers.push(unit(request)) == results(e, unit).subrange(0, answers.len() + 1int)
        }),
{
    let wanted = results(e, unit);
    assert(follows(answers, 0, wanted)) by {
        assert forall|i: int| 0 <= i < wanted.len() && 0 + i < answers.len() implies answers[0 + i]
            == #[trigger] wanted[i] by {
            assert(wanted.subrange(0, answers.len() as int)[i] == wanted[i]);
        }
    }
    lemma_evaluation_reaches(e, unit, answers, 0);
    if answers.len() < wanted.len() {
        let request = evaluation(e, answers, 0).0->Pending_0;
        assert(answers.push(unit(request)) =~= wanted.subrange(0, answers.len() + 1int));
    }
}

} // verus!
