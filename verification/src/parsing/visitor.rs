//! Walking an expression: evaluating it to a value, and writing it out.
//!
//! Evaluation never rounds a number itself.  Where an expression adds,
//! subtracts, multiplies or divides two numbers, the result is taken from a
//! list of answers that the caller supplies, one for each such operation in
//! the order in which the walk reaches them.  Where the list is too short the
//! walk stops and says which operation it needs next.

use crate::errors::err::{type_mismatch, RuntimeErr, RuntimeErrView};
use crate::number::{
    less, less_equal, negate, negated, number_less, number_less_equal,
};
use crate::parsing::expressions::{
    fragment_views, truthy, value_text, values_equal, Binary, Expr, ExprView, Fragment,
    FragmentView, Grouping, Literal, LiteralView, Unary, Value, ValueView,
};
use crate::parsing::tokens::{Token, TokenType, TokenView};
use vstd::prelude::*;
use vstd::string::StringExecFns;

verus! {

/// The four operations that round.
#[derive(Debug, Clone, Copy, PartialEq, Eq, Structural)]
pub enum Operation {
    Add,
    Subtract,
    Multiply,
    Divide,
}

/// One operation on two numbers, given by their bit patterns, whose result
/// the caller is asked for.
#[derive(Debug, Clone, Copy, PartialEq, Eq, Structural)]
pub struct Request {
    pub operation: Operation,
    pub left: u64,
    pub right: u64,
}

/// How an evaluation ended.
#[derive(Debug)]
pub enum Outcome {
    /// The expression has this value.
    Done(Literal),
    /// The answers ran out: this operation is the next one needed.
    Pending(Request),
    /// The evaluation failed.
    Failed(RuntimeErr),
}

/// An outcome as plain mathematical values.
pub enum OutcomeView {
    Done(LiteralView),
    Pending(Request),
    Failed(RuntimeErrView),
}

impl View for Outcome {
    type V = OutcomeView;

    open spec fn view(&self) -> OutcomeView {
        match self {
            Outcome::Done(l) => OutcomeView::Done(l@),
            Outcome::Pending(r) => OutcomeView::Pending(*r),
            Outcome::Failed(e) => OutcomeView::Failed(e@),
        }
    }
}

/// What an operator makes of its operands.
pub enum Rule {
    /// The operator has this value.
    Value(ValueView),
    /// The value is the result of this operation on two numbers.
    Arithmetic(Request),
    /// The operator is not defined on the operands.
    Mismatch,
}

/// What a binary operator makes of two values.
///
/// `+` adds two numbers and joins two strings; `-`, `*` and `/` work on two
/// numbers; the four comparisons order two numbers; `==` and `!=` take any
/// two values.  Everything else is a mismatch.
pub open spec fn binary_rule(operator: TokenType, left: ValueView, right: ValueView) -> Rule {
    match (operator, left, right) {
        (TokenType::PLUS, ValueView::Int(x), ValueView::Int(y)) => Rule::Arithmetic(
            Request { operation: Operation::Add, left: x, right: y },
        ),
        (TokenType::SLASH, ValueView::Int(x), ValueView::Int(y)) => Rule::Arithmetic(
            Request { operation: Operation::Divide, left: x, right: y },
        ),
        (TokenType::MINUS, ValueView::Int(x), ValueView::Int(y)) => Rule::Arithmetic(
            Request { operation: Operation::Subtract, left: x, right: y },
        ),
        (TokenType::STAR, ValueView::Int(x), ValueView::Int(y)) => Rule::Arithmetic(
            Request { operation: Operation::Multiply, left: x, right: y },
        ),
        (TokenType::PLUS, ValueView::S(x), ValueView::S(y)) => Rule::Value(ValueView::S(x + y)),
        (TokenType::GREATER, ValueView::Int(x), ValueView::Int(y)) => Rule::Value(
            ValueView::Bool(number_less(y, x)),
        ),
        (TokenType::GREATER_EQUAL, ValueView::Int(x), ValueView::Int(y)) => Rule::Value(
            ValueView::Bool(number_less_equal(y, x)),
        ),
        (TokenType::LESS, ValueView::Int(x), ValueView::Int(y)) => Rule::Value(
            ValueView::Bool(number_less(x, y)),
        ),
        (TokenType::LESS_EQUAL, ValueView::Int(x), ValueView::Int(y)) => Rule::Value(
            ValueView::Bool(number_less_equal(x, y)),
        ),
        (TokenType::EQUAL_EQUAL, x, y) => Rule::Value(ValueView::Bool(values_equal(x, y))),
        (TokenType::BANG_EQUAL, x, y) => Rule::Value(ValueView::Bool(!values_equal(x, y))),
        (_, _, _) => Rule::Mismatch,
    }
}

/// What a unary operator makes of a value: `-` negates a number, `!` gives
/// the opposite of a value's truthiness.  Everything else is a mismatch.
pub open spec fn unary_rule(operator: TokenType, right: ValueView) -> Rule {
    match (operator, right) {
        (TokenType::MINUS, ValueView::Int(x)) => Rule::Value(ValueView::Int(negated(x))),
        (TokenType::BANG, v) => Rule::Value(ValueView::Bool(!truthy(v))),
        (_, _) => Rule::Mismatch,
    }
}

/// The outcome of an operator whose rule is `rule`, with the answers from
/// `at` on still unused, and the place of the first answer unused after it.
pub open spec fn settle(rule: Rule, operator: TokenView, answers: Seq<u64>, at: nat) -> (
    OutcomeView,
    nat,
) {
    match rule {
        Rule::Value(v) => (OutcomeView::Done(LiteralView { val: v, token: operator }), at),
        Rule::Arithmetic(request) => if at < answers.len() {
            (
                OutcomeView::Done(
                    LiteralView { val: ValueView::Int(answers[at as int]), token: operator },
                ),
                at + 1,
            )
        } else {
            (OutcomeView::Pending(request), at)
        },
        Rule::Mismatch => (OutcomeView::Failed(type_mismatch(operator)), at),
    }
}

/// The outcome of evaluating `e` with the answers from `at` on still
/// unused, and the place of the first answer unused after it.
///
/// Operands are evaluated left to right, and the first that does not yield
/// a value ends the evaluation with its outcome.
pub open spec fn evaluation(e: ExprView, answers: Seq<u64>, at: nat) -> (OutcomeView, nat)
    decreases e,
{
    match e {
        ExprView::Literal(l) => (OutcomeView::Done(l), at),
        ExprView::Grouping(inner) => evaluation(*inner, answers, at),
        ExprView::Unary(operator, right) => {
            let (r, next) = evaluation(*right, answers, at);
            match r {
                OutcomeView::Done(v) => settle(
                    unary_rule(operator.variant, v.val),
                    operator,
                    answers,
                    next,
                ),
                _ => (r, next),
            }
        },
        ExprView::Binary(left, operator, right) => {
            let (l, middle) = evaluation(*left, answers, at);
            match l {
                OutcomeView::Done(x) => {
                    let (r, next) = evaluation(*right, answers, middle);
                    match r {
                        OutcomeView::Done(y) => settle(
                            binary_rule(operator.variant, x.val, y.val),
                            operator,
                            answers,
                            next,
                        ),
                        _ => (r, next),
                    }
                },
                _ => (l, middle),
            }
        },
    }
}

/// An expression written out, operator first: `op ( left right )` for a
/// binary operator, `(op right)` for a unary one, `(inner)` for a group, and
/// a literal by the textual form of its value.
pub open spec fn written(e: ExprView) -> Seq<FragmentView>
    decreases e,
{
    match e {
        ExprView::Binary(left, operator, right) => seq![
            FragmentView::Text(operator.lexeme + " ( "@),
        ] + written(*left) + seq![FragmentView::Text(" "@)] + written(*right) + seq![
            FragmentView::Text(" )"@),
        ],
        ExprView::Grouping(inner) => seq![FragmentView::Text("("@)] + written(*inner) + seq![
            FragmentView::Text(")"@),
        ],
        ExprView::Literal(l) => seq![value_text(l.val)],
        ExprView::Unary(operator, right) => seq![
            FragmentView::Text("("@ + operator.lexeme + " "@),
        ] + written(*right) + seq![FragmentView::Text(")"@)],
    }
}

/// Writes expressions out.
pub struct Printer {}

impl Printer {
    pub fn new() -> Self {
        Printer {  }
    }

    /// Writes `e` out, as fragments to be joined.
    pub fn print(&self, e: &Expr) -> (r: Vec<Fragment>)
        ensures
            fragment_views(r@) == written(e@),
    {
        let mut out: Vec<Fragment> = Vec::new();
        assert(fragment_views(out@) =~= Seq::empty());
        self.write(e, &mut out);
        assert(Seq::<FragmentView>::empty() + written(e@) =~= written(e@));
        out
    }

    /// Adds `e`, written out, to `out`.
    fn write(&self, e: &Expr, out: &mut Vec<Fragment>)
        ensures
            fragment_views(final(out)@) == fragment_views(old(out)@) + written(e@),
        decreases e, 1nat,
    {
        match e {
            Expr::Binary(b) => self.visit_binary(b, out),
            Expr::Grouping(g) => self.visit_grouping(g, out),
            Expr::Literal(l) => self.visit_literal(l, out),
            Expr::Unary(u) => self.visit_unary(u, out),
        }
    }

    /// Adds the text `s` to `out`.
    fn push_text(&self, s: String, out: &mut Vec<Fragment>)
        ensures
            fragment_views(final(out)@) == fragment_views(old(out)@).push(FragmentView::Text(s@)),
    {
        let fragment = Fragment::Text(s);
        out.push(fragment);
        assert(fragment_views(out@) =~= fragment_views(old(out)@).push(fragment@));
    }

    fn visit_binary(&self, b: &Binary, out: &mut Vec<Fragment>)
        ensures
            fragment_views(final(out)@) == fragment_views(old(out)@) + written(Expr::Binary(*b)@),
        decreases b, 0nat,
    {
        let ghost before = fragment_views(out@);
        let mut op = b.operator.lexeme.clone();
        op.append(" ( ");
        self.push_text(op, out);
        self.write(&b.left, out);
        self.push_text(" ".to_owned(), out);
        self.write(&b.right, out);
        self.push_text(" )".to_owned(), out);
        assert(fragment_views(out@) =~= before + written(Expr::Binary(*b)@));
    }

    fn visit_grouping(&self, g: &Grouping, out: &mut Vec<Fragment>)
        ensures
            fragment_views(final(out)@) == fragment_views(old(out)@) + written(
                Expr::Grouping(*g)@,
            ),
        decreases g, 0nat,
    {
        let ghost before = fragment_views(out@);
        self.push_text("(".to_owned(), out);
        self.write(&g.expr, out);
        self.push_text(")".to_owned(), out);
        assert(fragment_views(out@) =~= before + written(Expr::Grouping(*g)@));
    }

    fn visit_literal(&self, l: &Literal, out: &mut Vec<Fragment>)
        ensures
            fragment_views(final(out)@) == fragment_views(old(out)@) + seq![value_text(l@.val)],
    {
        let fragment = l.val.text();
        out.push(fragment);
        assert(fragment_views(out@) =~= fragment_views(old(out)@) + seq![fragment@]);
    }

    fn visit_unary(&self, u: &Unary, out: &mut Vec<Fragment>)
        ensures
            fragment_views(final(out)@) == fragment_views(old(out)@) + written(Expr::Unary(*u)@),
        decreases u, 0nat,
    {
        let ghost before = fragment_views(out@);
        let mut op = "(".to_owned();
        op.append(u.operator.lexeme.as_str());
        op.append(" ");
        self.push_text(op, out);
        self.write(&u.right, out);
        self.push_text(")".to_owned(), out);
        assert(fragment_views(out@) =~= before + written(Expr::Unary(*u)@));
    }
}

/// Evaluates expressions.
pub struct Interpreter {}

impl Interpreter {
    pub fn new() -> Self {
        Interpreter {  }
    }

    /// Evaluates `e`, taking the results of its additions, subtractions,
    /// multiplications and divisions from `answers` in the order in which
    /// they are needed.
    pub fn evaluate(&self, e: &Expr, answers: &Vec<u64>) -> (r: Outcome)
        ensures
            r@ == evaluation(e@, answers@, 0).0,
    {
        self.evaluate_from(e, answers, 0).0
    }

    /// Evaluates `e` with the answers from `at` on still unused; also
    /// returns the place of the first answer unused afterwards.
    pub fn evaluate_from(&self, e: &Expr, answers: &Vec<u64>, at: usize) -> (r: (Outcome, usize))
        ensures
            r.0@ == evaluation(e@, answers@, at as nat).0,
            r.1 == evaluation(e@, answers@, at as nat).1,
        decreases e, 1nat,
    {
        match e {
            Expr::Binary(b) => self.visit_binary(b, answers, at),
            Expr::Grouping(g) => self.visit_grouping(g, answers, at),
            Expr::Literal(l) => self.visit_literal(l, at),
            Expr::Unary(u) => self.visit_unary(u, answers, at),
        }
    }

    /// Whether a value counts as true.
    pub fn is_truthy(&self, expr: &Value) -> (r: bool)
        ensures
            r == truthy(expr@),
    {
        match expr {
            Value::Nil => false,
            Value::Bool(res) => *res,
            _ => true,
        }
    }

    fn answer(&self, request: Request, operator: &Token, answers: &Vec<u64>, at: usize) -> (r: (
        Outcome,
        usize,
    ))
        ensures
            (r.0@, r.1 as nat) == settle(Rule::Arithmetic(request), operator@, answers@, at as nat),
    {
        if at < answers.len() {
            (Outcome::Done(Literal::new(operator.duplicate(), Value::Int(answers[at]))), at + 1)
        } else {
            (Outcome::Pending(request), at)
        }
    }

    fn done(&self, operator: &Token, value: Value, at: usize) -> (r: (Outcome, usize))
        ensures
            (r.0@, r.1 as nat) == settle(Rule::Value(value@), operator@, Seq::empty(), at as nat),
    {
        (Outcome::Done(Literal::new(operator.duplicate(), value)), at)
    }

    fn visit_binary(&self, b: &Binary, answers: &Vec<u64>, at: usize) -> (r: (Outcome, usize))
        ensures
            (r.0@, r.1 as nat) == evaluation(Expr::Binary(*b)@, answers@, at as nat),
        decreases b, 0nat,
    {
        let (left, middle) = self.evaluate_from(&b.left, answers, at);
        let left = match left {
            Outcome::Done(l) => l,
            other => {
                return (other, middle);
            },
        };
        let (right, next) = self.evaluate_from(&b.right, answers, middle);
        let right = match right {
            Outcome::Done(r) => r,
            other => {
                return (other, next);
            },
        };
        let operator = &b.operator;
        match (operator.variant, left.val, right.val) {
            // arithmetic
            (TokenType::PLUS, Value::Int(x), Value::Int(y)) => self.answer(
                Request { operation: Operation::Add, left: x, right: y },
                operator,
                answers,
                next,
            ),
            (TokenType::SLASH, Value::Int(x), Value::Int(y)) => self.answer(
                Request { operation: Operation::Divide, left: x, right: y },
                operator,
                answers,
                next,
            ),
            (TokenType::MINUS, Value::Int(x), Value::Int(y)) => self.answer(
                Request { operation: Operation::Subtract, left: x, right: y },
                operator,
                answers,
                next,
            ),
            (TokenType::STAR, Value::Int(x), Value::Int(y)) => self.answer(
                Request { operation: Operation::Multiply, left: x, right: y },
                operator,
                answers,
                next,
            ),
            // string concatenation
            (TokenType::PLUS, Value::S(x), Value::S(y)) => self.done(
                operator,
                Value::S(x.concat(y.as_str())),
                next,
            ),
            // comparison
            (TokenType::GREATER, Value::Int(x), Value::Int(y)) => self.done(
                operator,
                Value::Bool(less(y, x)),
                next,
            ),
            (TokenType::GREATER_EQUAL, Value::Int(x), Value::Int(y)) => self.done(
                operator,
                Value::Bool(less_equal(y, x)),
                next,
            ),
            (TokenType::LESS, Value::Int(x), Value::Int(y)) => self.done(
                operator,
                Value::Bool(less(x, y)),
                next,
            ),
            (TokenType::LESS_EQUAL, Value::Int(x), Value::Int(y)) => self.done(
                operator,
                Value::Bool(less_equal(x, y)),
                next,
            ),
            // equality
            (TokenType::EQUAL_EQUAL, x, y) => self.done(operator, Value::Bool(x == y), next),
            (TokenType::BANG_EQUAL, x, y) => self.done(operator, Value::Bool(!(x == y)), next),
            // every other combination
            (_, _, _) => (Outcome::Failed(RuntimeErr::mismatch(operator)), next),
        }
    }

    fn visit_grouping(&self, g: &Grouping, answers: &Vec<u64>, at: usize) -> (r: (Outcome, usize))
        ensures
            (r.0@, r.1 as nat) == evaluation(Expr::Grouping(*g)@, answers@, at as nat),
        decreases g, 0nat,
    {
        self.evaluate_from(&g.expr, answers, at)
    }

    fn visit_literal(&self, l: &Literal, at: usize) -> (r: (Outcome, usize))
        ensures
            r.0@ == OutcomeView::Done(l@),
            r.1 == at,
    {
        (Outcome::Done(l.duplicate()), at)
    }

    fn visit_unary(&self, u: &Unary, answers: &Vec<u64>, at: usize) -> (r: (Outcome, usize))
        ensures
            (r.0@, r.1 as nat) == evaluation(Expr::Unary(*u)@, answers@, at as nat),
        decreases u, 0nat,
    {
        let (right, next) = self.evaluate_from(&u.right, answers, at);
        let right = match right {
            Outcome::Done(r) => r,
            other => {
                return (other, next);
            },
        };
        let operator = &u.operator;
        match (operator.variant, right.val) {
            (TokenType::MINUS, Value::Int(i)) => self.done(operator, Value::Int(negate(i)), next),
            (TokenType::BANG, e) => self.done(operator, Value::Bool(!self.is_truthy(&e)), next),
            (_, _) => (Outcome::Failed(RuntimeErr::mismatch(operator)), next),
        }
    }
}

} // verus!
