//! Expressions and the values they evaluate to.

use crate::number::{equal, is_nan, number_equal};
use crate::parsing::tokens::{Token, TokenType, TokenView};
use vstd::prelude::*;
use vstd::std_specs::cmp::PartialEqSpecImpl;

verus! {

/// A runtime value.  `Int` holds the bit pattern of a binary64 number.
#[derive(Clone, Debug)]
pub enum Value {
    S(String),
    Int(u64),
    Bool(bool),
    Nil,
}

/// A runtime value as a plain mathematical value.
pub enum ValueView {
    S(Seq<char>),
    Int(u64),
    Bool(bool),
    Nil,
}

impl View for Value {
    type V = ValueView;

    open spec fn view(&self) -> ValueView {
        match self {
            Value::S(s) => ValueView::S(s@),
            Value::Int(bits) => ValueView::Int(*bits),
            Value::Bool(b) => ValueView::Bool(*b),
            Value::Nil => ValueView::Nil,
        }
    }
}

/// Equality of values: two values of different variants are never equal,
/// two of the same variant are equal where what they hold is equal, numbers
/// as numbers.
pub open spec fn values_equal(a: ValueView, b: ValueView) -> bool {
    match (a, b) {
        (ValueView::Int(x), ValueView::Int(y)) => number_equal(x, y),
        (ValueView::S(x), ValueView::S(y)) => x == y,
        (ValueView::Bool(x), ValueView::Bool(y)) => x == y,
        (ValueView::Nil, ValueView::Nil) => true,
        (_, _) => false,
    }
}

/// Whether a value counts as true: `Nil` does not, a `Bool` counts as what
/// it holds, and every number and every string does.
pub open spec fn truthy(v: ValueView) -> bool {
    match v {
        ValueView::Nil => false,
        ValueView::Bool(b) => b,
        _ => true,
    }
}

/// Whether two values are of the same variant.
pub open spec fn same_variant(a: ValueView, b: ValueView) -> bool {
    match (a, b) {
        (ValueView::Int(_), ValueView::Int(_)) => true,
        (ValueView::S(_), ValueView::S(_)) => true,
        (ValueView::Bool(_), ValueView::Bool(_)) => true,
        (ValueView::Nil, ValueView::Nil) => true,
        (_, _) => false,
    }
}

/// Every value is equal to itself, but for a number that is a NaN.
pub proof fn lemma_equality_is_reflexive(v: ValueView)
    requires
        !(v matches ValueView::Int(bits) && is_nan(bits)),
    ensures
        values_equal(v, v),
{
}

/// Values of different variants are never equal, and equality does not
/// depend on the side a value stands on.
pub proof fn lemma_equality_tells_variants_apart(a: ValueView, b: ValueView)
    ensures
        values_equal(a, b) ==> same_variant(a, b),
        values_equal(a, b) == values_equal(b, a),
{
}

/// Only nil and false do not count as true.
pub proof fn lemma_only_nil_and_false_are_falsy(v: ValueView)
    ensures
        truthy(v) <==> !(v is Nil || v == ValueView::Bool(false)),
{
}

impl PartialEq for Value {
    fn eq(&self, other: &Self) -> (r: bool) {
        match (self, other) {
            (Value::Int(a), Value::Int(b)) => equal(*a, *b),
            (Value::S(a), Value::S(b)) => *a == *b,
            (Value::Bool(a), Value::Bool(b)) => *a == *b,
            (Value::Nil, Value::Nil) => true,
            (_, _) => false,
        }
    }
}

impl PartialEqSpecImpl for Value {
    open spec fn obeys_eq_spec() -> bool {
        true
    }

    open spec fn eq_spec(&self, other: &Self) -> bool {
        values_equal(self@, other@)
    }
}

impl Value {
    /// A copy of this value.
    pub fn duplicate(&self) -> (r: Self)
        ensures
            r@ == self@,
    {
        match self {
            Value::S(s) => Value::S(s.clone()),
            Value::Int(bits) => Value::Int(*bits),
            Value::Bool(b) => Value::Bool(*b),
            Value::Nil => Value::Nil,
        }
    }
}

/// A piece of written-out text: text as it stands, or a number that is
/// still to be rendered, given by its bit pattern.
#[derive(Clone, Debug)]
pub enum Fragment {
    Text(String),
    Number(u64),
}

/// A fragment as a plain mathematical value.
pub enum FragmentView {
    Text(Seq<char>),
    Number(u64),
}

impl View for Fragment {
    type V = FragmentView;

    open spec fn view(&self) -> FragmentView {
        match self {
            Fragment::Text(s) => FragmentView::Text(s@),
            Fragment::Number(bits) => FragmentView::Number(*bits),
        }
    }
}

/// The views of a sequence of fragments, in order.
pub open spec fn fragment_views(fragments: Seq<Fragment>) -> Seq<FragmentView> {
    Seq::new(fragments.len(), |i: int| fragments[i]@)
}

/// The textual form of a value: a string is written as it is, a number is
/// left to be rendered, a boolean is `true` or `false`, and nil is `None`.
pub open spec fn value_text(v: ValueView) -> FragmentView {
    match v {
        ValueView::S(s) => FragmentView::Text(s),
        ValueView::Int(bits) => FragmentView::Number(bits),
        ValueView::Bool(b) => if b {
            FragmentView::Text("true"@)
        } else {
            FragmentView::Text("false"@)
        },
        ValueView::Nil => FragmentView::Text("None"@),
    }
}

impl Value {
    /// The textual form of this value.
    pub fn text(&self) -> (r: Fragment)
        ensures
            r@ == value_text(self@),
    {
        match self {
            Value::S(s) => Fragment::Text(s.clone()),
            Value::Int(bits) => Fragment::Number(*bits),
            Value::Bool(b) => if *b {
                Fragment::Text("true".to_owned())
            } else {
                Fragment::Text("false".to_owned())
            },
            Value::Nil => Fragment::Text("None".to_owned()),
        }
    }
}

/// A value together with the token it is attributed to: the literal's own
/// token in the tree, the operator's token for a computed value.
#[derive(Clone, Debug)]
pub struct Literal {
    pub val: Value,
    pub token: Token,
}

/// A literal as plain mathematical values.
pub struct LiteralView {
    pub val: ValueView,
    pub token: TokenView,
}

impl View for Literal {
    type V = LiteralView;

    open spec fn view(&self) -> LiteralView {
        LiteralView { val: self.val@, token: self.token@ }
    }
}

impl Literal {
    pub fn new(token: Token, val: Value) -> (r: Self)
        ensures
            r@ == (LiteralView { val: val@, token: token@ }),
    {
        Literal { val, token }
    }

    /// The literal `nil`, on line 1.
    pub fn default() -> (r: Self)
        ensures
            r@ == (LiteralView {
                val: ValueView::Nil,
                token: TokenView {
                    variant: TokenType::NIL,
                    lexeme: "NIL"@,
                    string: None,
                    number: None,
                    line: 1,
                },
            }),
    {
        Literal::new(Token::new(TokenType::NIL, "NIL".to_owned(), 1), Value::Nil)
    }

    /// A copy of this literal.
    pub fn duplicate(&self) -> (r: Self)
        ensures
            r@ == self@,
    {
        Literal { val: self.val.duplicate(), token: self.token.duplicate() }
    }
}

/// `left operator right`.
#[derive(Debug)]
pub struct Binary {
    pub left: Box<Expr>,
    pub operator: Token,
    pub right: Box<Expr>,
}

impl Binary {
    pub fn new(left: Box<Expr>, operator: Token, right: Box<Expr>) -> (r: Self)
        ensures
            r.left == left,
            r.operator == operator,
            r.right == right,
    {
        Binary { left, operator, right }
    }
}

/// `( expr )`.
#[derive(Debug)]
pub struct Grouping {
    pub expr: Box<Expr>,
}

impl Grouping {
    pub fn new(expr: Box<Expr>) -> (r: Self)
        ensures
            r.expr == expr,
    {
        Grouping { expr }
    }
}

/// `operator right`.
#[derive(Debug)]
pub struct Unary {
    pub operator: Token,
    pub right: Box<Expr>,
}

impl Unary {
    pub fn new(operator: Token, right: Box<Expr>) -> (r: Self)
        ensures
            r.operator == operator,
            r.right == right,
    {
        Unary { operator, right }
    }
}

/// An expression: a tree whose nodes own their operands.
#[derive(Debug)]
pub enum Expr {
    Binary(Binary),
    Grouping(Grouping),
    Literal(Literal),
    Unary(Unary),
}

/// An expression as a plain mathematical value.
pub enum ExprView {
    Binary(Box<ExprView>, TokenView, Box<ExprView>),
    Grouping(Box<ExprView>),
    Literal(LiteralView),
    Unary(TokenView, Box<ExprView>),
}

/// The view of an expression: the same tree over the views of its tokens
/// and values.
pub open spec fn expr_view(e: Expr) -> ExprView
    decreases e,
{
    match e {
        Expr::Binary(b) => ExprView::Binary(
            Box::new(expr_view(*b.left)),
            b.operator@,
            Box::new(expr_view(*b.right)),
        ),
        Expr::Grouping(g) => ExprView::Grouping(Box::new(expr_view(*g.expr))),
        Expr::Literal(l) => ExprView::Literal(l@),
        Expr::Unary(u) => ExprView::Unary(u.operator@, Box::new(expr_view(*u.right))),
    }
}

impl View for Expr {
    type V = ExprView;

    open spec fn view(&self) -> ExprView {
        expr_view(*self)
    }
}

impl Expr {
    /// A copy of this expression.
    pub fn duplicate(&self) -> (r: Self)
        ensures
            r@ == self@,
        decreases self,
    {
        match self {
            Expr::Binary(b) => Expr::Binary(
                Binary {
                    left: Box::new(b.left.duplicate()),
                    operator: b.operator.duplicate(),
                    right: Box::new(b.right.duplicate()),
                },
            ),
            Expr::Grouping(g) => Expr::Grouping(Grouping { expr: Box::new(g.expr.duplicate()) }),
            Expr::Literal(l) => Expr::Literal(l.duplicate()),
            Expr::Unary(u) => Expr::Unary(
                Unary { operator: u.operator.duplicate(), right: Box::new(u.right.duplicate()) },
            ),
        }
    }
}

} // verus!
