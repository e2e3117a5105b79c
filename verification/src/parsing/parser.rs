//! The parser: from tokens to statements, by recursive descent.
//!
//! ```text
//! program     := declaration* EOF
//! declaration := varDecl | statement
//! varDecl     := "var" IDENTIFIER "=" expression ";"
//! statement   := printStmt | exprStmt
//! printStmt   := "print" expression ";"
//! exprStmt    := expression ";"
//! expression  := equality
//! equality    := comparison ( ("!=" | "==") comparison )*
//! comparison  := term ( (">" | ">=" | "<" | "<=") term )*
//! term        := factor ( ("-" | "+") factor )*
//! factor      := unary ( ("/" | "*") unary )*
//! unary       := ("!" | "-") unary | primary
//! primary     := NUMBER | STRING | "true" | "false" | "nil"
//!              | "(" expression ")"
//! ```
//!
//! A statement that does not follow the grammar is reported and skipped:
//! parsing goes on at the next statement boundary.

use crate::parsing::expressions::{
    Binary, Expr, ExprView, Grouping, Literal, LiteralView, Unary, Value, ValueView,
};
use crate::parsing::statements::{stmt_views, Dec, ExprStmt, Print, Stmt, StmtView};
use crate::parsing::tokens::{token_views, Token, TokenType, TokenView};
use vstd::prelude::*;

verus! {

/// What the parser looked for and did not find.
#[derive(Debug, Clone, Copy, PartialEq, Eq, Structural)]
pub enum Expectation {
    /// An expression.
    Expression,
    /// The value that a number or string token carries.
    LiteralValue,
    /// The `)` that closes a group.
    RightParen,
    /// The name after `var`.
    VarName,
    /// The `=` after the name of a declaration.
    Equal,
    /// The `;` that ends a declaration.
    SemicolonAfterDeclaration,
    /// The `;` that ends a print statement.
    SemicolonAfterValue,
    /// The `;` that ends an expression statement.
    SemicolonAfterExpression,
}

/// A statement that does not follow the grammar: the line of the token at
/// which the parser gave up, and what it looked for there.
#[derive(Debug, Clone, Copy, PartialEq, Eq, Structural)]
pub struct SyntaxFailure {
    pub line: u32,
    pub kind: Expectation,
}

/// The message that goes with an expectation.
pub open spec fn expectation_message(kind: Expectation) -> Seq<char> {
    match kind {
        Expectation::Expression => "expect expression"@,
        Expectation::LiteralValue => "expect a literal with its value"@,
        Expectation::RightParen => "Expect ')' after expression."@,
        Expectation::VarName => "expect var name"@,
        Expectation::Equal => "expect '=' after var name"@,
        Expectation::SemicolonAfterDeclaration => "expecting ';' after variable declaration"@,
        Expectation::SemicolonAfterValue => "expecting ';' after expr."@,
        Expectation::SemicolonAfterExpression => "expecting ';' after expr"@,
    }
}

impl SyntaxFailure {
    /// The message that goes with this failure.
    pub fn message(&self) -> (r: String)
        ensures
            r@ == expectation_message(self.kind),
    {
        match self.kind {
            Expectation::Expression => "expect expression".to_owned(),
            Expectation::LiteralValue => "expect a literal with its value".to_owned(),
            Expectation::RightParen => "Expect ')' after expression.".to_owned(),
            Expectation::VarName => "expect var name".to_owned(),
            Expectation::Equal => "expect '=' after var name".to_owned(),
            Expectation::SemicolonAfterDeclaration => "expecting ';' after variable declaration".to_owned(),
            Expectation::SemicolonAfterValue => "expecting ';' after expr.".to_owned(),
            Expectation::SemicolonAfterExpression => "expecting ';' after expr".to_owned(),
        }
    }
}

/// The category of the token at `at`; past the last token it is `EOF`.
pub open spec fn kind_at(ts: Seq<TokenView>, at: int) -> TokenType {
    if 0 <= at < ts.len() {
        ts[at].variant
    } else {
        TokenType::EOF
    }
}

/// The line of the token at `at`; past the last token it is the line of
/// the last token, and line 1 where there is no token.
pub open spec fn line_at(ts: Seq<TokenView>, at: int) -> u32 {
    if 0 <= at < ts.len() {
        ts[at].line
    } else if ts.len() > 0 {
        ts.last().line
    } else {
        1
    }
}

/// The outcome of parsing an expression: the expression and the place
/// after it, or the failure and the place at which the parser gave up.
pub enum Parsed {
    Node(ExprView, int),
    Failed(SyntaxFailure, int),
}

/// The parser gives up at `at`, having looked for `kind`.
pub open spec fn gives_up(ts: Seq<TokenView>, at: int, kind: Expectation) -> Parsed {
    Parsed::Failed(SyntaxFailure { line: line_at(ts, at), kind }, at)
}

/// The literal that the token at `at` writes, with value `val`.
pub open spec fn literal(ts: Seq<TokenView>, at: int, val: ValueView) -> Parsed {
    Parsed::Node(ExprView::Literal(LiteralView { val, token: ts[at] }), at + 1)
}

/// Whether `kind` is a binary operator of `level`.  The levels are
/// numbered from the one that binds tightest: 1 for `/` and `*`, 2 for `-`
/// and `+`, 3 for the comparisons, 4 for `!=` and `==`.
pub open spec fn is_operator(level: nat, kind: TokenType) -> bool {
    if level == 1 {
        kind == TokenType::SLASH || kind == TokenType::STAR
    } else if level == 2 {
        kind == TokenType::MINUS || kind == TokenType::PLUS
    } else if level == 3 {
        kind == TokenType::GREATER || kind == TokenType::GREATER_EQUAL || kind == TokenType::LESS
            || kind == TokenType::LESS_EQUAL
    } else if level == 4 {
        kind == TokenType::BANG_EQUAL || kind == TokenType::EQUAL_EQUAL
    } else {
        false
    }
}

/// `primary := NUMBER | STRING | "true" | "false" | "nil" | "(" expression ")"`
pub open spec fn primary(ts: Seq<TokenView>, at: int) -> Parsed
    decreases ts.len() - at, 0nat,
{
    let kind = kind_at(ts, at);
    if kind == TokenType::FALSE {
        literal(ts, at, ValueView::Bool(false))
    } else if kind == TokenType::TRUE {
        literal(ts, at, ValueView::Bool(true))
    } else if kind == TokenType::NIL {
        literal(ts, at, ValueView::Nil)
    } else if kind == TokenType::NUMBER {
        match ts[at].number {
            Some(bits) => literal(ts, at, ValueView::Int(bits)),
            None => gives_up(ts, at, Expectation::LiteralValue),
        }
    } else if kind == TokenType::STRING {
        match ts[at].string {
            Some(s) => literal(ts, at, ValueView::S(s)),
            None => gives_up(ts, at, Expectation::LiteralValue),
        }
    } else if kind == TokenType::LEFT_PAREN {
        match expression(ts, at + 1) {
            Parsed::Node(inner, next) => if kind_at(ts, next) == TokenType::RIGHT_PAREN {
                Parsed::Node(ExprView::Grouping(Box::new(inner)), next + 1)
            } else {
                gives_up(ts, next, Expectation::RightParen)
            },
            failed => failed,
        }
    } else {
        gives_up(ts, at, Expectation::Expression)
    }
}

/// `unary := ("!" | "-") unary | primary`
pub open spec fn unary(ts: Seq<TokenView>, at: int) -> Parsed
    decreases ts.len() - at, 1nat,
{
    let kind = kind_at(ts, at);
    if kind == TokenType::BANG || kind == TokenType::MINUS {
        match unary(ts, at + 1) {
            Parsed::Node(right, next) => Parsed::Node(
                ExprView::Unary(ts[at], Box::new(right)),
                next,
            ),
            failed => failed,
        }
    } else {
        primary(ts, at)
    }
}

/// An operand of the operators of `level`: a chain of the level below, or
/// a unary expression below the lowest level.
pub open spec fn operand(ts: Seq<TokenView>, at: int, level: nat) -> Parsed
    decreases ts.len() - at, 2 * level + 2,
{
    if level <= 1 {
        unary(ts, at)
    } else {
        chain(ts, at, (level - 1) as nat)
    }
}

/// `chain := operand ( operator operand )*` for the operators of `level`.
/// The operators associate to the left.
///
/// An operand that is parsed ends after it starts and among the tokens
/// (see `lemma_parsed_advances`), so the test on `next` always holds.
pub open spec fn chain(ts: Seq<TokenView>, at: int, level: nat) -> Parsed
    decreases ts.len() - at, 2 * level + 3,
{
    match operand(ts, at, level) {
        Parsed::Node(left, next) => if at <= next <= ts.len() {
            chain_rest(ts, left, next, level)
        } else {
            Parsed::Node(left, next)
        },
        failed => failed,
    }
}

/// `( operator operand )*` after the operand `left`, for the operators of
/// `level`.
pub open spec fn chain_rest(ts: Seq<TokenView>, left: ExprView, at: int, level: nat) -> Parsed
    decreases ts.len() - at, 2 * level + 2,
{
    if is_operator(level, kind_at(ts, at)) {
        match operand(ts, at + 1, level) {
            Parsed::Node(right, next) => if at < next <= ts.len() {
                chain_rest(
                    ts,
                    ExprView::Binary(Box::new(left), ts[at], Box::new(right)),
                    next,
                    level,
                )
            } else {
                Parsed::Node(left, next)
            },
            failed => failed,
        }
    } else {
        Parsed::Node(left, at)
    }
}

/// `expression := equality`
pub open spec fn expression(ts: Seq<TokenView>, at: int) -> Parsed
    decreases ts.len() - at, 12nat,
{
    chain(ts, at, 4)
}

/// Whether `parsed` ends at or after `at` and among the tokens, and after
/// `at` where it is an expression and `moved` is set.
pub open spec fn ends_within(parsed: Parsed, ts: Seq<TokenView>, at: int, moved: bool) -> bool {
    match parsed {
        Parsed::Node(_, next) => at <= next <= ts.len() && (moved ==> at < next),
        Parsed::Failed(_, place) => at <= place <= ts.len(),
    }
}

/// An expression that is parsed ends after it starts, and the parser gives
/// up at or after the place at which it started; both among the tokens.
pub proof fn lemma_parsed_advances(ts: Seq<TokenView>, at: int)
    requires
        0 <= at <= ts.len(),
    ensures
        ends_within(expression(ts, at), ts, at, true),
{
    lemma_chain_advances(ts, at, 4);
}

/// A primary expression that is parsed ends after it starts.
pub proof fn lemma_primary_advances(ts: Seq<TokenView>, at: int)
    requires
        0 <= at <= ts.len(),
    ensures
        ends_within(primary(ts, at), ts, at, true),
    decreases ts.len() - at, 0nat,
{
    if kind_at(ts, at) == TokenType::LEFT_PAREN {
        lemma_chain_advances(ts, at + 1, 4);
    }
}

/// A unary expression that is parsed ends after it starts.
pub proof fn lemma_unary_advances(ts: Seq<TokenView>, at: int)
    requires
        0 <= at <= ts.len(),
    ensures
        ends_within(unary(ts, at), ts, at, true),
    decreases ts.len() - at, 1nat,
{
    let kind = kind_at(ts, at);
    if kind == TokenType::BANG || kind == TokenType::MINUS {
        lemma_unary_advances(ts, at + 1);
    } else {
        lemma_primary_advances(ts, at);
    }
}

/// An operand that is parsed ends after it starts.
pub proof fn lemma_operand_advances(ts: Seq<TokenView>, at: int, level: nat)
    requires
        0 <= at <= ts.len(),
    ensures
        ends_within(operand(ts, at, level), ts, at, true),
    decreases ts.len() - at, 2 * level + 2,
{
    if level <= 1 {
        lemma_unary_advances(ts, at);
    } else {
        lemma_chain_advances(ts, at, (level - 1) as nat);
    }
}

/// A chain that is parsed ends after it starts, and is its first operand
/// followed by the rest of the chain.
pub proof fn lemma_chain_advances(ts: Seq<TokenView>, at: int, level: nat)
    requires
        0 <= at <= ts.len(),
    ensures
        ends_within(chain(ts, at, level), ts, at, true),
        chain(ts, at, level) == match operand(ts, at, level) {
            Parsed::Node(left, next) => chain_rest(ts, left, next, level),
            failed => failed,
        },
    decreases ts.len() - at, 2 * level + 3,
{
    lemma_operand_advances(ts, at, level);
    match operand(ts, at, level) {
        Parsed::Node(left, next) => {
            lemma_chain_rest_advances(ts, left, next, level);
        },
        _ => {},
    }
}

/// The rest of a chain ends at or after its start, and is an operator and
/// an operand followed by the rest of the chain.
pub proof fn lemma_chain_rest_advances(ts: Seq<TokenView>, left: ExprView, at: int, level: nat)
    requires
        0 <= at <= ts.len(),
    ensures
        ends_within(chain_rest(ts, left, at, level), ts, at, false),
        is_operator(level, kind_at(ts, at)) ==> chain_rest(ts, left, at, level) == match operand(
            ts,
            at + 1,
            level,
        ) {
            Parsed::Node(right, next) => chain_rest(
                ts,
                ExprView::Binary(Box::new(left), ts[at], Box::new(right)),
                next,
                level,
            ),
            failed => failed,
        },
    decreases ts.len() - at, 2 * level + 2,
{
    if is_operator(level, kind_at(ts, at)) {
        lemma_operand_advances(ts, at + 1, level);
        match operand(ts, at + 1, level) {
            Parsed::Node(right, next) => {
                lemma_chain_rest_advances(
                    ts,
                    ExprView::Binary(Box::new(left), ts[at], Box::new(right)),
                    next,
                    level,
                );
            },
            _ => {},
        }
    }
}

/// The outcome of parsing a statement: the statement and the place after
/// it, or the failure and the place at which the parser gave up.
pub enum Declared {
    Stmt(StmtView, int),
    Failed(SyntaxFailure, int),
}

/// `expression ";"`, where `make` says what statement the expression
/// makes and `missing` what is reported where the `;` is not there.
pub open spec fn ended_expression(
    ts: Seq<TokenView>,
    at: int,
    make: spec_fn(ExprView) -> StmtView,
    missing: Expectation,
) -> Declared {
    match expression(ts, at) {
        Parsed::Node(e, next) => if kind_at(ts, next) == TokenType::SEMICOLON {
            Declared::Stmt(make(e), next + 1)
        } else {
            Declared::Failed(SyntaxFailure { line: line_at(ts, next), kind: missing }, next)
        },
        Parsed::Failed(failure, place) => Declared::Failed(failure, place),
    }
}

/// `printStmt := "print" expression ";"`, after the `print`.
pub open spec fn print_statement(ts: Seq<TokenView>, at: int) -> Declared {
    ended_expression(ts, at, |e: ExprView| StmtView::Print(e), Expectation::SemicolonAfterValue)
}

/// `exprStmt := expression ";"`
pub open spec fn expression_stmt(ts: Seq<TokenView>, at: int) -> Declared {
    ended_expression(
        ts,
        at,
        |e: ExprView| StmtView::ExprStmt(e),
        Expectation::SemicolonAfterExpression,
    )
}

/// `statement := printStmt | exprStmt`
pub open spec fn statement(ts: Seq<TokenView>, at: int) -> Declared {
    if kind_at(ts, at) == TokenType::PRINT {
        print_statement(ts, at + 1)
    } else {
        expression_stmt(ts, at)
    }
}

/// `varDecl := "var" IDENTIFIER "=" expression ";"`, after the `var`.
pub open spec fn var_declaration(ts: Seq<TokenView>, at: int) -> Declared {
    if kind_at(ts, at) != TokenType::IDENTIFIER {
        Declared::Failed(SyntaxFailure { line: line_at(ts, at), kind: Expectation::VarName }, at)
    } else if kind_at(ts, at + 1) != TokenType::EQUAL {
        Declared::Failed(
            SyntaxFailure { line: line_at(ts, at + 1), kind: Expectation::Equal },
            at + 1,
        )
    } else {
        ended_expression(
            ts,
            at + 2,
            |e: ExprView| StmtView::Dec(ts[at], e),
            Expectation::SemicolonAfterDeclaration,
        )
    }
}

/// `declaration := varDecl | statement`
pub open spec fn declaration(ts: Seq<TokenView>, at: int) -> Declared {
    if kind_at(ts, at) == TokenType::VAR {
        var_declaration(ts, at + 1)
    } else {
        statement(ts, at)
    }
}

/// Whether a statement starts with a token of this category.
pub open spec fn starts_statement(kind: TokenType) -> bool {
    kind == TokenType::CLASS || kind == TokenType::DEF || kind == TokenType::VAR || kind
        == TokenType::FOR || kind == TokenType::IF || kind == TokenType::WHILE || kind
        == TokenType::PRINT || kind == TokenType::RETURN
}

/// The first statement boundary at or after `at`: the end of the tokens,
/// the place after a `;`, or a token that starts a statement.
pub open spec fn boundary(ts: Seq<TokenView>, at: int) -> int
    decreases ts.len() - at,
{
    if kind_at(ts, at) == TokenType::EOF {
        at
    } else if kind_at(ts, at - 1) == TokenType::SEMICOLON {
        at
    } else if starts_statement(kind_at(ts, at)) {
        at
    } else {
        boundary(ts, at + 1)
    }
}

/// Where parsing goes on after the parser gave up at `at`: the token at
/// `at` is skipped, and then all tokens up to the next statement boundary.
pub open spec fn synchronize(ts: Seq<TokenView>, at: int) -> int {
    if kind_at(ts, at) == TokenType::EOF {
        at
    } else {
        boundary(ts, at + 1)
    }
}

/// What a program parses to: the statements that follow the grammar, in
/// order, and the failures of those that do not, in order.
pub struct Program {
    pub statements: Seq<StmtView>,
    pub failures: Seq<SyntaxFailure>,
}

/// `program := declaration* EOF`, from `at` on.
pub open spec fn program(ts: Seq<TokenView>, at: int) -> Program
    decreases ts.len() - at,
    via program_decreases
{
    if kind_at(ts, at) == TokenType::EOF {
        Program { statements: Seq::empty(), failures: Seq::empty() }
    } else {
        match declaration(ts, at) {
            Declared::Stmt(stmt, next) => {
                let rest = program(ts, next);
                Program { statements: seq![stmt] + rest.statements, failures: rest.failures }
            },
            Declared::Failed(failure, place) => {
                let rest = program(ts, synchronize(ts, place));
                Program { statements: rest.statements, failures: seq![failure] + rest.failures }
            },
        }
    }
}

#[via_fn]
proof fn program_decreases(ts: Seq<TokenView>, at: int) {
    if kind_at(ts, at) != TokenType::EOF {
        lemma_declaration_advances(ts, at);
        match declaration(ts, at) {
            Declared::Failed(_, place) => {
                lemma_boundary(ts, place + 1);
            },
            _ => {},
        }
    }
}

/// A statement that is parsed ends after it starts, and the parser gives
/// up at or after the place at which it started; both among the tokens.
pub proof fn lemma_declaration_advances(ts: Seq<TokenView>, at: int)
    requires
        0 <= at <= ts.len(),
    ensures
        match declaration(ts, at) {
            Declared::Stmt(_, next) => at < next <= ts.len(),
            Declared::Failed(_, place) => at <= place <= ts.len(),
        },
{
    if kind_at(ts, at) == TokenType::VAR {
        if kind_at(ts, at + 1) == TokenType::IDENTIFIER && kind_at(ts, at + 2) == TokenType::EQUAL {
            lemma_parsed_advances(ts, at + 3);
        }
    } else if kind_at(ts, at) == TokenType::PRINT {
        lemma_parsed_advances(ts, at + 1);
    } else {
        lemma_parsed_advances(ts, at);
    }
}

/// A statement boundary is found at or after the place from which it is
/// looked for, among the tokens.
pub proof fn lemma_boundary(ts: Seq<TokenView>, at: int)
    requires
        0 <= at,
    ensures
        at <= boundary(ts, at),
        at <= ts.len() ==> boundary(ts, at) <= ts.len(),
    decreases ts.len() - at,
{
    if kind_at(ts, at) == TokenType::EOF {
    } else if kind_at(ts, at - 1) == TokenType::SEMICOLON {
    } else if starts_statement(kind_at(ts, at)) {
    } else {
        lemma_boundary(ts, at + 1);
    }
}

/// The statements and failures of the tokens `ts`.
pub open spec fn parse(ts: Seq<TokenView>) -> Program {
    program(ts, 0)
}

/// Whether `r`, read at a place after which the parser stands at
/// `current`, is what `parsed` says.
pub open spec fn agrees(r: Result<Expr, SyntaxFailure>, current: int, parsed: Parsed) -> bool {
    match parsed {
        Parsed::Node(e, next) => r matches Ok(x) && x@ == e && current == next,
        Parsed::Failed(failure, place) => r == Err::<Expr, SyntaxFailure>(failure) && current
            == place,
    }
}

/// Whether `r`, read at a place after which the parser stands at
/// `current`, is what `declared` says.
pub open spec fn agrees_on_statement(
    r: Result<Stmt, SyntaxFailure>,
    current: int,
    declared: Declared,
) -> bool {
    match declared {
        Declared::Stmt(s, next) => r matches Ok(x) && x@ == s && current == next,
        Declared::Failed(failure, place) => r == Err::<Stmt, SyntaxFailure>(failure) && current
            == place,
    }
}

/// A parser over one sequence of tokens.
pub struct Parser {
    tokens: Vec<Token>,
    current: usize,
    failures: Vec<SyntaxFailure>,
}

impl Parser {
    /// The tokens that the parser reads.
    pub closed spec fn stream(&self) -> Seq<TokenView> {
        token_views(self.tokens@)
    }

    /// The place of the next token to read.
    pub closed spec fn place(&self) -> int {
        self.current as int
    }

    /// The failures reported so far.
    pub closed spec fn reported(&self) -> Seq<SyntaxFailure> {
        self.failures@
    }

    /// Whether the parser stands at or before the end of its tokens.
    pub closed spec fn wf(&self) -> bool {
        self.current <= self.tokens.len()
    }

    /// Whether nothing but the place differs from `before`.
    spec fn moved_from(&self, before: &Parser) -> bool {
        &&& self.tokens == before.tokens
        &&& self.failures == before.failures
        &&& self.wf()
    }

    /// Parses the tokens from the current place on: the statements that
    /// follow the grammar, in order.  The failures of the others are added
    /// to those reported.
    pub fn parse(&mut self) -> (statements: Vec<Stmt>)
        requires
            old(self).wf(),
        ensures
            final(self).wf(),
            final(self).stream() == old(self).stream(),
            stmt_views(statements@) == program(old(self).stream(), old(self).place()).statements,
            final(self).reported() == old(self).reported() + program(
                old(self).stream(),
                old(self).place(),
            ).failures,
            kind_at(final(self).stream(), final(self).place()) == TokenType::EOF,
    {
        let mut statements: Vec<Stmt> = Vec::new();
        let ghost ts = self.stream();
        let ghost start = self.place();
        let ghost earlier = self.reported();
        assert(stmt_views(statements@) =~= Seq::empty());
        assert(self.reported() =~= earlier + Seq::<SyntaxFailure>::empty());
        while !self.is_at_end()
            invariant
                self.wf(),
                self.tokens == old(self).tokens,
                ts == self.stream(),
                program(ts, start).statements == stmt_views(statements@) + program(
                    ts,
                    self.place(),
                ).statements,
                earlier + program(ts, start).failures == self.reported() + program(
                    ts,
                    self.place(),
                ).failures,
            decreases self.tokens.len() - self.current,
        {
            let ghost here = self.place();
            let ghost before = stmt_views(statements@);
            let ghost said = self.reported();
            proof {
                lemma_declaration_advances(ts, here);
                match declaration(ts, here) {
                    Declared::Failed(_, place) => {
                        lemma_boundary(ts, place + 1);
                    },
                    _ => {},
                }
            }
            let cur = self.declaration();
            match cur {
                Some(statement) => {
                    statements.push(statement);
                    proof {
                        let rest = program(ts, self.place());
                        assert(stmt_views(statements@) =~= before.push(statement@));
                        assert(before + (seq![statement@] + rest.statements) =~= before.push(
                            statement@,
                        ) + rest.statements);
                    }
                },
                None => {
                    proof {
                        let rest = program(ts, self.place());
                        let failure = self.reported().last();
                        assert(said + (seq![failure] + rest.failures) =~= said.push(failure)
                            + rest.failures);
                    }
                },
            }
        }
        statements
    }

    /// A parser at the start of `tokens`, with nothing reported.
    pub fn new(tokens: Vec<Token>) -> (r: Self)
        ensures
            r.wf(),
            r.stream() == token_views(tokens@),
            r.place() == 0,
            r.reported() == Seq::<SyntaxFailure>::empty(),
    {
        Parser { tokens, current: 0, failures: Vec::new() }
    }

    /// The failures reported so far, in order.
    pub fn failures(&self) -> (r: &Vec<SyntaxFailure>)
        ensures
            r@ == self.reported(),
    {
        &self.failures
    }

    /// Ends the parser and hands out the failures it reported, in order.
    pub fn into_failures(self) -> (r: Vec<SyntaxFailure>)
        ensures
            r@ == self.reported(),
    {
        self.failures
    }

    /// Parses one declaration.  One that does not follow the grammar is
    /// reported, and the parser moves on to the next statement boundary.
    fn declaration(&mut self) -> (r: Option<Stmt>)
        requires
            old(self).wf(),
        ensures
            final(self).wf(),
            final(self).tokens == old(self).tokens,
            match declaration(old(self).stream(), old(self).place()) {
                Declared::Stmt(s, next) => {
                    &&& r matches Some(x)
                    &&& x@ == s
                    &&& final(self).place() == next
                    &&& final(self).failures == old(self).failures
                },
                Declared::Failed(failure, place) => {
                    &&& r is None
                    &&& final(self).place() == synchronize(old(self).stream(), place)
                    &&& final(self).reported() == old(self).reported().push(failure)
                },
            },
    {
        let res = if self.matching(&vec![TokenType::VAR]) {
            self.var_declaration()
        } else {
            self.statement()
        };
        match res {
            Ok(statement) => Some(statement),
            Err(failure) => {
                self.failures.push(failure);
                self.synchronize();
                None
            },
        }
    }

    fn var_declaration(&mut self) -> (r: Result<Stmt, SyntaxFailure>)
        requires
            old(self).wf(),
        ensures
            final(self).moved_from(old(self)),
            agrees_on_statement(
                r,
                final(self).place(),
                var_declaration(old(self).stream(), old(self).place()),
            ),
    {
        let name = match self.consume(TokenType::IDENTIFIER, Expectation::VarName) {
            Ok(name) => name,
            Err(failure) => {
                return Err(failure);
            },
        };
        if !self.matching(&vec![TokenType::EQUAL]) {
            return Err(SyntaxFailure { line: self.line(), kind: Expectation::Equal });
        }
        let init = match self.expression() {
            Ok(init) => init,
            Err(failure) => {
                return Err(failure);
            },
        };
        match self.consume(TokenType::SEMICOLON, Expectation::SemicolonAfterDeclaration) {
            Ok(_) => {},
            Err(failure) => {
                return Err(failure);
            },
        }
        Ok(Stmt::Dec(Dec::new(name, Box::new(init))))
    }

    fn statement(&mut self) -> (r: Result<Stmt, SyntaxFailure>)
        requires
            old(self).wf(),
        ensures
            final(self).moved_from(old(self)),
            agrees_on_statement(
                r,
                final(self).place(),
                statement(old(self).stream(), old(self).place()),
            ),
    {
        if self.matching(&vec![TokenType::PRINT]) {
            return self.print_statement();
        }
        self.expression_stmt()
    }

    fn expression(&mut self) -> (r: Result<Expr, SyntaxFailure>)
        requires
            old(self).wf(),
        ensures
            final(self).moved_from(old(self)),
            agrees(r, final(self).place(), expression(old(self).stream(), old(self).place())),
        decreases old(self).tokens.len() - old(self).current, 12nat,
    {
        return self.equality();
    }

    fn equality(&mut self) -> (r: Result<Expr, SyntaxFailure>)
        requires
            old(self).wf(),
        ensures
            final(self).moved_from(old(self)),
            agrees(r, final(self).place(), chain(old(self).stream(), old(self).place(), 4)),
        decreases old(self).tokens.len() - old(self).current, 11nat,
    {
        let ghost ts = self.stream();
        let ghost start = self.place();
        proof {
            lemma_chain_advances(ts, start, 4);
            lemma_operand_advances(ts, start, 4);
        }
        let mut expr = match self.comparison() {
            Ok(val) => val,
            Err(failure) => {
                return Err(failure);
            },
        };
        let token_types = vec![TokenType::BANG_EQUAL, TokenType::EQUAL_EQUAL];
        proof {
            assert(token_types@[0] == TokenType::BANG_EQUAL);
            assert(token_types@[1] == TokenType::EQUAL_EQUAL);
        }
        loop
            invariant
                self.moved_from(old(self)),
                ts == self.stream(),
                start == old(self).place(),
                start < self.place(),
                chain(ts, start, 4) == chain_rest(ts, expr@, self.place(), 4),
                forall|kind: TokenType| token_types@.contains(kind) <==> is_operator(4, kind),
            ensures
                agrees(Ok::<Expr, SyntaxFailure>(expr), self.place(), chain(ts, start, 4)),
            decreases self.tokens.len() - self.current,
        {
            proof {
                lemma_chain_rest_advances(ts, expr@, self.place(), 4);
                if self.place() < ts.len() {
                    lemma_operand_advances(ts, self.place() + 1, 4);
                }
            }
            if !self.matching(&token_types) {
                break ;
            }
            let operator = self.previous();
            let right = match self.comparison() {
                Ok(val) => val,
                Err(failure) => {
                    return Err(failure);
                },
            };
            expr = Expr::Binary(Binary::new(Box::new(expr), operator, Box::new(right)));
        }
        Ok(expr)
    }

    /// Moves over the token at the current place where its category is one
    /// of `types`.
    fn matching(&mut self, types: &Vec<TokenType>) -> (r: bool)
        requires
            old(self).wf(),
        ensures
            final(self).moved_from(old(self)),
            r == (types@.contains(kind_at(old(self).stream(), old(self).place())) && kind_at(
                old(self).stream(),
                old(self).place(),
            ) != TokenType::EOF),
            final(self).place() == if r {
                old(self).place() + 1
            } else {
                old(self).place()
            },
    {
        let mut i: usize = 0;
        while i < types.len()
            invariant
                *self == *old(self),
                self.wf(),
                i <= types.len(),
                forall|j: int|
                    0 <= j < i ==> !(types@[j] == kind_at(self.stream(), self.place()) && types@[j]
                        != TokenType::EOF),
            decreases types.len() - i,
        {
            if self.check(types[i]) {
                self.advance();
                return true;
            }
            i += 1;
        }
        false
    }

    fn comparison(&mut self) -> (r: Result<Expr, SyntaxFailure>)
        requires
            old(self).wf(),
        ensures
            final(self).moved_from(old(self)),
            agrees(r, final(self).place(), chain(old(self).stream(), old(self).place(), 3)),
        decreases old(self).tokens.len() - old(self).current, 9nat,
    {
        let ghost ts = self.stream();
        let ghost start = self.place();
        proof {
            lemma_chain_advances(ts, start, 3);
            lemma_operand_advances(ts, start, 3);
        }
        let mut expr = match self.term() {
            Ok(val) => val,
            Err(failure) => {
                return Err(failure);
            },
        };
        let token_types = vec![
            TokenType::GREATER,
            TokenType::GREATER_EQUAL,
            TokenType::LESS,
            TokenType::LESS_EQUAL,
        ];
        proof {
            assert(token_types@[0] == TokenType::GREATER);
            assert(token_types@[1] == TokenType::GREATER_EQUAL);
            assert(token_types@[2] == TokenType::LESS);
            assert(token_types@[3] == TokenType::LESS_EQUAL);
        }
        loop
            invariant
                self.moved_from(old(self)),
                ts == self.stream(),
                start == old(self).place(),
                start < self.place(),
                chain(ts, start, 3) == chain_rest(ts, expr@, self.place(), 3),
                forall|kind: TokenType| token_types@.contains(kind) <==> is_operator(3, kind),
            ensures
                agrees(Ok::<Expr, SyntaxFailure>(expr), self.place(), chain(ts, start, 3)),
            decreases self.tokens.len() - self.current,
        {
            proof {
                lemma_chain_rest_advances(ts, expr@, self.place(), 3);
                if self.place() < ts.len() {
                    lemma_operand_advances(ts, self.place() + 1, 3);
                }
            }
            if !self.matching(&token_types) {
                break ;
            }
            let operator = self.previous();
            let right = match self.term() {
                Ok(val) => val,
                Err(failure) => {
                    return Err(failure);
                },
            };
            expr = Expr::Binary(Binary::new(Box::new(expr), operator, Box::new(right)));
        }
        Ok(expr)
    }

    /// Whether the token at the current place is of category `t`.
    fn check(&self, t: TokenType) -> (r: bool)
        requires
            self.wf(),
        ensures
            r == (kind_at(self.stream(), self.place()) == t && t != TokenType::EOF),
    {
        if self.is_at_end() {
            return false;
        }
        self.peek().variant == t
    }

    /// Moves over the token at the current place, unless it ends the
    /// tokens.
    fn advance(&mut self)
        requires
            old(self).wf(),
        ensures
            final(self).moved_from(old(self)),
            final(self).place() == if kind_at(old(self).stream(), old(self).place())
                == TokenType::EOF {
                old(self).place()
            } else {
                old(self).place() + 1
            },
    {
        if !self.is_at_end() {
            self.current += 1;
        }
    }

    fn is_at_end(&self) -> (r: bool)
        requires
            self.wf(),
        ensures
            r == (kind_at(self.stream(), self.place()) == TokenType::EOF),
    {
        self.current >= self.tokens.len() || self.peek().variant == TokenType::EOF
    }

    /// The token at the current place.
    fn peek(&self) -> (r: &Token)
        requires
            self.current < self.tokens.len(),
        ensures
            r@ == self.stream()[self.place()],
    {
        &self.tokens[self.current]
    }

    /// A copy of the token before the current place.
    fn previous(&self) -> (r: Token)
        requires
            0 < self.current <= self.tokens.len(),
        ensures
            r@ == self.stream()[self.place() - 1],
    {
        self.tokens[self.current - 1].duplicate()
    }

    /// The line of the token at the current place.
    fn line(&self) -> (r: u32)
        requires
            self.wf(),
        ensures
            r == line_at(self.stream(), self.place()),
    {
        if self.current < self.tokens.len() {
            self.tokens[self.current].line
        } else if self.tokens.len() > 0 {
            self.tokens[self.tokens.len() - 1].line
        } else {
            1
        }
    }

    fn term(&mut self) -> (r: Result<Expr, SyntaxFailure>)
        requires
            old(self).wf(),
        ensures
            final(self).moved_from(old(self)),
            agrees(r, final(self).place(), chain(old(self).stream(), old(self).place(), 2)),
        decreases old(self).tokens.len() - old(self).current, 7nat,
    {
        let ghost ts = self.stream();
        let ghost start = self.place();
        proof {
            lemma_chain_advances(ts, start, 2);
            lemma_operand_advances(ts, start, 2);
        }
        let mut expr = match self.factor() {
            Ok(val) => val,
            Err(failure) => {
                return Err(failure);
            },
        };
        let token_types = vec![TokenType::MINUS, TokenType::PLUS];
        proof {
            assert(token_types@[0] == TokenType::MINUS);
            assert(token_types@[1] == TokenType::PLUS);
        }
        loop
            invariant
                self.moved_from(old(self)),
                ts == self.stream(),
                start == old(self).place(),
                start < self.place(),
                chain(ts, start, 2) == chain_rest(ts, expr@, self.place(), 2),
                forall|kind: TokenType| token_types@.contains(kind) <==> is_operator(2, kind),
            ensures
                agrees(Ok::<Expr, SyntaxFailure>(expr), self.place(), chain(ts, start, 2)),
            decreases self.tokens.len() - self.current,
        {
            proof {
                lemma_chain_rest_advances(ts, expr@, self.place(), 2);
                if self.place() < ts.len() {
                    lemma_operand_advances(ts, self.place() + 1, 2);
                }
            }
            if !self.matching(&token_types) {
                break ;
            }
            let operator = self.previous();
            let right = match self.factor() {
                Ok(val) => val,
                Err(failure) => {
                    return Err(failure);
                },
            };
            expr = Expr::Binary(Binary::new(Box::new(expr), operator, Box::new(right)));
        }
        Ok(expr)
    }

    fn factor(&mut self) -> (r: Result<Expr, SyntaxFailure>)
        requires
            old(self).wf(),
        ensures
            final(self).moved_from(old(self)),
            agrees(r, final(self).place(), chain(old(self).stream(), old(self).place(), 1)),
        decreases old(self).tokens.len() - old(self).current, 5nat,
    {
        let ghost ts = self.stream();
        let ghost start = self.place();
        proof {
            lemma_chain_advances(ts, start, 1);
            lemma_operand_advances(ts, start, 1);
        }
        let mut expr = match self.unary() {
            Ok(val) => val,
            Err(failure) => {
                return Err(failure);
            },
        };
        let token_types = vec![TokenType::SLASH, TokenType::STAR];
        proof {
            assert(token_types@[0] == TokenType::SLASH);
            assert(token_types@[1] == TokenType::STAR);
        }
        loop
            invariant
                self.moved_from(old(self)),
                ts == self.stream(),
                start == old(self).place(),
                start < self.place(),
                chain(ts, start, 1) == chain_rest(ts, expr@, self.place(), 1),
                forall|kind: TokenType| token_types@.contains(kind) <==> is_operator(1, kind),
            ensures
                agrees(Ok::<Expr, SyntaxFailure>(expr), self.place(), chain(ts, start, 1)),
            decreases self.tokens.len() - self.current,
        {
            proof {
                lemma_chain_rest_advances(ts, expr@, self.place(), 1);
                if self.place() < ts.len() {
                    lemma_operand_advances(ts, self.place() + 1, 1);
                }
            }
            if !self.matching(&token_types) {
                break ;
            }
            let operator = self.previous();
            let right = match self.unary() {
                Ok(val) => val,
                Err(failure) => {
                    return Err(failure);
                },
            };
            expr = Expr::Binary(Binary::new(Box::new(expr), operator, Box::new(right)));
        }
        Ok(expr)
    }

    fn unary(&mut self) -> (r: Result<Expr, SyntaxFailure>)
        requires
            old(self).wf(),
        ensures
            final(self).moved_from(old(self)),
            agrees(r, final(self).place(), unary(old(self).stream(), old(self).place())),
        decreases old(self).tokens.len() - old(self).current, 1nat,
    {
        let token_types = vec![TokenType::BANG, TokenType::MINUS];
        proof {
            assert(token_types@[0] == TokenType::BANG);
            assert(token_types@[1] == TokenType::MINUS);
        }
        if self.matching(&token_types) {
            let operator = self.previous();
            return match self.unary() {
                Ok(right) => Ok(Expr::Unary(Unary::new(operator, Box::new(right)))),
                Err(failure) => Err(failure),
            };
        }
        self.primary()
    }

    fn primary(&mut self) -> (r: Result<Expr, SyntaxFailure>)
        requires
            old(self).wf(),
        ensures
            final(self).moved_from(old(self)),
            agrees(r, final(self).place(), primary(old(self).stream(), old(self).place())),
        decreases old(self).tokens.len() - old(self).current, 0nat,
    {
        if self.matching(&vec![TokenType::FALSE]) {
            return Ok(Expr::Literal(Literal::new(self.previous(), Value::Bool(false))));
        }
        if self.matching(&vec![TokenType::TRUE]) {
            return Ok(Expr::Literal(Literal::new(self.previous(), Value::Bool(true))));
        }
        if self.matching(&vec![TokenType::NIL]) {
            return Ok(Expr::Literal(Literal::new(self.previous(), Value::Nil)));
        }
        if self.check(TokenType::NUMBER) {
            let val = match self.peek().number {
                Some(bits) => bits,
                None => {
                    return Err(
                        SyntaxFailure { line: self.line(), kind: Expectation::LiteralValue },
                    );
                },
            };
            self.advance();
            return Ok(Expr::Literal(Literal::new(self.previous(), Value::Int(val))));
        }
        if self.check(TokenType::STRING) {
            let s = match &self.peek().string {
                Some(s) => s.clone(),
                None => {
                    return Err(
                        SyntaxFailure { line: self.line(), kind: Expectation::LiteralValue },
                    );
                },
            };
            self.advance();
            return Ok(Expr::Literal(Literal::new(self.previous(), Value::S(s))));
        }
        if self.matching(&vec![TokenType::LEFT_PAREN]) {
            let expr = match self.expression() {
                Ok(val) => val,
                Err(failure) => {
                    return Err(failure);
                },
            };
            match self.consume(TokenType::RIGHT_PAREN, Expectation::RightParen) {
                Ok(_) => {},
                Err(failure) => {
                    return Err(failure);
                },
            }
            return Ok(Expr::Grouping(Grouping::new(Box::new(expr))));
        }
        Err(SyntaxFailure { line: self.line(), kind: Expectation::Expression })
    }

    fn print_statement(&mut self) -> (r: Result<Stmt, SyntaxFailure>)
        requires
            old(self).wf(),
        ensures
            final(self).moved_from(old(self)),
            agrees_on_statement(
                r,
                final(self).place(),
                print_statement(old(self).stream(), old(self).place()),
            ),
    {
        let expr = match self.expression() {
            Ok(val) => val,
            Err(failure) => {
                return Err(failure);
            },
        };
        match self.consume(TokenType::SEMICOLON, Expectation::SemicolonAfterValue) {
            Ok(_) => {},
            Err(failure) => {
                return Err(failure);
            },
        }
        Ok(Stmt::Print(Print::new(Box::new(expr))))
    }

    fn expression_stmt(&mut self) -> (r: Result<Stmt, SyntaxFailure>)
        requires
            old(self).wf(),
        ensures
            final(self).moved_from(old(self)),
            agrees_on_statement(
                r,
                final(self).place(),
                expression_stmt(old(self).stream(), old(self).place()),
            ),
    {
        let expr = match self.expression() {
            Ok(val) => val,
            Err(failure) => {
                return Err(failure);
            },
        };
        match self.consume(TokenType::SEMICOLON, Expectation::SemicolonAfterExpression) {
            Ok(_) => {},
            Err(failure) => {
                return Err(failure);
            },
        }
        Ok(Stmt::ExprStmt(ExprStmt::new(Box::new(expr))))
    }

    /// Moves over the token at the current place where it is of category
    /// `variant`, and gives up where it is not.
    fn consume(&mut self, variant: TokenType, missing: Expectation) -> (r: Result<
        Token,
        SyntaxFailure,
    >)
        requires
            old(self).wf(),
            variant != TokenType::EOF,
        ensures
            final(self).moved_from(old(self)),
            match r {
                Ok(token) => {
                    &&& kind_at(old(self).stream(), old(self).place()) == variant
                    &&& token@ == old(self).stream()[old(self).place()]
                    &&& final(self).place() == old(self).place() + 1
                },
                Err(failure) => {
                    &&& kind_at(old(self).stream(), old(self).place()) != variant
                    &&& failure == SyntaxFailure {
                        line: line_at(old(self).stream(), old(self).place()),
                        kind: missing,
                    }
                    &&& final(self).place() == old(self).place()
                },
            },
    {
        if self.check(variant) {
            self.advance();
            return Ok(self.previous());
        }
        Err(SyntaxFailure { line: self.line(), kind: missing })
    }

    /// Moves on to where parsing goes on after a failure.
    fn synchronize(&mut self)
        requires
            old(self).wf(),
        ensures
            final(self).moved_from(old(self)),
            final(self).place() == synchronize(old(self).stream(), old(self).place()),
    {
        if self.is_at_end() {
            return ;
        }
        self.advance();
        while !self.is_at_end()
            invariant
                self.moved_from(old(self)),
                0 < self.current,
                kind_at(old(self).stream(), old(self).place()) != TokenType::EOF,
                boundary(self.stream(), self.place()) == boundary(
                    old(self).stream(),
                    old(self).place() + 1,
                ),
            decreases self.tokens.len() - self.current,
        {
            if self.tokens[self.current - 1].variant == TokenType::SEMICOLON {
                return ;
            }
            match self.peek().variant {
                TokenType::CLASS => {
                    return ;
                },
                TokenType::DEF => {
                    return ;
                },
                TokenType::VAR => {
                    return ;
                },
                TokenType::FOR => {
                    return ;
                },
                TokenType::IF => {
                    return ;
                },
                TokenType::WHILE => {
                    return ;
                },
                TokenType::PRINT => {
                    return ;
                },
                TokenType::RETURN => {
                    return ;
                },
                _ => {},
            }
            self.advance();
        }
    }
}

} // verus!
