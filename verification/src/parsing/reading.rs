//! What the parser reads: a statement that is parsed is written with the
//! very tokens that the parser moved over, and where nothing is reported
//! the statements are written with all tokens up to the first `EOF`.

use crate::parsing::expressions::ExprView;
use crate::parsing::parser::{
    chain, chain_rest, declaration, expression, is_operator, kind_at, lemma_chain_advances,
    lemma_chain_rest_advances, lemma_declaration_advances, lemma_operand_advances,
    lemma_parsed_advances, lemma_primary_advances, lemma_unary_advances, operand, primary,
    program, synchronize, unary, Declared, Parsed,
};
use crate::parsing::statements::StmtView;
use crate::parsing::tokens::{TokenType, TokenView};
use vstd::prelude::*;

verus! {

/// The categories of the tokens `ts`, in order.
pub open spec fn kinds(ts: Seq<TokenView>) -> Seq<TokenType> {
    Seq::new(ts.len(), |i: int| ts[i].variant)
}

/// The categories of the tokens that an expression is written with.
pub open spec fn kinds_of(e: ExprView) -> Seq<TokenType>
    decreases e,
{
    match e {
        ExprView::Binary(left, operator, right) => kinds_of(*left) + seq![operator.variant]
            + kinds_of(*right),
        ExprView::Grouping(inner) => seq![TokenType::LEFT_PAREN] + kinds_of(*inner) + seq![
            TokenType::RIGHT_PAREN,
        ],
        ExprView::Literal(l) => seq![l.token.variant],
        ExprView::Unary(operator, right) => seq![operator.variant] + kinds_of(*right),
    }
}

/// The categories of the tokens that a statement is written with.
pub open spec fn statement_kinds(s: StmtView) -> Seq<TokenType> {
    match s {
        StmtView::Dec(name, e) => seq![TokenType::VAR, name.variant, TokenType::EQUAL] + kinds_of(
            e,
        ) + seq![TokenType::SEMICOLON],
        StmtView::Print(e) => seq![TokenType::PRINT] + kinds_of(e) + seq![TokenType::SEMICOLON],
        StmtView::ExprStmt(e) => kinds_of(e) + seq![TokenType::SEMICOLON],
    }
}

/// The categories of the tokens that statements are written with, one
/// statement after the other.
pub open spec fn program_kinds(stmts: Seq<StmtView>) -> Seq<TokenType>
    decreases stmts.len(),
{
    if stmts.len() == 0 {
        Seq::empty()
    } else {
        statement_kinds(stmts[0]) + program_kinds(stmts.drop_first())
    }
}

/// Whether none of the tokens from `from` to `to` is an `EOF`.
pub open spec fn none_ends(ts: Seq<TokenView>, from: int, to: int) -> bool {
    forall|i: int| from <= i < to ==> #[trigger] kind_at(ts, i) != TokenType::EOF
}

/// Whether an expression that was parsed from `from` on is written with
/// the tokens from `from` to its end, none of which is an `EOF`.
pub open spec fn reads(parsed: Parsed, ts: Seq<TokenView>, from: int) -> bool {
    parsed matches Parsed::Node(e, next) ==> kinds_of(e) == kinds(ts).subrange(from, next)
        && none_ends(ts, from, next)
}

proof fn lemma_primary_reads(ts: Seq<TokenView>, at: int)
    requires
        0 <= at <= ts.len(),
    ensures
        reads(primary(ts, at), ts, at),
    decreases ts.len() - at, 0nat,
{
    lemma_primary_advances(ts, at);
    if kind_at(ts, at) == TokenType::LEFT_PAREN {
        lemma_chain_reads(ts, at + 1, 4);
        lemma_chain_advances(ts, at + 1, 4);
        match expression(ts, at + 1) {
            Parsed::Node(inner, next) => {
                if kind_at(ts, next) == TokenType::RIGHT_PAREN {
                    assert(seq![TokenType::LEFT_PAREN] + kinds(ts).subrange(at + 1, next) + seq![
                        TokenType::RIGHT_PAREN,
                    ] =~= kinds(ts).subrange(at, next + 1));
                }
            },
            _ => {},
        }
    } else {
        match primary(ts, at) {
            Parsed::Node(e, next) => {
                assert(kinds_of(e) =~= kinds(ts).subrange(at, next));
            },
            _ => {},
        }
    }
}

proof fn lemma_unary_reads(ts: Seq<TokenView>, at: int)
    requires
        0 <= at <= ts.len(),
    ensures
        reads(unary(ts, at), ts, at),
    decreases ts.len() - at, 1nat,
{
    let kind = kind_at(ts, at);
    if kind == TokenType::BANG || kind == TokenType::MINUS {
        lemma_unary_reads(ts, at + 1);
        lemma_unary_advances(ts, at + 1);
        match unary(ts, at + 1) {
            Parsed::Node(right, next) => {
                assert(seq![ts[at].variant] + kinds(ts).subrange(at + 1, next) =~= kinds(
                    ts,
                ).subrange(at, next));
            },
            _ => {},
        }
    } else {
        lemma_primary_reads(ts, at);
    }
}

proof fn lemma_operand_reads(ts: Seq<TokenView>, at: int, level: nat)
    requires
        0 <= at <= ts.len(),
    ensures
        reads(operand(ts, at, level), ts, at),
    decreases ts.len() - at, 2 * level + 2,
{
    if level <= 1 {
        lemma_unary_reads(ts, at);
    } else {
        lemma_chain_reads(ts, at, (level - 1) as nat);
    }
}

proof fn lemma_chain_reads(ts: Seq<TokenView>, at: int, level: nat)
    requires
        0 <= at <= ts.len(),
    ensures
        reads(chain(ts, at, level), ts, at),
    decreases ts.len() - at, 2 * level + 3,
{
    lemma_operand_reads(ts, at, level);
    lemma_operand_advances(ts, at, level);
    lemma_chain_advances(ts, at, level);
    match operand(ts, at, level) {
        Parsed::Node(left, next) => {
            lemma_chain_rest_reads(ts, left, at, next, level);
        },
        _ => {},
    }
}

proof fn lemma_chain_rest_reads(ts: Seq<TokenView>, left: ExprView, from: int, at: int, level: nat)
    requires
        0 <= from <= at <= ts.len(),
        kinds_of(left) == kinds(ts).subrange(from, at),
        none_ends(ts, from, at),
    ensures
        reads(chain_rest(ts, left, at, level), ts, from),
    decreases ts.len() - at, 2 * level + 2,
{
    lemma_chain_rest_advances(ts, left, at, level);
    if is_operator(level, kind_at(ts, at)) {
        lemma_operand_reads(ts, at + 1, level);
        lemma_operand_advances(ts, at + 1, level);
        match operand(ts, at + 1, level) {
            Parsed::Node(right, next) => {
                let joined = ExprView::Binary(Box::new(left), ts[at], Box::new(right));
                assert(kinds_of(joined) =~= kinds(ts).subrange(from, next)) by {
                    assert(kinds(ts).subrange(from, at) + seq![ts[at].variant] + kinds(
                        ts,
                    ).subrange(at + 1, next) =~= kinds(ts).subrange(from, next));
                }
                lemma_chain_rest_reads(ts, joined, from, next, level);
            },
            _ => {},
        }
    }
}

/// An expression that is parsed is written with the tokens from the place
/// at which it starts to the place at which it ends.
pub proof fn lemma_expression_reads(ts: Seq<TokenView>, at: int)
    requires
        0 <= at <= ts.len(),
    ensures
        reads(expression(ts, at), ts, at),
{
    lemma_chain_reads(ts, at, 4);
}

/// A statement that is parsed is written with the tokens from the place at
/// which it starts to the place at which it ends.
pub proof fn lemma_declaration_reads(ts: Seq<TokenView>, at: int)
    requires
        0 <= at <= ts.len(),
    ensures
        declaration(ts, at) matches Declared::Stmt(s, next) ==> statement_kinds(s) == kinds(
            ts,
        ).subrange(at, next) && none_ends(ts, at, next),
{
    lemma_declaration_advances(ts, at);
    match declaration(ts, at) {
        Declared::Stmt(s, next) => {
            if kind_at(ts, at) == TokenType::VAR {
                lemma_expression_reads(ts, at + 3);
                lemma_parsed_advances(ts, at + 3);
                let inner = expression(ts, at + 3)->Node_1;
                assert(seq![TokenType::VAR, ts[at + 1].variant, TokenType::EQUAL] + kinds(
                    ts,
                ).subrange(at + 3, inner) + seq![TokenType::SEMICOLON] =~= kinds(ts).subrange(
                    at,
                    next,
                ));
            } else if kind_at(ts, at) == TokenType::PRINT {
                lemma_expression_reads(ts, at + 1);
                lemma_parsed_advances(ts, at + 1);
                let inner = expression(ts, at + 1)->Node_1;
                assert(seq![TokenType::PRINT] + kinds(ts).subrange(at + 1, inner) + seq![
                    TokenType::SEMICOLON,
                ] =~= kinds(ts).subrange(at, next));
            } else {
                lemma_expression_reads(ts, at);
                lemma_parsed_advances(ts, at);
                let inner = expression(ts, at)->Node_1;
                assert(kinds(ts).subrange(at, inner) + seq![TokenType::SEMICOLON] =~= kinds(
                    ts,
                ).subrange(at, next));
            }
        },
        _ => {},
    }
}

/// The place at which parsing from `at` on ends.
pub open spec fn program_end(ts: Seq<TokenView>, at: int) -> int
    decreases ts.len() - at,
    via program_end_decreases
{
    if kind_at(ts, at) == TokenType::EOF {
        at
    } else {
        match declaration(ts, at) {
            Declared::Stmt(_, next) => program_end(ts, next),
            Declared::Failed(_, place) => program_end(ts, synchronize(ts, place)),
        }
    }
}

#[via_fn]
proof fn program_end_decreases(ts: Seq<TokenView>, at: int) {
    if kind_at(ts, at) != TokenType::EOF {
        lemma_declaration_advances(ts, at);
        match declaration(ts, at) {
            Declared::Failed(_, place) => {
                crate::parsing::parser::lemma_boundary(ts, place + 1);
            },
            _ => {},
        }
    }
}

/// Where parsing reports nothing, the statements are written with all the
/// tokens from the place at which parsing starts to the place at which it
/// ends, and that is the first `EOF`, or the end of the tokens where they
/// hold none: no token is passed over.
pub proof fn lemma_program_reads(ts: Seq<TokenView>, at: int)
    requires
        0 <= at <= ts.len(),
        program(ts, at).failures.len() == 0,
    ensures
        at <= program_end(ts, at) <= ts.len(),
        kind_at(ts, program_end(ts, at)) == TokenType::EOF,
        none_ends(ts, at, program_end(ts, at)),
        program_kinds(program(ts, at).statements) == kinds(ts).subrange(at, program_end(ts, at)),
    decreases ts.len() - at,
{
    if kind_at(ts, at) == TokenType::EOF {
        assert(program_kinds(program(ts, at).statements) =~= kinds(ts).subrange(at, at));
    } else {
        lemma_declaration_advances(ts, at);
        lemma_declaration_reads(ts, at);
        match declaration(ts, at) {
            Declared::Stmt(s, next) => {
                let rest = program(ts, next);
                assert(program(ts, at).failures == rest.failures);
                lemma_program_reads(ts, next);
                let all = program(ts, at).statements;
                assert(all == seq![s] + rest.statements);
                assert(all.drop_first() =~= rest.statements);
                assert(all[0] == s);
                assert(kinds(ts).subrange(at, next) + kinds(ts).subrange(
                    next,
                    program_end(ts, next),
                ) =~= kinds(ts).subrange(at, program_end(ts, at)));
            },
            Declared::Failed(failure, place) => {
                let rest = program(ts, synchronize(ts, place));
                assert(program(ts, at).failures == seq![failure] + rest.failures);
                assert(program(ts, at).failures.len() > 0);
            },
        }
    }
}

} // verus!
