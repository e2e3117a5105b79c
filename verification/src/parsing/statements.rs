//! Statements.

use crate::parsing::expressions::{expr_view, Expr, ExprView};
use crate::parsing::tokens::{Token, TokenView};
use vstd::prelude::*;

verus! {

/// `var name = expr ;`
#[derive(Debug)]
pub struct Dec {
    pub name: Token,
    pub expr: Box<Expr>,
}

/// `print expr ;`
#[derive(Debug)]
pub struct Print {
    pub expr: Box<Expr>,
}

/// `expr ;`
#[derive(Debug)]
pub struct ExprStmt {
    pub expr: Box<Expr>,
}

impl Dec {
    pub fn new(name: Token, expr: Box<Expr>) -> (r: Self)
        ensures
            r.name == name,
            r.expr == expr,
    {
        Dec { name, expr }
    }
}

impl Print {
    pub fn new(expr: Box<Expr>) -> (r: Self)
        ensures
            r.expr == expr,
    {
        Print { expr }
    }
}

impl ExprStmt {
    pub fn new(expr: Box<Expr>) -> (r: Self)
        ensures
            r.expr == expr,
    {
        ExprStmt { expr }
    }
}

/// A statement.
#[derive(Debug)]
pub enum Stmt {
    Dec(Dec),
    Print(Print),
    ExprStmt(ExprStmt),
}

/// A statement as a plain mathematical value.
pub enum StmtView {
    Dec(TokenView, ExprView),
    Print(ExprView),
    ExprStmt(ExprView),
}

impl View for Stmt {
    type V = StmtView;

    open spec fn view(&self) -> StmtView {
        match self {
            Stmt::Dec(d) => StmtView::Dec(d.name@, expr_view(*d.expr)),
            Stmt::Print(p) => StmtView::Print(expr_view(*p.expr)),
            Stmt::ExprStmt(s) => StmtView::ExprStmt(expr_view(*s.expr)),
        }
    }
}

/// The views of a sequence of statements, in order.
pub open spec fn stmt_views(stmts: Seq<Stmt>) -> Seq<StmtView> {
    Seq::new(stmts.len(), |i: int| stmts[i]@)
}

} // verus!
