//! Statement trees.
use vstd::prelude::*;
use crate::expression::Expr;
use crate::token::Token;

verus! {

/// A statement node. A program is a sequence of statements run in order.
#[derive(Debug)]
pub enum Stmt {
    Print(Expr),
    Expression(Expr),
    Var(Token, Option<Expr>),
    Block(Vec<Stmt>),
    If(Expr, Box<Stmt>, Box<Option<Stmt>>),
    While(Expr, Box<Stmt>),
}

/// The result of a statement, which produces no value.
pub struct Void;

/// The mathematical model of a statement: a block holds a sequence.
pub enum StmtView {
    Print(Expr),
    Expression(Expr),
    Var(Token, Option<Expr>),
    Block(Seq<StmtView>),
    If(Expr, Box<StmtView>, Option<Box<StmtView>>),
    While(Expr, Box<StmtView>),
}

/// The model of a statement.
pub open spec fn stmt_view(s: Stmt) -> StmtView
    decreases s,
{
    match s {
        Stmt::Print(e) => StmtView::Print(e),
        Stmt::Expression(e) => StmtView::Expression(e),
        Stmt::Var(t, init) => StmtView::Var(t, init),
        Stmt::Block(v) => StmtView::Block(Seq::new(v@.len(), |i: int|
            if 0 <= i < v@.len() { stmt_view(v@[i]) } else { StmtView::Block(Seq::empty()) })),
        Stmt::If(c, t, e) => StmtView::If(c, Box::new(stmt_view(*t)), match *e {
            Some(s) => Some(Box::new(stmt_view(s))),
            None => None,
        }),
        Stmt::While(c, b) => StmtView::While(c, Box::new(stmt_view(*b))),
    }
}

} // verus!
