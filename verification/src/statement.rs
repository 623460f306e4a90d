use crate::expr::Expr;
use crate::token::Token;
use std::rc::Rc;
use vstd::prelude::*;

verus! {

/// A statement node of the syntax tree, immutable once parsed.
///
/// Statements double as expressions in that executing one produces a value:
/// the value of the last statement a block ran, the branch an `if` took,
/// and so on.
#[derive(Debug)]
pub enum Stmt {
    Print { expr: Expr },
    Expr { expr: Expr },
    Var { name: String, value: Option<Expr> },
    Block { stmts: Vec<Stmt> },
    If { condition: Expr, then_body: Box<Stmt>, else_body: Option<Box<Stmt>> },
    While { condition: Expr, body: Box<Stmt> },
    Break { token: Token },
    Continue { token: Token },
    Function { params: Rc<Vec<String>>, body: Rc<Vec<Stmt>>, name: String, token: Token },
    Class { name: String, token: Token, members: Vec<Stmt>, superclass: Option<Expr> },
    Return { token: Token, value: Option<Expr> },
}

} // verus!
