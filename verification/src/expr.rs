use crate::statement::Stmt;
use crate::token::{Literal, Token};
use std::rc::Rc;
use vstd::prelude::*;

verus! {

/// A binary operator. Each operator accepts a fixed table of operand types;
/// see the evaluator for the table.
#[derive(Clone, Copy, Debug, PartialEq, Eq, Structural)]
pub enum BinOp {
    Plus,
    Minus,
    Star,
    Divide,
    Modulo,
    BangEquals,
    Compare,
    Less,
    LessEquals,
    Greater,
    GreaterEquals,
}

/// A unary operator: arithmetic negation or boolean negation.
#[derive(Clone, Copy, Debug, PartialEq, Eq, Structural)]
pub enum UnaryOp {
    Minus,
    Bang,
}

/// A logical connective. Both operands are always evaluated; see the
/// evaluator for the exact result rule.
#[derive(Clone, Copy, Debug, PartialEq, Eq, Structural)]
pub enum LogicalOp {
    And,
    Or,
}

/// An expression node of the syntax tree, immutable once parsed.
///
/// Every node that refers to a binding by name (`Var`, `Assign`, `This`,
/// `Super`) carries the `Token` that identifies its reference site.
#[derive(Debug)]
pub enum Expr {
    Binary { left: Box<Expr>, op: BinOp, right: Box<Expr>, token: Token },
    Literal { value: Literal },
    Unary { op: UnaryOp, expr: Box<Expr>, token: Token },
    Grouping { expr: Box<Expr> },
    Var { name: String, token: Token },
    Assign { name: String, expr: Box<Expr>, token: Token },
    Logical { left: Box<Expr>, op: LogicalOp, right: Box<Expr>, token: Token },
    Call { callee: Box<Expr>, token: Token, arguments: Vec<Expr> },
    Closure { params: Rc<Vec<String>>, body: Rc<Vec<Stmt>>, name: String, token: Token },
    Get { name: String, token: Token, expr: Box<Expr> },
    SetProp { name: String, token: Token, value: Box<Expr>, obj: Box<Expr> },
    This { token: Token },
    Super { token: Token, method_name: String },
}

} // verus!
