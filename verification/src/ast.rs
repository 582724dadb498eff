//! The abstract syntax tree the parser hands to the core: two mutually
//! referencing node families, expressions and statements, immutable once
//! built.
//!
//! Every variable reference and assignment node carries a numeric
//! identity, `id`, unique per node as built by the parser; the resolver's
//! binding table is keyed by it.

use vstd::prelude::*;

use crate::token::Token;
use crate::value::Object;

verus! {

/// An expression node.
pub enum Expr {
    Literal { value: Object },
    Grouping { expression: Box<Expr> },
    Unary { operator: Token, right: Box<Expr> },
    Binary { left: Box<Expr>, operator: Token, right: Box<Expr> },
    Logical { left: Box<Expr>, operator: Token, right: Box<Expr> },
    Variable { name: Token, id: u64 },
    Assign { name: Token, id: u64, value: Box<Expr> },
    Call { callee: Box<Expr>, paren: Token, arguments: Vec<Expr> },
}

/// A statement node.
pub enum Stmt {
    Expression { expression: Expr },
    Print { expression: Expr },
    Var { name: Token, initializer: Option<Expr> },
    Block { statements: Vec<Stmt> },
    If { condition: Expr, then_branch: Box<Stmt>, else_branch: Option<Box<Stmt>> },
    While { condition: Expr, body: Box<Stmt> },
    Function { name: Token, params: std::rc::Rc<Vec<Token>>, body: std::rc::Rc<Vec<Stmt>> },
    Return { keyword: Token, value: Option<Expr> },
}

/// Structural size of an expression; the termination measure for walks
/// over the tree. Literal values count as leaves: a function value inside
/// a literal is only ever entered through a call, which spends fuel.
pub open spec fn expr_size(e: Expr) -> nat
    decreases e,
{
    match e {
        Expr::Literal { .. } => 1,
        Expr::Grouping { expression } => 1 + expr_size(*expression),
        Expr::Unary { right, .. } => 1 + expr_size(*right),
        Expr::Binary { left, right, .. } => 1 + expr_size(*left) + expr_size(*right),
        Expr::Logical { left, right, .. } => 1 + expr_size(*left) + expr_size(*right),
        Expr::Variable { .. } => 1,
        Expr::Assign { value, .. } => 1 + expr_size(*value),
        Expr::Call { callee, arguments, .. } => 1 + expr_size(*callee) + exprs_size(arguments@),
    }
}

/// Structural size of a sequence of expressions.
pub open spec fn exprs_size(es: Seq<Expr>) -> nat
    decreases es,
{
    if es.len() == 0 {
        0
    } else {
        1 + expr_size(es[0]) + exprs_size(es.drop_first())
    }
}

/// Structural size of a statement.
pub open spec fn stmt_size(s: Stmt) -> nat
    decreases s,
{
    match s {
        Stmt::Expression { expression } => 1 + expr_size(expression),
        Stmt::Print { expression } => 1 + expr_size(expression),
        Stmt::Var { initializer, .. } => 1 + match initializer {
            Some(e) => expr_size(e),
            None => 0,
        },
        Stmt::Block { statements } => 1 + stmts_size(statements@),
        Stmt::If { condition, then_branch, else_branch } => 1 + expr_size(condition) + stmt_size(
            *then_branch,
        ) + match else_branch {
            Some(s2) => stmt_size(*s2),
            None => 0,
        },
        Stmt::While { condition, body } => 1 + expr_size(condition) + stmt_size(*body),
        Stmt::Function { params, body, .. } => 1 + params@.len() + stmts_size(body@),
        Stmt::Return { value, .. } => 1 + match value {
            Some(e) => expr_size(e),
            None => 0,
        },
    }
}

/// Structural size of a sequence of statements.
pub open spec fn stmts_size(ss: Seq<Stmt>) -> nat
    decreases ss,
{
    if ss.len() == 0 {
        0
    } else {
        1 + stmt_size(ss[0]) + stmts_size(ss.drop_first())
    }
}

} // verus!
