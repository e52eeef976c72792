//! The source-level language: expressions, statements and blocks.
use vstd::prelude::*;

verus! {

#[derive(Debug)]
pub enum Expr {
    Variable(String),
    Lit(i32),
    Invoke(Box<Expr>, Vec<Expr>),
    Lambda(Vec<String>, Block),
    /// Constructor name, the memory it reuses (if any), fields.
    Constructor(String, Option<Box<Expr>>, Vec<Expr>),
    /// Condition, then-block, optional else-block.
    If(Box<Expr>, Block, Option<Block>),
}

#[derive(Debug)]
pub enum Stmt {
    Expr(Expr),
    Dup(Expr),
    Drop(Expr),
    Assign(String, Expr),
}

#[derive(Debug)]
pub struct Block(pub Vec<Stmt>);

pub struct Function {
    pub name: String,
    pub args: Vec<String>,
    pub body: Block,
}

/// The block that evaluates `a`, then `b`.
pub fn merge_to_blocks(a: Expr, b: Expr) -> (r: Block)
    ensures
        r.0@ == seq![Stmt::Expr(a), Stmt::Expr(b)],
{
    let r = Block(vec![Stmt::Expr(a), Stmt::Expr(b)]);
    assert(r.0@ =~= seq![Stmt::Expr(a), Stmt::Expr(b)]);
    r
}

} // verus!
