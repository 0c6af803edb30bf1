//! Syntax trees of MiniLang programs.

use vstd::prelude::*;

verus! {

/// A binary operator.
#[derive(Debug, Clone, Copy, PartialEq, Eq, Structural)]
pub enum BinaryOp {
    Add,
    Sub,
    Mul,
    Div,
    Eq,
    Ne,
    Lt,
    Gt,
    Le,
    Ge,
    And,
    Or,
}

/// A unary operator.
#[derive(Debug, Clone, Copy, PartialEq, Eq, Structural)]
pub enum UnaryOp {
    Neg,
    Not,
}

/// An expression.
#[allow(inconsistent_fields)]
#[derive(Debug)]
pub enum Expr {
    IntLiteral { value: i32 },
    BoolLiteral { value: bool },
    Identifier { name: String },
    Binary { op: BinaryOp, left: Box<Expr>, right: Box<Expr> },
    Unary { op: UnaryOp, operand: Box<Expr> },
    Call { name: String, args: Vec<Expr> },
    ArrayIndex { array_name: String, index: Box<Expr> },
}

/// A statement.
#[derive(Debug)]
pub enum Stmt {
    VarDecl { name: String, init_expr: Option<Expr>, array_size: Option<u32> },
    Assign { target: String, index_expr: Option<Expr>, value: Expr },
    If { condition: Expr, then_body: Vec<Stmt>, else_body: Option<Vec<Stmt>> },
    While { condition: Expr, body: Vec<Stmt> },
    Return { value: Expr },
    Print { value: Expr },
    ExprStmt { expr: Expr },
}

/// A parameter of a function.
#[derive(Debug)]
pub struct Param {
    pub name: String,
}

/// A function definition.
#[derive(Debug)]
pub struct Function {
    pub name: String,
    pub params: Vec<Param>,
    pub body: Vec<Stmt>,
}

/// A global variable: an array where `array_size` is given, a scalar otherwise.
#[derive(Debug)]
pub struct GlobalVar {
    pub name: String,
    pub init_expr: Option<Expr>,
    pub array_size: Option<u32>,
}

/// A program: its globals and its functions, in source order.
#[derive(Debug)]
pub struct Program {
    pub globals: Vec<GlobalVar>,
    pub functions: Vec<Function>,
}

} // verus!
