//! The parsed program, as the checking stage reads it: expressions and statements.
use vstd::prelude::*;
use crate::ops::{BinOp, CmpOp, LogicalOp};
use crate::ty::Type;
use crate::typed::Span;

verus! {

/// An expression.
pub struct Expr {
    pub kind: ExprKind,
    /// Where the expression was written.
    pub span: Span,
}

/// The forms an expression takes.
#[allow(inconsistent_fields)]
pub enum ExprKind {
    IntLit(i64),
    /// A decimal literal: `unscaled × 10^-scale`.
    DecimalLit { unscaled: i64, scale: u32 },
    BoolLit(bool),
    StrLit(String),
    Var(String),
    Neg(Box<Expr>),
    Not(Box<Expr>),
    /// `e?`: the success payload, or return the failure.
    Try(Box<Expr>),
    Logical { op: LogicalOp, lhs: Box<Expr>, rhs: Box<Expr> },
    Binary { op: BinOp, lhs: Box<Expr>, rhs: Box<Expr> },
    Compare { op: CmpOp, lhs: Box<Expr>, rhs: Box<Expr> },
    Call { name: String, arguments: Vec<Expr> },
    MethodCall { base: Box<Expr>, method: String, arguments: Vec<Expr> },
    StructLit { name: String, fields: Vec<(String, Expr)> },
    Field { base: Box<Expr>, field: String },
    ArrayLit(Vec<Expr>),
    TupleLit(Vec<Expr>),
    Index { base: Box<Expr>, index: Box<Expr> },
    /// An interpolated string: literal pieces and expressions, in order.
    InterpStr(Vec<InterpPart>),
}

/// One piece of an interpolated string.
pub enum InterpPart {
    Lit(String),
    Expr(Expr),
}

/// A statement.
pub struct Stmt {
    pub kind: StmtKind,
    /// Where the statement was written.
    pub span: Span,
}

/// The forms a statement takes.
#[allow(inconsistent_fields)]
pub enum StmtKind {
    Let { name: String, mutable: bool, declared: Option<Type>, value: Expr },
    Print { value: Expr, to_stderr: bool },
    Return(Expr),
    ExprStmt(Expr),
    Assign { name: String, value: Expr },
    /// A guaranteed tail call.
    TailReturn(Expr),
    AssignField { name: String, fields: Vec<String>, value: Expr },
    AssignIndex { name: String, index: Expr, value: Expr },
    AssignFieldIndex { name: String, fields: Vec<String>, index: Expr, value: Expr },
    If { cond: Expr, then_block: Vec<Stmt>, else_block: Option<Vec<Stmt>> },
    While { cond: Expr, body: Vec<Stmt> },
    For { name: String, iterable: Expr, body: Vec<Stmt> },
    ForRange { name: String, start: Expr, end: Expr, body: Vec<Stmt> },
    Region { name: String, body: Vec<Stmt> },
    Match { value: Expr, arms: Vec<MatchArm> },
    Break,
    Continue,
}

/// The literal an arm of a `match` on a scalar compares against.
pub enum MatchLiteral {
    Int(i64),
    Text(String),
    Truth(bool),
}

/// One arm of a `match`: the pattern as written, the names it binds, the literal it compares
/// against when it is one, and its body.
pub struct MatchArm {
    pub variant: String,
    pub bindings: Vec<String>,
    pub literal: Option<MatchLiteral>,
    pub body: Vec<Stmt>,
}

/// How a value that C cannot hold directly is encoded when it crosses into C.
#[derive(Clone, Copy, PartialEq, Eq, Structural, Debug)]
pub enum Marshal {
    /// A `Decimal` passed as its unscaled integer.
    Scaled,
}

/// A parameter of an external function.
pub struct Param {
    pub name: String,
    pub ty: Type,
    pub marshal: Option<Marshal>,
}

/// An `external function`: a C function the program calls, declared by its signature.
pub struct ExternFn {
    pub name: String,
    pub parameters: Vec<Param>,
    pub ret: Type,
}

/// A written contract clause or termination measure: the condition, its text as written, and
/// where it was written.
pub struct Contract {
    pub cond: Expr,
    pub text: String,
    pub span: Span,
}

/// A parameter of a Burxt function.
pub struct FnParam {
    pub name: String,
    pub ty: Type,
    /// Declared `mutable`: the caller's value may change.
    pub writable: bool,
    pub marshal: Option<Marshal>,
}

/// A function definition.
pub struct FnDef {
    pub name: String,
    pub parameters: Vec<FnParam>,
    pub ret: Type,
    pub body: Vec<Stmt>,
    pub is_pure: bool,
    /// Preconditions, in the order written.
    pub requires: Vec<Contract>,
    /// Postconditions, in the order written.
    pub ensures: Vec<Contract>,
    pub decreases: Option<Contract>,
    pub span: Span,
}

/// A method definition: a function whose first bound name is `self`, of the receiver class.
pub struct MethodDef {
    pub receiver: String,
    /// Declared `mutable self`: the method may change its receiver.
    pub receiver_mut: bool,
    pub name: String,
    pub parameters: Vec<FnParam>,
    pub ret: Type,
    pub body: Vec<Stmt>,
    pub is_pure: bool,
    pub span: Span,
}

} // verus!
