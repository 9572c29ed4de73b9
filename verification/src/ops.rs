//! The operators of Burxt expressions.
use vstd::prelude::*;
use crate::ty::append;

verus! {

/// An arithmetic operator.
#[derive(PartialEq, Eq, Structural, Clone, Copy, Debug)]
pub enum BinOp {
    Add,
    Sub,
    Mul,
    Div,
}

/// A comparison operator.
#[derive(PartialEq, Eq, Structural, Clone, Copy, Debug)]
pub enum CmpOp {
    Eq,
    Ne,
    Lt,
    Le,
    Gt,
    Ge,
}

/// A short-circuiting boolean operator.
#[derive(PartialEq, Eq, Structural, Clone, Copy, Debug)]
pub enum LogicalOp {
    And,
    Or,
}

/// How an arithmetic operator is written.
pub open spec fn binop_text(op: BinOp) -> Seq<char> {
    match op {
        BinOp::Add => "+"@,
        BinOp::Sub => "-"@,
        BinOp::Mul => "*"@,
        BinOp::Div => "/"@,
    }
}

/// How a comparison operator is written.
pub open spec fn comparison_text(op: CmpOp) -> Seq<char> {
    match op {
        CmpOp::Eq => "=="@,
        CmpOp::Ne => "!="@,
        CmpOp::Lt => "<"@,
        CmpOp::Le => "<="@,
        CmpOp::Gt => ">"@,
        CmpOp::Ge => ">="@,
    }
}

/// Appends how an arithmetic operator is written.
pub fn write_binop(out: &mut String, op: BinOp)
    ensures
        final(out)@ == old(out)@ + binop_text(op),
{
    match op {
        BinOp::Add => append(out, "+"),
        BinOp::Sub => append(out, "-"),
        BinOp::Mul => append(out, "*"),
        BinOp::Div => append(out, "/"),
    }
}

/// Appends how a comparison operator is written.
pub fn write_comparison(out: &mut String, op: CmpOp)
    ensures
        final(out)@ == old(out)@ + comparison_text(op),
{
    match op {
        CmpOp::Eq => append(out, "=="),
        CmpOp::Ne => append(out, "!="),
        CmpOp::Lt => append(out, "<"),
        CmpOp::Le => append(out, "<="),
        CmpOp::Gt => append(out, ">"),
        CmpOp::Ge => append(out, ">="),
    }
}

} // verus!
