//! The checked program: every expression annotated with its type, so code generation never
//! re-derives one. And the questions asked of a checked body: does it return on every path,
//! does control leave it.
use vstd::prelude::*;
use crate::ops::{BinOp, CmpOp, LogicalOp};
use crate::ty::Type;

verus! {

/// Where something was written: the byte offsets it starts at and ends before.
#[derive(PartialEq, Eq, Structural, Clone, Copy, Debug)]
pub struct Span {
    pub start: u32,
    pub end: u32,
}

/// How an integer division rounds: `divide_floor`, `divide_toward_zero`, or `remainder`.
#[derive(PartialEq, Eq, Structural, Clone, Copy, Debug)]
pub enum IntDiv {
    Floor,
    Trunc,
    Rem,
}

/// A bitwise builtin.
#[derive(PartialEq, Eq, Structural, Clone, Copy, Debug)]
pub enum BitOp {
    And,
    Or,
    Xor,
    Not,
    Left,
    RightZeros,
    RightSign,
}

/// A typed expression: the checked node and its resolved type.
#[derive(Debug)]
pub struct TypedExpr {
    pub ty: Type,
    pub kind: TypedExprKind,
}

/// The forms a checked expression takes.
#[allow(inconsistent_fields)]
#[derive(Debug)]
pub enum TypedExprKind {
    IntLit(i64),
    /// Decimal literal already normalized to the binding's scale: `unscaled` is value × 10^scale.
    DecimalLit { unscaled: i64 },
    BoolLit(bool),
    StrLit(String),
    Var(String),
    /// Negation of a non-literal (literals are folded at check time).
    Neg(Box<TypedExpr>),
    Not(Box<TypedExpr>),
    /// `truncate(xs, n)`: drop everything past `n`.
    Truncate { place: Box<TypedExpr>, length: Box<TypedExpr> },
    /// `argument_count()`.
    ArgCount,
    /// `argument(n)`.
    Arg(Box<TypedExpr>),
    /// `write_file(path, contents)`.
    WriteFile { path: Box<TypedExpr>, contents: Box<TypedExpr> },
    /// `write_bytes(path, buffer)`.
    WriteBytes { path: Box<TypedExpr>, buffer: Box<TypedExpr> },
    /// `substring(s, at, len)`.
    Substring { source: Box<TypedExpr>, at: Box<TypedExpr>, len: Box<TypedExpr> },
    /// `divide_floor`, `divide_toward_zero` or `remainder` on two Ints.
    IntDiv { kind: IntDiv, lhs: Box<TypedExpr>, rhs: Box<TypedExpr> },
    Bit { kind: BitOp, lhs: Box<TypedExpr>, rhs: Option<Box<TypedExpr>> },
    /// `old(expr)` in an `ensures` clause, by index into the function's hoisted list.
    Old(usize),
    /// `read_file(path)`.
    ReadFile(Box<TypedExpr>),
    CIsNull(Box<TypedExpr>),
    CStringAt(Box<TypedExpr>),
    CBytesAt { pointer: Box<TypedExpr>, count: Box<TypedExpr> },
    /// `handle_of(value)`: file a value in the handle table and answer the packed handle.
    Hold { value: Box<TypedExpr>, of: String },
    /// `handle_value(handle)`: the value back, or a named refusal.
    Held { handle: Box<TypedExpr>, of: String },
    CBytesTo { pointer: Box<TypedExpr>, bytes: Box<TypedExpr> },
    /// `to_string(v)`.
    ToString(Box<TypedExpr>),
    /// `byte_at(s, i)`.
    ByteAt { s: Box<TypedExpr>, index: Box<TypedExpr> },
    /// `byte_as_string(n)`.
    ByteAsString(Box<TypedExpr>),
    /// `hash(x)`: a deterministic, unseeded hash.
    Hash(Box<TypedExpr>),
    /// `len(s)` on a String.
    StrLen(Box<TypedExpr>),
    /// Short-circuiting `&&` / `||`.
    Logical { op: LogicalOp, lhs: Box<TypedExpr>, rhs: Box<TypedExpr> },
    Binary { op: BinOp, lhs: Box<TypedExpr>, rhs: Box<TypedExpr> },
    Compare { op: CmpOp, lhs: Box<TypedExpr>, rhs: Box<TypedExpr> },
    Call { name: String, arguments: Vec<TypedExpr> },
    /// Method call, resolved to its receiver type.
    MethodCall {
        receiver: String,
        method: String,
        receiver_mut: bool,
        base: Box<TypedExpr>,
        arguments: Vec<TypedExpr>,
    },
    /// An interface object built from a concrete binding.
    DynCoerce { interface_name: String, concrete: String, var: String },
    /// A dynamically dispatched call through vtable slot `slot`.
    DynCall {
        interface_name: String,
        method: String,
        slot: u32,
        base: Box<TypedExpr>,
        arguments: Vec<TypedExpr>,
    },
    /// Class construction, fields in declaration order.
    StructLit { name: String, fields: Vec<TypedExpr> },
    /// Field access, resolved to a positional index.
    Field { base: Box<TypedExpr>, index: u32 },
    ArrayLit(Vec<TypedExpr>),
    /// A growable-array literal.
    SliceLit(Vec<TypedExpr>),
    /// `push(xs, v)`.
    Push { place: Box<TypedExpr>, value: Box<TypedExpr> },
    /// `len(xs)` on a growable array.
    SliceLen(Box<TypedExpr>),
    /// Growable-array element read, bounds-checked.
    SliceIndex { base: Box<TypedExpr>, index: Box<TypedExpr> },
    /// `e?`: the success payload, or return the failure from the enclosing function.
    Try {
        value: Box<TypedExpr>,
        fail_tag: u32,
        ok_tag: u32,
        ret_enum: String,
        ret_fail_tag: u32,
    },
    /// Enum construction: the variant's index plus its payload values.
    VariantLit { enum_name: String, tag: u32, arguments: Vec<TypedExpr> },
    /// Bounds-checked indexed read; `len` is the static length.
    Index { base: Box<TypedExpr>, len: u32, index: Box<TypedExpr> },
}

/// The forms a checked statement takes.
#[allow(inconsistent_fields)]
pub enum TypedStmtKind {
    Let { name: String, ty: Type, value: TypedExpr },
    Assign { name: String, value: TypedExpr },
    /// Field assignment, path resolved to positional indices.
    AssignField { name: String, indices: Vec<u32>, value: TypedExpr },
    /// A call kept for its side effect.
    ExprStmt(TypedExpr),
    /// `exit(code)`.
    Exit(TypedExpr),
    /// Element assignment through a field path.
    AssignFieldIndex { name: String, indices: Vec<u32>, len: u32, index: TypedExpr, value: TypedExpr },
    /// Bounds-checked element assignment.
    AssignIndex { name: String, len: u32, index: TypedExpr, value: TypedExpr },
    Print { value: TypedExpr, to_stderr: bool },
    /// `region name { .. }`.
    Region { name: String, body: Vec<TypedStmt> },
    /// An ordinary block proved to keep nothing, released at its closing brace.
    Release { body: Vec<TypedStmt> },
    /// `for name in iterable { body }`.
    For { name: String, elem: Type, iterable: TypedExpr, body: Vec<TypedStmt> },
    /// `for name in start..end { body }`.
    ForRange { name: String, start: TypedExpr, end: TypedExpr, body: Vec<TypedStmt> },
    /// `match` on an enum: arms in tag order.
    Match { value: TypedExpr, arms: Vec<TypedArm> },
    /// `print` of an interpolated string.
    PrintInterp { parts: Vec<TypedInterpPart>, to_stderr: bool },
    Break,
    Continue,
    Return(TypedExpr),
    /// A guaranteed tail call.
    TailReturn { name: String, arguments: Vec<TypedExpr> },
    While { cond: TypedExpr, body: Vec<TypedStmt> },
    If { cond: TypedExpr, then_block: Vec<TypedStmt>, else_block: Option<Vec<TypedStmt>> },
}

/// A checked statement, and where it was written.
pub struct TypedStmt {
    pub kind: TypedStmtKind,
    pub span: Span,
}

impl TypedStmt {
    /// A statement of the given kind, written at `span`.
    pub fn new(kind: TypedStmtKind, span: Span) -> (r: TypedStmt)
        ensures
            r.kind == kind,
            r.span == span,
    {
        TypedStmt { kind, span }
    }
}

/// One arm of a checked `match`.
pub struct TypedArm {
    pub tag: u32,
    /// (name, type) for each payload slot this arm binds.
    pub bindings: Vec<(String, Type)>,
    pub body: Vec<TypedStmt>,
}

/// An enum, ready for code generation: variants in declaration order, which fixes the tags.
pub struct TypedEnum {
    pub name: String,
    pub variants: Vec<Vec<Type>>,
}

/// One piece of a printed interpolated string.
pub enum TypedInterpPart {
    Lit(String),
    Expr(TypedExpr),
}

/// A checked function.
pub struct TypedFn {
    pub name: String,
    pub parameters: Vec<(String, Type)>,
    /// Which parameters were declared `mutable`, parallel to `parameters`.
    pub writable: Vec<bool>,
    pub ret: Type,
    pub body: Vec<TypedStmt>,
    /// Preconditions, in the order written: checked on entry.
    pub requires: Vec<TypedContract>,
    /// Postconditions: checked before every return, with `result` bound.
    pub ensures: Vec<TypedContract>,
    /// The termination measure, if one was declared.
    pub decreases: Option<TypedContract>,
    /// The expressions inside `old(...)`, evaluated once on entry.
    pub olds: Vec<TypedExpr>,
}

/// A checked contract clause: the condition, the text to quote if it fails, and where it was
/// written.
pub struct TypedContract {
    pub cond: TypedExpr,
    pub text: String,
    pub span: Span,
}

/// A checked method: `self` is the first bound name, typed as the receiver.
pub struct TypedMethod {
    pub receiver: String,
    pub receiver_mut: bool,
    pub name: String,
    pub parameters: Vec<(String, Type)>,
    pub ret: Type,
    pub body: Vec<TypedStmt>,
    pub requires: Vec<TypedContract>,
    pub ensures: Vec<TypedContract>,
    pub olds: Vec<TypedExpr>,
}

/// An external function: its symbol and full signature.
pub struct TypedExtern {
    pub name: String,
    pub parameters: Vec<Type>,
    pub ret: Type,
}

/// A class, ready for code generation: field types in declaration order.
pub struct TypedStruct {
    pub name: String,
    pub fields: Vec<Type>,
}

/// A vtable code generation must emit: one per (concrete type, interface) pair used as
/// `dynamic`, with the implementing methods in interface-declaration order, which fixes each
/// method's slot.
pub struct TypedVTable {
    pub interface_name: String,
    pub concrete: String,
    pub slots: Vec<String>,
}

/// The checked program.
pub struct TypedProgram {
    pub structs: Vec<TypedStruct>,
    pub enums: Vec<TypedEnum>,
    pub externs: Vec<TypedExtern>,
    pub fns: Vec<TypedFn>,
    pub methods: Vec<TypedMethod>,
    pub vtables: Vec<TypedVTable>,
    pub stmts: Vec<TypedStmt>,
}

/// Whether statement `s` returns on every path through it.
pub open spec fn always_returns(s: TypedStmt) -> bool
    decreases s,
{
    match s.kind {
        TypedStmtKind::Return(_) => true,
        TypedStmtKind::TailReturn { .. } => true,
        TypedStmtKind::If { then_block, else_block: Some(e), .. } => block_returns_spec(then_block@)
            && block_returns_spec(e@),
        TypedStmtKind::Match { arms, .. } => arms@.len() > 0 && arms_return(arms@),
        TypedStmtKind::Region { body, .. } => block_returns_spec(body@),
        TypedStmtKind::Release { body } => block_returns_spec(body@),
        _ => false,
    }
}

/// Whether a body returns on every path: its last statement does.
pub open spec fn block_returns_spec(stmts: Seq<TypedStmt>) -> bool
    decreases stmts,
{
    stmts.len() > 0 && always_returns(stmts[stmts.len() - 1])
}

/// Whether every arm's body returns on every path.
pub open spec fn arms_return(arms: Seq<TypedArm>) -> bool
    decreases arms,
{
    arms.len() == 0 || (block_returns_spec(arms[0].body@) && arms_return(arms.skip(1)))
}

/// Whether control leaves statement `s` without falling through: by returning, or by jumping
/// out of a loop.
pub open spec fn leaves(s: TypedStmt) -> bool
    decreases s,
{
    match s.kind {
        TypedStmtKind::Break => true,
        TypedStmtKind::Continue => true,
        TypedStmtKind::If { then_block, else_block: Some(e), .. } => block_diverges_spec(then_block@)
            && block_diverges_spec(e@),
        TypedStmtKind::Match { arms, .. } => arms@.len() > 0 && arms_diverge(arms@),
        TypedStmtKind::Region { body, .. } => block_diverges_spec(body@),
        TypedStmtKind::Release { body } => block_diverges_spec(body@),
        TypedStmtKind::For { .. } => false,
        TypedStmtKind::ForRange { .. } => false,
        _ => always_returns(s),
    }
}

/// Whether control leaves a body without falling through: its last statement does.
pub open spec fn block_diverges_spec(stmts: Seq<TypedStmt>) -> bool
    decreases stmts,
{
    stmts.len() > 0 && leaves(stmts[stmts.len() - 1])
}

/// Whether control leaves every arm's body.
pub open spec fn arms_diverge(arms: Seq<TypedArm>) -> bool
    decreases arms,
{
    arms.len() == 0 || (block_diverges_spec(arms[0].body@) && arms_diverge(arms.skip(1)))
}

/// Does control leave this statement without falling through? Used for the unreachable-code
/// check. Not the same question as [`stmt_returns`]: a `break` ends a block but does not satisfy
/// a function's obligation to return a value. A `for` runs zero times over an empty array or
/// range, so it is never what makes control leave a block.
pub fn stmt_diverges(s: &TypedStmt) -> (r: bool)
    ensures
        r == leaves(*s),
    decreases s,
{
    match &s.kind {
        TypedStmtKind::Break => true,
        TypedStmtKind::Continue => true,
        TypedStmtKind::If { then_block, else_block: Some(e), .. } => block_diverges(then_block) && block_diverges(e),
        TypedStmtKind::Match { arms, .. } => arms.len() > 0 && all_arms_leave(arms),
        TypedStmtKind::Region { body, .. } => block_diverges(body),
        TypedStmtKind::Release { body } => block_diverges(body),
        TypedStmtKind::For { .. } => false,
        TypedStmtKind::ForRange { .. } => false,
        _ => stmt_returns(s),
    }
}

/// Whether control leaves a body without falling through: its last statement does.
pub fn block_diverges(stmts: &Vec<TypedStmt>) -> (r: bool)
    ensures
        r == block_diverges_spec(stmts@),
    decreases stmts,
{
    if stmts.len() == 0 {
        return false;
    }
    proof {
        assert(decreases_to!(stmts => stmts@[stmts@.len() - 1]));
    }
    stmt_diverges(&stmts[stmts.len() - 1])
}

/// Does this statement return on every path through it? An exhaustive `match` returns when
/// every arm does, a region when its body does, and a loop never counts: its body may run zero
/// times.
pub fn stmt_returns(s: &TypedStmt) -> (r: bool)
    ensures
        r == always_returns(*s),
    decreases s,
{
    match &s.kind {
        TypedStmtKind::Return(_) => true,
        TypedStmtKind::TailReturn { .. } => true,
        TypedStmtKind::If { then_block, else_block: Some(e), .. } => block_returns(then_block) && block_returns(e),
        TypedStmtKind::Match { arms, .. } => arms.len() > 0 && all_arms_return(arms),
        TypedStmtKind::Region { body, .. } => block_returns(body),
        TypedStmtKind::Release { body } => block_returns(body),
        _ => false,
    }
}

/// A body returns on every path when its last statement does: the checker refuses statements
/// after one that always returns, so the last one is enough.
pub fn block_returns(stmts: &Vec<TypedStmt>) -> (r: bool)
    ensures
        r == block_returns_spec(stmts@),
    decreases stmts,
{
    if stmts.len() == 0 {
        return false;
    }
    proof {
        assert(decreases_to!(stmts => stmts@[stmts@.len() - 1]));
    }
    stmt_returns(&stmts[stmts.len() - 1])
}

fn all_arms_leave(arms: &Vec<TypedArm>) -> (r: bool)
    ensures
        r == arms_diverge(arms@),
    decreases arms,
{
    assert(arms@.skip(0) =~= arms@);
    let mut i: usize = 0;
    while i < arms.len()
        invariant
            0 <= i <= arms@.len(),
            arms_diverge(arms@) == arms_diverge(arms@.skip(i as int)),
        decreases arms.len() - i,
    {
        proof {
            assert(arms@.skip(i as int).skip(1) =~= arms@.skip(i + 1));
            assert(arms@.skip(i as int)[0] == arms@[i as int]);
            assert(decreases_to!(arms => arms@[i as int]));
            assert(decreases_to!(arms@[i as int] => arms@[i as int].body));
        }
        if !block_diverges(&arms[i].body) {
            return false;
        }
        i = i + 1;
    }
    true
}

fn all_arms_return(arms: &Vec<TypedArm>) -> (r: bool)
    ensures
        r == arms_return(arms@),
    decreases arms,
{
    assert(arms@.skip(0) =~= arms@);
    let mut i: usize = 0;
    while i < arms.len()
        invariant
            0 <= i <= arms@.len(),
            arms_return(arms@) == arms_return(arms@.skip(i as int)),
        decreases arms.len() - i,
    {
        proof {
            assert(arms@.skip(i as int).skip(1) =~= arms@.skip(i + 1));
            assert(arms@.skip(i as int)[0] == arms@[i as int]);
            assert(decreases_to!(arms => arms@[i as int]));
            assert(decreases_to!(arms@[i as int] => arms@[i as int].body));
        }
        if !block_returns(&arms[i].body) {
            return false;
        }
        i = i + 1;
    }
    true
}

/// A statement that returns on every path also makes control leave the block it is in.
pub proof fn lemma_returns_diverges(s: TypedStmt)
    requires
        always_returns(s),
    ensures
        leaves(s),
    decreases s,
{
    match s.kind {
        TypedStmtKind::If { then_block, else_block: Some(e), .. } => {
            lemma_block_returns_diverges(then_block@);
            lemma_block_returns_diverges(e@);
        },
        TypedStmtKind::Match { arms, .. } => lemma_arms_return_diverge(arms@),
        TypedStmtKind::Region { body, .. } => lemma_block_returns_diverges(body@),
        TypedStmtKind::Release { body } => lemma_block_returns_diverges(body@),
        _ => {},
    }
}

/// A body that returns on every path also makes control leave it.
pub proof fn lemma_block_returns_diverges(stmts: Seq<TypedStmt>)
    requires
        block_returns_spec(stmts),
    ensures
        block_diverges_spec(stmts),
    decreases stmts,
{
    lemma_returns_diverges(stmts[stmts.len() - 1]);
}

/// Arms that all return also all make control leave.
pub proof fn lemma_arms_return_diverge(arms: Seq<TypedArm>)
    requires
        arms_return(arms),
    ensures
        arms_diverge(arms),
    decreases arms,
{
    if arms.len() > 0 {
        lemma_block_returns_diverges(arms[0].body@);
        lemma_arms_return_diverge(arms.skip(1));
    }
}

/// The value of an expression that IS an integer literal, and nothing more: `None` for `2 + 1`,
/// for a binding, for a call.
pub fn literal_int(e: &TypedExpr) -> (r: Option<i64>)
    ensures
        r == (match e.kind {
            TypedExprKind::IntLit(n) => Some(n),
            _ => None,
        }),
{
    match &e.kind {
        TypedExprKind::IntLit(n) => Some(*n),
        _ => None,
    }
}

/// The value of a written-down integer, or `None` for anything computed. A negation wrapping a
/// literal counts, because the lexer reads no sign: `-1` is a minus wrapping the literal `1`.
pub fn written_int(e: &TypedExpr) -> (r: Option<i64>)
    requires
        !(e.kind matches TypedExprKind::Neg(inner) && inner.kind == TypedExprKind::IntLit(i64::MIN)),
    ensures
        r == (match e.kind {
            TypedExprKind::IntLit(n) => Some(n),
            TypedExprKind::Neg(inner) => match inner.kind {
                TypedExprKind::IntLit(n) => Some((-n) as i64),
                _ => None,
            },
            _ => None,
        }),
{
    match &e.kind {
        TypedExprKind::IntLit(n) => Some(*n),
        TypedExprKind::Neg(inner) => match &inner.kind {
            TypedExprKind::IntLit(n) => Some(-*n),
            _ => None,
        },
        _ => None,
    }
}

/// What a statement written after `checked` is refused with, when control never reaches it:
/// the last statement checked so far leaves the block, and the sentence names how.
pub open spec fn unreachable_text(checked: Seq<TypedStmt>) -> Option<Seq<char>> {
    if checked.len() > 0 && leaves(checked.last()) {
        Some("unreachable statement: this code comes after "@ + match checked.last().kind {
            TypedStmtKind::Break => "`break`"@,
            TypedStmtKind::Continue => "`continue`"@,
            _ => "`return`"@,
        })
    } else {
        None
    }
}

/// Whether the next statement of a block, after the statements `checked` so far, can never run:
/// see [`unreachable_text`]. A block reports this once and checks nothing after it.
pub fn unreachable_note(checked: &Vec<TypedStmt>) -> (r: Option<String>)
    ensures
        match unreachable_text(checked@) {
            Some(m) => r matches Some(t) && t@ == m,
            None => r is None,
        },
{
    if checked.len() == 0 {
        return None;
    }
    let last = &checked[checked.len() - 1];
    if !stmt_diverges(last) {
        return None;
    }
    let mut out = String::new();
    crate::ty::append(&mut out, "unreachable statement: this code comes after ");
    match &last.kind {
        TypedStmtKind::Break => crate::ty::append(&mut out, "`break`"),
        TypedStmtKind::Continue => crate::ty::append(&mut out, "`continue`"),
        _ => crate::ty::append(&mut out, "`return`"),
    }
    Some(out)
}

} // verus!
