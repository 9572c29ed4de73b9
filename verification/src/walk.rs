//! Questions asked of a whole expression or body: is a name mentioned, is a function called.
use vstd::prelude::*;
use crate::ast::{Expr, ExprKind, InterpPart, MatchArm, Stmt, StmtKind};
use crate::allocation::{shown_fn, shown_fn_name};
use crate::text::same_text;
use crate::ty::append;

verus! {

/// Whether variable `name` is read anywhere inside `e`.
pub open spec fn mentions_name(e: Expr, name: Seq<char>) -> bool
    decreases e,
{
    match e.kind {
        ExprKind::Var(n) => n@ == name,
        ExprKind::Neg(i) => mentions_name(*i, name),
        ExprKind::Not(i) => mentions_name(*i, name),
        ExprKind::Try(i) => mentions_name(*i, name),
        ExprKind::Logical { lhs, rhs, .. } => mentions_name(*lhs, name) || mentions_name(*rhs, name),
        ExprKind::Binary { lhs, rhs, .. } => mentions_name(*lhs, name) || mentions_name(*rhs, name),
        ExprKind::Compare { lhs, rhs, .. } => mentions_name(*lhs, name) || mentions_name(*rhs, name),
        ExprKind::Call { arguments, .. } => exprs_mention(arguments@, name),
        ExprKind::MethodCall { base, arguments, .. } => mentions_name(*base, name) || exprs_mention(arguments@, name),
        ExprKind::StructLit { fields, .. } => fields_mention(fields@, name),
        ExprKind::Field { base, .. } => mentions_name(*base, name),
        ExprKind::ArrayLit(items) => exprs_mention(items@, name),
        ExprKind::TupleLit(items) => exprs_mention(items@, name),
        ExprKind::Index { base, index } => mentions_name(*base, name) || mentions_name(*index, name),
        ExprKind::InterpStr(parts) => parts_mention(parts@, name),
        ExprKind::IntLit(_) => false,
        ExprKind::DecimalLit { .. } => false,
        ExprKind::BoolLit(_) => false,
        ExprKind::StrLit(_) => false,
    }
}

/// Whether some expression of the list mentions `name`.
pub open spec fn exprs_mention(list: Seq<Expr>, name: Seq<char>) -> bool
    decreases list,
{
    list.len() > 0 && (mentions_name(list[0], name) || exprs_mention(list.skip(1), name))
}

/// Whether some field value of a class literal mentions `name`.
pub open spec fn fields_mention(fields: Seq<(String, Expr)>, name: Seq<char>) -> bool
    decreases fields,
{
    fields.len() > 0 && (mentions_name(fields[0].1, name) || fields_mention(fields.skip(1), name))
}

/// Whether some expression piece of an interpolated string mentions `name`.
pub open spec fn parts_mention(parts: Seq<InterpPart>, name: Seq<char>) -> bool
    decreases parts,
{
    parts.len() > 0 && (match parts[0] {
        InterpPart::Expr(x) => mentions_name(x, name),
        InterpPart::Lit(_) => false,
    } || parts_mention(parts.skip(1), name))
}

/// Does this expression mention a name anywhere inside it? Used to refuse `old(result)` with an
/// explanation rather than a name-resolution failure.
pub fn mentions(e: &Expr, name: &str) -> (r: bool)
    ensures
        r == mentions_name(*e, name@),
    decreases e,
{
    match &e.kind {
        ExprKind::Var(n) => same_text(n.as_str(), name),
        ExprKind::Neg(i) => mentions(i, name),
        ExprKind::Not(i) => mentions(i, name),
        ExprKind::Try(i) => mentions(i, name),
        ExprKind::Logical { lhs, rhs, .. } => mentions(lhs, name) || mentions(rhs, name),
        ExprKind::Binary { lhs, rhs, .. } => mentions(lhs, name) || mentions(rhs, name),
        ExprKind::Compare { lhs, rhs, .. } => mentions(lhs, name) || mentions(rhs, name),
        ExprKind::Call { arguments, .. } => mentions_any(arguments, name),
        ExprKind::MethodCall { base, arguments, .. } => mentions(base, name) || mentions_any(arguments, name),
        ExprKind::StructLit { fields, .. } => mentions_fields(fields, name),
        ExprKind::Field { base, .. } => mentions(base, name),
        ExprKind::ArrayLit(items) => mentions_any(items, name),
        ExprKind::TupleLit(items) => mentions_any(items, name),
        ExprKind::Index { base, index } => mentions(base, name) || mentions(index, name),
        ExprKind::InterpStr(parts) => mentions_parts(parts, name),
        ExprKind::IntLit(_) => false,
        ExprKind::DecimalLit { .. } => false,
        ExprKind::BoolLit(_) => false,
        ExprKind::StrLit(_) => false,
    }
}

/// Whether any expression of the list mentions `name`.
fn mentions_any(list: &Vec<Expr>, name: &str) -> (r: bool)
    ensures
        r == exprs_mention(list@, name@),
    decreases list,
{
    assert(list@.skip(0) =~= list@);
    let mut i: usize = 0;
    while i < list.len()
        invariant
            0 <= i <= list@.len(),
            exprs_mention(list@, name@) == exprs_mention(list@.skip(i as int), name@),
        decreases list.len() - i,
    {
        proof {
            assert(list@.skip(i as int).skip(1) =~= list@.skip(i + 1));
            assert(list@.skip(i as int)[0] == list@[i as int]);
            assert(decreases_to!(list => list@[i as int]));
        }
        if mentions(&list[i], name) {
            return true;
        }
        i = i + 1;
    }
    false
}

fn mentions_fields(fields: &Vec<(String, Expr)>, name: &str) -> (r: bool)
    ensures
        r == fields_mention(fields@, name@),
    decreases fields,
{
    assert(fields@.skip(0) =~= fields@);
    let mut i: usize = 0;
    while i < fields.len()
        invariant
            0 <= i <= fields@.len(),
            fields_mention(fields@, name@) == fields_mention(fields@.skip(i as int), name@),
        decreases fields.len() - i,
    {
        proof {
            assert(fields@.skip(i as int).skip(1) =~= fields@.skip(i + 1));
            assert(fields@.skip(i as int)[0] == fields@[i as int]);
            assert(decreases_to!(fields => fields@[i as int]));
            assert(decreases_to!(fields@[i as int] => fields@[i as int].1));
        }
        if mentions(&fields[i].1, name) {
            return true;
        }
        i = i + 1;
    }
    false
}

fn mentions_parts(parts: &Vec<InterpPart>, name: &str) -> (r: bool)
    ensures
        r == parts_mention(parts@, name@),
    decreases parts,
{
    assert(parts@.skip(0) =~= parts@);
    let mut i: usize = 0;
    while i < parts.len()
        invariant
            0 <= i <= parts@.len(),
            parts_mention(parts@, name@) == parts_mention(parts@.skip(i as int), name@),
        decreases parts.len() - i,
    {
        proof {
            assert(parts@.skip(i as int).skip(1) =~= parts@.skip(i + 1));
            assert(parts@.skip(i as int)[0] == parts@[i as int]);
            assert(decreases_to!(parts => parts@[i as int]));
        }
        match &parts[i] {
            InterpPart::Expr(x) => {
                if mentions(x, name) {
                    return true;
                }
            },
            InterpPart::Lit(_) => {},
        }
        i = i + 1;
    }
    false
}

fn in_fields(fields: &Vec<(String, Expr)>, name: &str) -> (r: bool)
    ensures
        r == fields_call(fields@, name@),
    decreases fields,
{
    assert(fields@.skip(0) =~= fields@);
    let mut i: usize = 0;
    while i < fields.len()
        invariant
            0 <= i <= fields@.len(),
            fields_call(fields@, name@) == fields_call(fields@.skip(i as int), name@),
        decreases fields.len() - i,
    {
        proof {
            assert(fields@.skip(i as int).skip(1) =~= fields@.skip(i + 1));
            assert(fields@.skip(i as int)[0] == fields@[i as int]);
            assert(decreases_to!(fields => fields@[i as int]));
            assert(decreases_to!(fields@[i as int] => fields@[i as int].1));
        }
        if in_expr(&fields[i].1, name) {
            return true;
        }
        i = i + 1;
    }
    false
}

fn in_parts(parts: &Vec<InterpPart>, name: &str) -> (r: bool)
    ensures
        r == parts_call(parts@, name@),
    decreases parts,
{
    assert(parts@.skip(0) =~= parts@);
    let mut i: usize = 0;
    while i < parts.len()
        invariant
            0 <= i <= parts@.len(),
            parts_call(parts@, name@) == parts_call(parts@.skip(i as int), name@),
        decreases parts.len() - i,
    {
        proof {
            assert(parts@.skip(i as int).skip(1) =~= parts@.skip(i + 1));
            assert(parts@.skip(i as int)[0] == parts@[i as int]);
            assert(decreases_to!(parts => parts@[i as int]));
        }
        match &parts[i] {
            InterpPart::Expr(x) => {
                if in_expr(x, name) {
                    return true;
                }
            },
            InterpPart::Lit(_) => {},
        }
        i = i + 1;
    }
    false
}

fn in_arms(arms: &Vec<MatchArm>, name: &str) -> (r: bool)
    ensures
        r == arms_call(arms@, name@),
    decreases arms,
{
    assert(arms@.skip(0) =~= arms@);
    let mut i: usize = 0;
    while i < arms.len()
        invariant
            0 <= i <= arms@.len(),
            arms_call(arms@, name@) == arms_call(arms@.skip(i as int), name@),
        decreases arms.len() - i,
    {
        proof {
            assert(arms@.skip(i as int).skip(1) =~= arms@.skip(i + 1));
            assert(arms@.skip(i as int)[0] == arms@[i as int]);
            assert(decreases_to!(arms => arms@[i as int]));
            assert(decreases_to!(arms@[i as int] => arms@[i as int].body));
        }
        if in_block(&arms[i].body, name) {
            return true;
        }
        i = i + 1;
    }
    false
}

/// Whether `e` contains a call to the function `name`.
pub open spec fn expr_calls(e: Expr, name: Seq<char>) -> bool
    decreases e,
{
    match e.kind {
        ExprKind::Call { name: callee, arguments } => callee@ == name || exprs_call(arguments@, name),
        ExprKind::Neg(i) => expr_calls(*i, name),
        ExprKind::Not(i) => expr_calls(*i, name),
        ExprKind::Logical { lhs, rhs, .. } => expr_calls(*lhs, name) || expr_calls(*rhs, name),
        ExprKind::Binary { lhs, rhs, .. } => expr_calls(*lhs, name) || expr_calls(*rhs, name),
        ExprKind::Compare { lhs, rhs, .. } => expr_calls(*lhs, name) || expr_calls(*rhs, name),
        ExprKind::MethodCall { base, arguments, .. } => expr_calls(*base, name) || exprs_call(arguments@, name),
        ExprKind::StructLit { fields, .. } => fields_call(fields@, name),
        ExprKind::Field { base, .. } => expr_calls(*base, name),
        ExprKind::ArrayLit(items) => exprs_call(items@, name),
        ExprKind::TupleLit(items) => exprs_call(items@, name),
        ExprKind::Try(inner) => expr_calls(*inner, name),
        ExprKind::Index { base, index } => expr_calls(*base, name) || expr_calls(*index, name),
        ExprKind::InterpStr(parts) => parts_call(parts@, name),
        _ => false,
    }
}

/// Whether some expression of the list contains a call to `name`.
pub open spec fn exprs_call(list: Seq<Expr>, name: Seq<char>) -> bool
    decreases list,
{
    list.len() > 0 && (expr_calls(list[0], name) || exprs_call(list.skip(1), name))
}

/// Whether some field value of a class literal contains a call to `name`.
pub open spec fn fields_call(fields: Seq<(String, Expr)>, name: Seq<char>) -> bool
    decreases fields,
{
    fields.len() > 0 && (expr_calls(fields[0].1, name) || fields_call(fields.skip(1), name))
}

/// Whether some expression piece of an interpolated string contains a call to `name`.
pub open spec fn parts_call(parts: Seq<InterpPart>, name: Seq<char>) -> bool
    decreases parts,
{
    parts.len() > 0 && (match parts[0] {
        InterpPart::Expr(x) => expr_calls(x, name),
        InterpPart::Lit(_) => false,
    } || parts_call(parts.skip(1), name))
}

/// Whether some arm of a `match` contains a call to `name`.
pub open spec fn arms_call(arms: Seq<MatchArm>, name: Seq<char>) -> bool
    decreases arms,
{
    arms.len() > 0 && (block_calls(arms[0].body@, name) || arms_call(arms.skip(1), name))
}

/// Whether statement `s` contains a call to the function `name`.
pub open spec fn stmt_calls(s: Stmt, name: Seq<char>) -> bool
    decreases s,
{
    match s.kind {
        StmtKind::Let { value, .. } => expr_calls(value, name),
        StmtKind::Print { value, .. } => expr_calls(value, name),
        StmtKind::Return(value) => expr_calls(value, name),
        StmtKind::ExprStmt(value) => expr_calls(value, name),
        StmtKind::Assign { value, .. } => expr_calls(value, name),
        StmtKind::TailReturn(value) => expr_calls(value, name),
        StmtKind::AssignField { value, .. } => expr_calls(value, name),
        StmtKind::AssignIndex { index, value, .. } => expr_calls(index, name) || expr_calls(value, name),
        StmtKind::AssignFieldIndex { index, value, .. } => expr_calls(index, name) || expr_calls(value, name),
        StmtKind::If { cond, then_block, else_block } => expr_calls(cond, name) || block_calls(then_block@, name)
            || match else_block {
                Some(b) => block_calls(b@, name),
                None => false,
            },
        StmtKind::While { cond, body } => expr_calls(cond, name) || block_calls(body@, name),
        StmtKind::For { iterable, body, .. } => expr_calls(iterable, name) || block_calls(body@, name),
        StmtKind::ForRange { start, end, body, .. } => expr_calls(start, name) || expr_calls(end, name)
            || block_calls(body@, name),
        StmtKind::Region { body, .. } => block_calls(body@, name),
        StmtKind::Match { value, arms } => expr_calls(value, name) || arms_call(arms@, name),
        StmtKind::Break => false,
        StmtKind::Continue => false,
    }
}

/// Whether some statement of a body contains a call to the function `name`.
pub open spec fn block_calls(body: Seq<Stmt>, name: Seq<char>) -> bool
    decreases body,
{
    body.len() > 0 && (stmt_calls(body[0], name) || block_calls(body.skip(1), name))
}

fn in_expr(e: &Expr, name: &str) -> (r: bool)
    ensures
        r == expr_calls(*e, name@),
    decreases e,
{
    match &e.kind {
        ExprKind::Call { name: callee, arguments } => same_text(callee.as_str(), name) || in_exprs(arguments, name),
        ExprKind::Neg(i) => in_expr(i, name),
        ExprKind::Not(i) => in_expr(i, name),
        ExprKind::Logical { lhs, rhs, .. } => in_expr(lhs, name) || in_expr(rhs, name),
        ExprKind::Binary { lhs, rhs, .. } => in_expr(lhs, name) || in_expr(rhs, name),
        ExprKind::Compare { lhs, rhs, .. } => in_expr(lhs, name) || in_expr(rhs, name),
        ExprKind::MethodCall { base, arguments, .. } => in_expr(base, name) || in_exprs(arguments, name),
        ExprKind::StructLit { fields, .. } => in_fields(fields, name),
        ExprKind::Field { base, .. } => in_expr(base, name),
        ExprKind::ArrayLit(items) => in_exprs(items, name),
        ExprKind::TupleLit(items) => in_exprs(items, name),
        ExprKind::Try(inner) => in_expr(inner, name),
        ExprKind::Index { base, index } => in_expr(base, name) || in_expr(index, name),
        ExprKind::InterpStr(parts) => in_parts(parts, name),
        _ => false,
    }
}

fn in_exprs(list: &Vec<Expr>, name: &str) -> (r: bool)
    ensures
        r == exprs_call(list@, name@),
    decreases list,
{
    assert(list@.skip(0) =~= list@);
    let mut i: usize = 0;
    while i < list.len()
        invariant
            0 <= i <= list@.len(),
            exprs_call(list@, name@) == exprs_call(list@.skip(i as int), name@),
        decreases list.len() - i,
    {
        proof {
            assert(list@.skip(i as int).skip(1) =~= list@.skip(i + 1));
            assert(list@.skip(i as int)[0] == list@[i as int]);
            assert(decreases_to!(list => list@[i as int]));
        }
        if in_expr(&list[i], name) {
            return true;
        }
        i = i + 1;
    }
    false
}

fn in_stmt(s: &Stmt, name: &str) -> (r: bool)
    ensures
        r == stmt_calls(*s, name@),
    decreases s,
{
    match &s.kind {
        StmtKind::Let { value, .. } => in_expr(value, name),
        StmtKind::Print { value, .. } => in_expr(value, name),
        StmtKind::Return(value) => in_expr(value, name),
        StmtKind::ExprStmt(value) => in_expr(value, name),
        StmtKind::Assign { value, .. } => in_expr(value, name),
        StmtKind::TailReturn(value) => in_expr(value, name),
        StmtKind::AssignField { value, .. } => in_expr(value, name),
        StmtKind::AssignIndex { index, value, .. } => in_expr(index, name) || in_expr(value, name),
        StmtKind::AssignFieldIndex { index, value, .. } => in_expr(index, name) || in_expr(value, name),
        StmtKind::If { cond, then_block, else_block } => {
            in_expr(cond, name) || in_block(then_block, name) || match else_block {
                Some(b) => in_block(b, name),
                None => false,
            }
        },
        StmtKind::While { cond, body } => in_expr(cond, name) || in_block(body, name),
        StmtKind::For { iterable, body, .. } => in_expr(iterable, name) || in_block(body, name),
        StmtKind::ForRange { start, end, body, .. } => {
            in_expr(start, name) || in_expr(end, name) || in_block(body, name)
        },
        StmtKind::Region { body, .. } => in_block(body, name),
        StmtKind::Match { value, arms } => in_expr(value, name) || in_arms(arms, name),
        StmtKind::Break => false,
        StmtKind::Continue => false,
    }
}

fn in_block(body: &Vec<Stmt>, name: &str) -> (r: bool)
    ensures
        r == block_calls(body@, name@),
    decreases body,
{
    assert(body@.skip(0) =~= body@);
    let mut i: usize = 0;
    while i < body.len()
        invariant
            0 <= i <= body@.len(),
            block_calls(body@, name@) == block_calls(body@.skip(i as int), name@),
        decreases body.len() - i,
    {
        proof {
            assert(body@.skip(i as int).skip(1) =~= body@.skip(i + 1));
            assert(body@.skip(i as int)[0] == body@[i as int]);
            assert(decreases_to!(body => body@[i as int]));
        }
        if in_stmt(&body[i], name) {
            return true;
        }
        i = i + 1;
    }
    false
}

/// Does this body contain a call to `name`? Used to refuse a `decreases` measure on a
/// function that never recurses: a claim with nothing to check reads as if it meant something.
pub fn calls_itself(body: &Vec<Stmt>, name: &str) -> (r: bool)
    ensures
        r == block_calls(body@, name@),
{
    in_block(body, name)
}

/// The refusal of a `decreases` measure, written as `measure`, on function `name` whose body
/// never calls it; `None` when the body does recurse.
pub open spec fn measure_refusal(body: Seq<Stmt>, name: Seq<char>, measure: Seq<char>) -> Option<Seq<char>> {
    if block_calls(body, name) {
        None
    } else {
        Some("`"@ + shown_fn(name) + "` never calls itself, so `decreases "@ + measure
            + "` has nothing to check. A reader would take it to mean something; drop it, or make the recursion real."@)
    }
}

/// Checks that a function with a `decreases` measure calls itself: see [`measure_refusal`].
pub fn check_measure_target(body: &Vec<Stmt>, name: &String, measure: &String) -> (r: Result<(), String>)
    ensures
        match measure_refusal(body@, name@, measure@) {
            Some(m) => r matches Err(e) && e@ == m,
            None => r is Ok,
        },
{
    if calls_itself(body, name.as_str()) {
        return Ok(());
    }
    let mut out = String::new();
    append(&mut out, "`");
    let shown = shown_fn_name(name);
    append(&mut out, shown.as_str());
    append(&mut out, "` never calls itself, so `decreases ");
    append(&mut out, measure.as_str());
    append(&mut out, "` has nothing to check. A reader would take it to mean something; drop it, or make the recursion real.");
    Err(out)
}

/// The binding a place ultimately writes into: `g.items[0]` is a write to `g`.
pub open spec fn place_root_of(e: Expr) -> Option<Seq<char>>
    decreases e,
{
    match e.kind {
        ExprKind::Var(name) => Some(name@),
        ExprKind::Field { base, .. } => place_root_of(*base),
        ExprKind::Index { base, .. } => place_root_of(*base),
        _ => None,
    }
}

/// The binding a place ultimately writes into: see [`place_root_of`]. Every escape rule is about
/// a name, and three of the four ways to reach a place are spelled through a field or an index.
pub fn place_root<'a>(e: &'a Expr) -> (r: Option<&'a str>)
    ensures
        match r {
            Some(n) => place_root_of(*e) == Some(n@),
            None => place_root_of(*e) is None,
        },
    decreases e,
{
    match &e.kind {
        ExprKind::Var(name) => Some(name.as_str()),
        ExprKind::Field { base, .. } | ExprKind::Index { base, .. } => place_root(base),
        _ => None,
    }
}

} // verus!
