//! Naming what a body allocates: the first cause, for a refusal of `allocates nothing` that says
//! why, and all of them in source order, for the memory report.
//!
//! Best effort by design. These walks never decide whether a body allocates (the inference over
//! the call graph does that); they name the causes they can see.
use vstd::prelude::*;
use crate::compare::{seen_contains, view_names};
use crate::generics::{Instances, InstancesV, shown, show};
use crate::ops::BinOp;
use crate::release::{CallFacts, listed, pair_listed, index_listed, triple_listed, dyn_allocates, dyn_relays,
    before_dollar, generic_name, has_name, has_pair, has_index, has_triple, dyn_call_allocates, dyn_call_relays};
use crate::storage::{fuel_for, holds_storage, may_be_region_storage};
use crate::ty::{Type, TypeV, append};
use crate::typed::{TypedArm, TypedExpr, TypedExprKind, TypedStmt, TypedStmtKind};

verus! {

/// Whether the expression is region storage while a body is checked: built by something that
/// allocates, handed back by a call that was given such storage, or read from a name that holds
/// it. `locals` are the names bound to region storage so far. Reaching into such storage for a
/// field or an element answers yes only when what is reached for can itself hold storage.
pub open spec fn builds(f: CallFacts, locals: Seq<String>, e: TypedExpr) -> bool
    decreases e, 1int,
{
    match e.kind {
        TypedExprKind::SliceLit(_) => true,
        TypedExprKind::Push { .. } => true,
        TypedExprKind::ReadFile(_) => true,
        TypedExprKind::CStringAt(_) => true,
        TypedExprKind::CBytesAt { .. } => true,
        TypedExprKind::ByteAsString(_) => true,
        TypedExprKind::Substring { .. } => true,
        TypedExprKind::Call { name, arguments } => listed(f.alloc_fns@, name@)
            || relays_built(f, locals, name@, arguments@, 0),
        TypedExprKind::MethodCall { receiver, method, base, arguments, .. } =>
            pair_listed(f.alloc_methods@, receiver@, method@)
            || (triple_listed(f.relay_methods@, receiver@, method@, 0) && builds(f, locals, *base))
            || method_relays_built(f, locals, receiver@, method@, arguments@, 1),
        TypedExprKind::DynCall { interface_name, method, base, arguments, .. } =>
            dyn_allocates(f, interface_name@, method@)
            || (dyn_relays(f, interface_name@, method@, 0) && builds(f, locals, *base))
            || dyn_relays_built(f, locals, interface_name@, method@, arguments@, 1),
        TypedExprKind::DynCoerce { var, .. } => listed(locals, var@),
        TypedExprKind::Try { value, .. } => builds(f, locals, *value),
        TypedExprKind::Arg(_) => true,
        TypedExprKind::ToString(v) => v.ty@ != TypeV::Bool,
        TypedExprKind::Binary { op, lhs, rhs } => if op == BinOp::Add && lhs.ty@ == TypeV::String
            && rhs.ty@ == TypeV::String {
            true
        } else {
            builds(f, locals, *lhs) || builds(f, locals, *rhs)
        },
        TypedExprKind::Neg(i) => builds(f, locals, *i),
        TypedExprKind::Not(i) => builds(f, locals, *i),
        TypedExprKind::StructLit { fields, .. } => any_builds(f, locals, fields@),
        TypedExprKind::VariantLit { arguments, .. } => any_builds(f, locals, arguments@),
        TypedExprKind::ArrayLit(items) => any_builds(f, locals, items@),
        TypedExprKind::Var(name) => listed(locals, name@),
        TypedExprKind::Field { base, .. } => holds_storage(f.layouts@, e.ty@, Seq::empty(), fuel_for(f.layouts))
            && builds(f, locals, *base),
        TypedExprKind::Index { base, .. } => holds_storage(f.layouts@, e.ty@, Seq::empty(), fuel_for(f.layouts))
            && builds(f, locals, *base),
        TypedExprKind::SliceIndex { base, .. } => holds_storage(f.layouts@, e.ty@, Seq::empty(), fuel_for(f.layouts))
            && builds(f, locals, *base),
        _ => false,
    }
}

/// Whether some expression of the list is region storage.
pub open spec fn any_builds(f: CallFacts, locals: Seq<String>, es: Seq<TypedExpr>) -> bool
    decreases es, 0int,
{
    es.len() > 0 && (builds(f, locals, es[0]) || any_builds(f, locals, es.skip(1)))
}

/// Whether some argument, the first numbered `i`, is handed back by function `name` and is
/// region storage.
pub open spec fn relays_built(f: CallFacts, locals: Seq<String>, name: Seq<char>, es: Seq<TypedExpr>, i: int) -> bool
    decreases es, 0int,
{
    es.len() > 0 && ((index_listed(f.relay_params@, name, i) && builds(f, locals, es[0]))
        || relays_built(f, locals, name, es.skip(1), i + 1))
}

/// Whether some argument, the first numbered `i`, is handed back by the method and is region
/// storage.
pub open spec fn method_relays_built(
    f: CallFacts,
    locals: Seq<String>,
    receiver: Seq<char>,
    method: Seq<char>,
    es: Seq<TypedExpr>,
    i: int,
) -> bool
    decreases es, 0int,
{
    es.len() > 0 && ((triple_listed(f.relay_methods@, receiver, method, i) && builds(f, locals, es[0]))
        || method_relays_built(f, locals, receiver, method, es.skip(1), i + 1))
}

/// Whether some argument, the first numbered `i`, is handed back by some implementation of the
/// interface method and is region storage.
pub open spec fn dyn_relays_built(
    f: CallFacts,
    locals: Seq<String>,
    interface: Seq<char>,
    method: Seq<char>,
    es: Seq<TypedExpr>,
    i: int,
) -> bool
    decreases es, 0int,
{
    es.len() > 0 && ((dyn_relays(f, interface, method, i) && builds(f, locals, es[0]))
        || dyn_relays_built(f, locals, interface, method, es.skip(1), i + 1))
}

/// A function's name as its author wrote it: `grow$Int` is one instantiation of `grow`.
pub open spec fn shown_fn(name: Seq<char>) -> Seq<char> {
    match before_dollar(name) {
        Some(declared) => declared,
        None => name,
    }
}

/// A few words for the thing that allocates, or `None` when it cannot be named simply. A call
/// through an interface object is named whenever it is reached, since the claim has to hold for
/// every implementation.
pub open spec fn described(f: CallFacts, locals: Seq<String>, inst: InstancesV, depth: nat, e: TypedExpr) -> Option<Seq<char>> {
    match e.kind {
        TypedExprKind::DynCall { interface_name, method, .. } => Some(
            "`."@ + method@ + "(...)` through a `dynamic "@ + interface_name@
                + "` allocates — and the claim has to hold for EVERY implementation, so one that allocates is enough to break it"@,
        ),
        _ => if !builds(f, locals, e) {
            None
        } else {
            match e.kind {
                TypedExprKind::Call { name, .. } => Some(
                    "`"@ + shown_fn(name@) + "(...)` builds its answer in the caller's region"@,
                ),
                TypedExprKind::MethodCall { receiver, method, .. } => Some(
                    "`"@ + shown(TypeV::Named(receiver@), inst, depth) + "."@ + method@
                        + "(...)` builds its answer in the caller's region"@,
                ),
                TypedExprKind::Binary { op, lhs, .. } => if op == BinOp::Add && lhs.ty@ == TypeV::String {
                    Some("joining two Strings builds a new one"@)
                } else {
                    None
                },
                TypedExprKind::Substring { .. } => Some("`substring(...)` builds a new String"@),
                TypedExprKind::ByteAsString(_) => Some("`byte_as_string(...)` builds a one-byte String"@),
                TypedExprKind::ToString(_) => Some("`to_string(...)` builds a String"@),
                TypedExprKind::ReadFile(_) => Some("`read_file(...)` builds a String"@),
                TypedExprKind::CStringAt(_) => Some("`c_string_at(...)` copies C's bytes into a String"@),
                TypedExprKind::CBytesAt { .. } => Some("`c_bytes_at(...)` copies C's bytes into an array"@),
                TypedExprKind::SliceLit(_) => Some("a growable array is built here"@),
                TypedExprKind::Push { .. } => Some("`push(...)` may grow the array"@),
                _ => None,
            }
        },
    }
}

/// The first allocation a statement names: its value, or the first inside the blocks it holds.
pub open spec fn first_in_stmt(f: CallFacts, locals: Seq<String>, inst: InstancesV, depth: nat, s: TypedStmt) -> Option<Seq<char>>
    decreases s, 0int,
{
    match s.kind {
        TypedStmtKind::Let { value, .. } => described(f, locals, inst, depth, value),
        TypedStmtKind::Assign { value, .. } => described(f, locals, inst, depth, value),
        TypedStmtKind::AssignField { value, .. } => described(f, locals, inst, depth, value),
        TypedStmtKind::ExprStmt(value) => described(f, locals, inst, depth, value),
        TypedStmtKind::Return(value) => described(f, locals, inst, depth, value),
        TypedStmtKind::Print { value, .. } => described(f, locals, inst, depth, value),
        TypedStmtKind::If { cond, then_block, else_block } => match described(f, locals, inst, depth, cond) {
            Some(d) => Some(d),
            None => match first_in_body(f, locals, inst, depth, then_block@) {
                Some(d) => Some(d),
                None => match else_block {
                    Some(b) => first_in_body(f, locals, inst, depth, b@),
                    None => None,
                },
            },
        },
        TypedStmtKind::While { body, .. } => first_in_body(f, locals, inst, depth, body@),
        TypedStmtKind::Region { body, .. } => first_in_body(f, locals, inst, depth, body@),
        TypedStmtKind::Release { body } => first_in_body(f, locals, inst, depth, body@),
        TypedStmtKind::For { body, .. } => first_in_body(f, locals, inst, depth, body@),
        TypedStmtKind::ForRange { body, .. } => first_in_body(f, locals, inst, depth, body@),
        TypedStmtKind::Match { arms, .. } => first_in_arms(f, locals, inst, depth, arms@),
        _ => None,
    }
}

/// The first allocation the statements of a body name, in order.
pub open spec fn first_in_body(f: CallFacts, locals: Seq<String>, inst: InstancesV, depth: nat, stmts: Seq<TypedStmt>) -> Option<Seq<char>>
    decreases stmts, 0int,
{
    if stmts.len() == 0 {
        None
    } else {
        match first_in_stmt(f, locals, inst, depth, stmts[0]) {
            Some(d) => Some(d),
            None => first_in_body(f, locals, inst, depth, stmts.skip(1)),
        }
    }
}

/// The first allocation the arms of a `match` name, arm by arm.
pub open spec fn first_in_arms(f: CallFacts, locals: Seq<String>, inst: InstancesV, depth: nat, arms: Seq<TypedArm>) -> Option<Seq<char>>
    decreases arms, 0int,
{
    if arms.len() == 0 {
        None
    } else {
        match first_in_body(f, locals, inst, depth, arms[0].body@) {
            Some(d) => Some(d),
            None => first_in_arms(f, locals, inst, depth, arms.skip(1)),
        }
    }
}

/// An answer as a list of none or one.
pub open spec fn listed_once(o: Option<Seq<char>>) -> Seq<Seq<char>> {
    match o {
        Some(d) => seq![d],
        None => Seq::empty(),
    }
}

/// Every allocation a body names, in source order: for each statement, what it names first and
/// then what the blocks it holds name.
pub open spec fn collected(f: CallFacts, locals: Seq<String>, inst: InstancesV, depth: nat, stmts: Seq<TypedStmt>) -> Seq<Seq<char>>
    decreases stmts, 1int,
{
    if stmts.len() == 0 {
        Seq::empty()
    } else {
        listed_once(first_in_stmt(f, locals, inst, depth, stmts[0])) + nested(f, locals, inst, depth, stmts[0])
            + collected(f, locals, inst, depth, stmts.skip(1))
    }
}

/// What the blocks a statement holds name.
pub open spec fn nested(f: CallFacts, locals: Seq<String>, inst: InstancesV, depth: nat, s: TypedStmt) -> Seq<Seq<char>>
    decreases s, 1int,
{
    match s.kind {
        TypedStmtKind::If { then_block, else_block, .. } => collected(f, locals, inst, depth, then_block@) + match else_block {
            Some(b) => collected(f, locals, inst, depth, b@),
            None => Seq::empty(),
        },
        TypedStmtKind::While { body, .. } => collected(f, locals, inst, depth, body@),
        TypedStmtKind::Region { body, .. } => collected(f, locals, inst, depth, body@),
        TypedStmtKind::Release { body } => collected(f, locals, inst, depth, body@),
        TypedStmtKind::For { body, .. } => collected(f, locals, inst, depth, body@),
        TypedStmtKind::ForRange { body, .. } => collected(f, locals, inst, depth, body@),
        TypedStmtKind::Match { arms, .. } => collected_arms(f, locals, inst, depth, arms@),
        _ => Seq::empty(),
    }
}

/// What the bodies of the arms of a `match` name, arm by arm.
pub open spec fn collected_arms(f: CallFacts, locals: Seq<String>, inst: InstancesV, depth: nat, arms: Seq<TypedArm>) -> Seq<Seq<char>>
    decreases arms, 1int,
{
    if arms.len() == 0 {
        Seq::empty()
    } else {
        collected(f, locals, inst, depth, arms[0].body@) + collected_arms(f, locals, inst, depth, arms.skip(1))
    }
}

/// The list with every repeat after the first dropped.
pub open spec fn first_occurrences(s: Seq<Seq<char>>) -> Seq<Seq<char>>
    decreases s.len(),
{
    if s.len() == 0 {
        Seq::empty()
    } else {
        let d = first_occurrences(s.drop_last());
        if d.contains(s.last()) { d } else { d.push(s.last()) }
    }
}

/// Whether the expression is region storage while a body is checked: see [`builds`].
pub fn expr_allocates(facts: &CallFacts, locals: &Vec<String>, e: &TypedExpr) -> (r: bool)
    ensures
        r == builds(*facts, locals@, *e),
    decreases e, 1int,
{
    match &e.kind {
        TypedExprKind::SliceLit(_) | TypedExprKind::Push { .. } | TypedExprKind::ReadFile(_)
        | TypedExprKind::CStringAt(_) | TypedExprKind::CBytesAt { .. } | TypedExprKind::ByteAsString(_)
        | TypedExprKind::Substring { .. } => true,
        TypedExprKind::Call { name, arguments } => {
            has_name(&facts.alloc_fns, name) || relays_any(facts, locals, name, arguments)
        },
        TypedExprKind::MethodCall { receiver, method, base, arguments, .. } => {
            has_pair(&facts.alloc_methods, receiver, method)
                || (has_triple(&facts.relay_methods, receiver, method, 0) && expr_allocates(facts, locals, base))
                || method_relays_any(facts, locals, receiver, method, arguments)
        },
        TypedExprKind::DynCall { interface_name, method, base, arguments, .. } => {
            dyn_call_allocates(facts, interface_name, method)
                || (dyn_call_relays(facts, interface_name, method, 0) && expr_allocates(facts, locals, base))
                || dyn_relays_any(facts, locals, interface_name, method, arguments)
        },
        TypedExprKind::DynCoerce { var, .. } => has_name(locals, var),
        TypedExprKind::Try { value, .. } => expr_allocates(facts, locals, value),
        TypedExprKind::Arg(_) => true,
        TypedExprKind::ToString(v) => match v.ty {
            Type::Bool => false,
            _ => true,
        },
        TypedExprKind::Binary { op, lhs, rhs } => {
            let both_strings = match (&lhs.ty, &rhs.ty) {
                (Type::String, Type::String) => true,
                _ => false,
            };
            if *op == BinOp::Add && both_strings {
                true
            } else {
                expr_allocates(facts, locals, lhs) || expr_allocates(facts, locals, rhs)
            }
        },
        TypedExprKind::Neg(i) | TypedExprKind::Not(i) => expr_allocates(facts, locals, i),
        TypedExprKind::StructLit { fields: items, .. } | TypedExprKind::VariantLit { arguments: items, .. }
        | TypedExprKind::ArrayLit(items) => any_allocates(facts, locals, items),
        TypedExprKind::Var(name) => has_name(locals, name),
        TypedExprKind::Field { base, .. } | TypedExprKind::Index { base, .. } | TypedExprKind::SliceIndex { base, .. } => {
            may_be_region_storage(&facts.layouts, &e.ty) && expr_allocates(facts, locals, base)
        },
        _ => false,
    }
}

fn any_allocates(facts: &CallFacts, locals: &Vec<String>, es: &Vec<TypedExpr>) -> (r: bool)
    ensures
        r == any_builds(*facts, locals@, es@),
    decreases es, 0int,
{
    assert(es@.skip(0) =~= es@);
    let mut i: usize = 0;
    while i < es.len()
        invariant
            0 <= i <= es@.len(),
            any_builds(*facts, locals@, es@) == any_builds(*facts, locals@, es@.skip(i as int)),
        decreases es.len() - i,
    {
        proof {
            assert(es@.skip(i as int).skip(1) =~= es@.skip(i + 1));
            assert(es@.skip(i as int)[0] == es@[i as int]);
            assert(decreases_to!(es => es@[i as int]));
        }
        if expr_allocates(facts, locals, &es[i]) {
            return true;
        }
        i = i + 1;
    }
    false
}

fn relays_any(facts: &CallFacts, locals: &Vec<String>, name: &String, es: &Vec<TypedExpr>) -> (r: bool)
    ensures
        r == relays_built(*facts, locals@, name@, es@, 0),
    decreases es, 0int,
{
    assert(es@.skip(0) =~= es@);
    let mut i: usize = 0;
    while i < es.len()
        invariant
            0 <= i <= es@.len(),
            relays_built(*facts, locals@, name@, es@, 0) == relays_built(*facts, locals@, name@, es@.skip(i as int), i as int),
        decreases es.len() - i,
    {
        proof {
            assert(es@.skip(i as int).skip(1) =~= es@.skip(i + 1));
            assert(es@.skip(i as int)[0] == es@[i as int]);
            assert(decreases_to!(es => es@[i as int]));
        }
        if has_index(&facts.relay_params, name, i) && expr_allocates(facts, locals, &es[i]) {
            return true;
        }
        i = i + 1;
    }
    false
}

fn method_relays_any(facts: &CallFacts, locals: &Vec<String>, receiver: &String, method: &String, es: &Vec<TypedExpr>) -> (r: bool)
    ensures
        r == method_relays_built(*facts, locals@, receiver@, method@, es@, 1),
    decreases es, 0int,
{
    assert(es@.skip(0) =~= es@);
    let mut i: usize = 0;
    while i < es.len()
        invariant
            0 <= i <= es@.len(),
            method_relays_built(*facts, locals@, receiver@, method@, es@, 1)
                == method_relays_built(*facts, locals@, receiver@, method@, es@.skip(i as int), i + 1),
        decreases es.len() - i,
    {
        proof {
            assert(es@.skip(i as int).skip(1) =~= es@.skip(i + 1));
            assert(es@.skip(i as int)[0] == es@[i as int]);
            assert(decreases_to!(es => es@[i as int]));
        }
        if has_triple(&facts.relay_methods, receiver, method, i + 1) && expr_allocates(facts, locals, &es[i]) {
            return true;
        }
        i = i + 1;
    }
    false
}

fn dyn_relays_any(facts: &CallFacts, locals: &Vec<String>, interface_name: &String, method: &String, es: &Vec<TypedExpr>) -> (r: bool)
    ensures
        r == dyn_relays_built(*facts, locals@, interface_name@, method@, es@, 1),
    decreases es, 0int,
{
    assert(es@.skip(0) =~= es@);
    let mut i: usize = 0;
    while i < es.len()
        invariant
            0 <= i <= es@.len(),
            dyn_relays_built(*facts, locals@, interface_name@, method@, es@, 1)
                == dyn_relays_built(*facts, locals@, interface_name@, method@, es@.skip(i as int), i + 1),
        decreases es.len() - i,
    {
        proof {
            assert(es@.skip(i as int).skip(1) =~= es@.skip(i + 1));
            assert(es@.skip(i as int)[0] == es@[i as int]);
            assert(decreases_to!(es => es@[i as int]));
        }
        if dyn_call_relays(facts, interface_name, method, i + 1) && expr_allocates(facts, locals, &es[i]) {
            return true;
        }
        i = i + 1;
    }
    false
}

/// A function's name as its author wrote it: the part before the first `$`, if there is one.
pub fn shown_fn_name(name: &String) -> (r: String)
    ensures
        r@ == shown_fn(name@),
{
    match generic_name(name) {
        Some(declared) => declared,
        None => name.clone(),
    }
}

/// A class's name as its author wrote it: an instantiation shown as its generic applied to its
/// arguments.
pub fn shown_type_name(symbol: &String, instances: &Instances) -> (r: String)
    ensures
        r@ == shown(TypeV::Named(symbol@), instances@, instances.count()),
{
    show(&Type::Named(symbol.clone()), instances)
}

/// A few words for the thing that allocates: see [`described`].
pub fn describe_allocation(facts: &CallFacts, locals: &Vec<String>, instances: &Instances, e: &TypedExpr) -> (r: Option<String>)
    ensures
        r matches Some(d) ==> described(*facts, locals@, instances@, instances.count(), *e) == Some(d@),
        r is None ==> described(*facts, locals@, instances@, instances.count(), *e) is None,
{
    if let TypedExprKind::DynCall { interface_name, method, .. } = &e.kind {
        let mut out = String::new();
        append(&mut out, "`.");
        append(&mut out, method.as_str());
        append(&mut out, "(...)` through a `dynamic ");
        append(&mut out, interface_name.as_str());
        append(&mut out, "` allocates — and the claim has to hold for EVERY implementation, so one that allocates is enough to break it");
        assert(out@ =~= "`."@ + method@ + "(...)` through a `dynamic "@ + interface_name@
            + "` allocates — and the claim has to hold for EVERY implementation, so one that allocates is enough to break it"@);
        return Some(out);
    }
    if !expr_allocates(facts, locals, e) {
        return None;
    }
    match &e.kind {
        TypedExprKind::Call { name, .. } => {
            let mut out = String::new();
            append(&mut out, "`");
            let shown_name = shown_fn_name(name);
            append(&mut out, shown_name.as_str());
            append(&mut out, "(...)` builds its answer in the caller's region");
            assert(out@ =~= "`"@ + shown_fn(name@) + "(...)` builds its answer in the caller's region"@);
            Some(out)
        },
        TypedExprKind::MethodCall { receiver, method, .. } => {
            let mut out = String::new();
            append(&mut out, "`");
            let shown_receiver = shown_type_name(receiver, instances);
            append(&mut out, shown_receiver.as_str());
            append(&mut out, ".");
            append(&mut out, method.as_str());
            append(&mut out, "(...)` builds its answer in the caller's region");
            assert(out@ =~= "`"@ + shown(TypeV::Named(receiver@), instances@, instances.count()) + "."@ + method@
                + "(...)` builds its answer in the caller's region"@);
            Some(out)
        },
        TypedExprKind::Binary { op, lhs, .. } => {
            let is_string = match &lhs.ty {
                Type::String => true,
                _ => false,
            };
            if *op == BinOp::Add && is_string {
                Some(String::from_str("joining two Strings builds a new one"))
            } else {
                None
            }
        },
        TypedExprKind::Substring { .. } => Some(String::from_str("`substring(...)` builds a new String")),
        TypedExprKind::ByteAsString(_) => Some(String::from_str("`byte_as_string(...)` builds a one-byte String")),
        TypedExprKind::ToString(_) => Some(String::from_str("`to_string(...)` builds a String")),
        TypedExprKind::ReadFile(_) => Some(String::from_str("`read_file(...)` builds a String")),
        TypedExprKind::CStringAt(_) => Some(String::from_str("`c_string_at(...)` copies C's bytes into a String")),
        TypedExprKind::CBytesAt { .. } => Some(String::from_str("`c_bytes_at(...)` copies C's bytes into an array")),
        TypedExprKind::SliceLit(_) => Some(String::from_str("a growable array is built here")),
        TypedExprKind::Push { .. } => Some(String::from_str("`push(...)` may grow the array")),
        _ => None,
    }
}

/// The first allocation a statement names: see [`first_in_stmt`].
#[verifier::loop_isolation(false)]
fn first_allocation_in_stmt(facts: &CallFacts, locals: &Vec<String>, instances: &Instances, stmt: &TypedStmt) -> (r: Option<String>)
    ensures
        r matches Some(d) ==> first_in_stmt(*facts, locals@, instances@, instances.count(), *stmt) == Some(d@),
        r is None ==> first_in_stmt(*facts, locals@, instances@, instances.count(), *stmt) is None,
    decreases stmt, 0int,
{
    match &stmt.kind {
        TypedStmtKind::Let { value, .. } | TypedStmtKind::Assign { value, .. } | TypedStmtKind::AssignField { value, .. }
        | TypedStmtKind::ExprStmt(value) | TypedStmtKind::Return(value) | TypedStmtKind::Print { value, .. } => {
            describe_allocation(facts, locals, instances, value)
        },
        TypedStmtKind::If { cond, then_block, else_block } => {
            match describe_allocation(facts, locals, instances, cond) {
                Some(d) => Some(d),
                None => match first_allocation(facts, locals, instances, then_block) {
                    Some(d) => Some(d),
                    None => match else_block {
                        Some(b) => first_allocation(facts, locals, instances, b),
                        None => None,
                    },
                },
            }
        },
        TypedStmtKind::While { body, .. } | TypedStmtKind::Region { body, .. } | TypedStmtKind::Release { body }
        | TypedStmtKind::For { body, .. } | TypedStmtKind::ForRange { body, .. } => {
            first_allocation(facts, locals, instances, body)
        },
        TypedStmtKind::Match { arms, .. } => {
            let ghost all = arms@;
            proof {
                assert(all.skip(0) =~= all);
            }
            let mut i: usize = 0;
            while i < arms.len()
                invariant
                    0 <= i <= all.len(),
                    all == arms@,
                    first_in_arms(*facts, locals@, instances@, instances.count(), all)
                        == first_in_arms(*facts, locals@, instances@, instances.count(), all.skip(i as int)),
                decreases arms.len() - i,
            {
                proof {
                    assert(all.skip(i as int).skip(1) =~= all.skip(i + 1));
                    assert(all.skip(i as int)[0] == all[i as int]);
                    assert(decreases_to!(arms => arms@[i as int]));
                    assert(decreases_to!(arms@[i as int] => arms@[i as int].body));
                }
                match first_allocation(facts, locals, instances, &arms[i].body) {
                    Some(d) => return Some(d),
                    None => {},
                }
                i = i + 1;
            }
            None
        },
        _ => None,
    }
}

/// The first thing in a body that allocates, described in a few words: it lets a refusal of
/// `allocates nothing` name the offending call rather than only say that there is one.
pub fn first_allocation(facts: &CallFacts, locals: &Vec<String>, instances: &Instances, body: &Vec<TypedStmt>) -> (r: Option<String>)
    ensures
        r matches Some(d) ==> first_in_body(*facts, locals@, instances@, instances.count(), body@) == Some(d@),
        r is None ==> first_in_body(*facts, locals@, instances@, instances.count(), body@) is None,
    decreases body, 0int,
{
    let ghost all = body@;
    proof {
        assert(all.skip(0) =~= all);
    }
    let mut i: usize = 0;
    while i < body.len()
        invariant
            0 <= i <= all.len(),
            all == body@,
            first_in_body(*facts, locals@, instances@, instances.count(), all)
                == first_in_body(*facts, locals@, instances@, instances.count(), all.skip(i as int)),
        decreases body.len() - i,
    {
        proof {
            assert(all.skip(i as int).skip(1) =~= all.skip(i + 1));
            assert(all.skip(i as int)[0] == all[i as int]);
            assert(decreases_to!(body => body@[i as int]));
        }
        match first_allocation_in_stmt(facts, locals, instances, &body[i]) {
            Some(d) => return Some(d),
            None => {},
        }
        i = i + 1;
    }
    None
}

/// Appends every allocation a body names, in source order: see [`collected`].
#[verifier::loop_isolation(false)]
pub(crate) fn collect_allocations(facts: &CallFacts, locals: &Vec<String>, instances: &Instances, body: &Vec<TypedStmt>, into: &mut Vec<String>)
    ensures
        view_names(final(into)@) == view_names(old(into)@) + collected(*facts, locals@, instances@, instances.count(), body@),
    decreases body, 1int,
{
    let ghost all = body@;
    let ghost start = view_names(into@);
    let ghost d = instances.count();
    proof {
        assert(all.skip(0) =~= all);
        assert(start + collected(*facts, locals@, instances@, d, all) =~= view_names(into@)
            + collected(*facts, locals@, instances@, d, all.skip(0)));
    }
    let mut i: usize = 0;
    while i < body.len()
        invariant
            0 <= i <= all.len(),
            all == body@,
            d == instances.count(),
            start + collected(*facts, locals@, instances@, d, all)
                == view_names(into@) + collected(*facts, locals@, instances@, d, all.skip(i as int)),
        decreases body.len() - i,
    {
        let ghost here = view_names(into@);
        let s = &body[i];
        proof {
            assert(all.skip(i as int).skip(1) =~= all.skip(i + 1));
            assert(all.skip(i as int)[0] == all[i as int]);
            assert(decreases_to!(body => body@[i as int]));
        }
        match first_allocation_in_stmt(facts, locals, instances, s) {
            Some(found) => {
                into.push(found);
            },
            None => {},
        }
        assert(view_names(into@) =~= here + listed_once(first_in_stmt(*facts, locals@, instances@, d, *s)));
        let ghost mid = view_names(into@);
        match &s.kind {
            TypedStmtKind::If { then_block, else_block, .. } => {
                collect_allocations(facts, locals, instances, then_block, into);
                match else_block {
                    Some(other) => collect_allocations(facts, locals, instances, other, into),
                    None => {},
                }
            },
            TypedStmtKind::While { body: inner, .. } | TypedStmtKind::Region { body: inner, .. }
            | TypedStmtKind::Release { body: inner } | TypedStmtKind::For { body: inner, .. }
            | TypedStmtKind::ForRange { body: inner, .. } => {
                collect_allocations(facts, locals, instances, inner, into);
            },
            TypedStmtKind::Match { arms, .. } => {
                let ghost arms_all = arms@;
                proof {
                    assert(arms_all.skip(0) =~= arms_all);
                    assert(mid + collected_arms(*facts, locals@, instances@, d, arms_all) =~= view_names(into@)
                        + collected_arms(*facts, locals@, instances@, d, arms_all.skip(0)));
                }
                let mut k: usize = 0;
                while k < arms.len()
                    invariant
                        0 <= k <= arms_all.len(),
                        arms_all == arms@,
                        d == instances.count(),
                        mid + collected_arms(*facts, locals@, instances@, d, arms_all)
                            == view_names(into@) + collected_arms(*facts, locals@, instances@, d, arms_all.skip(k as int)),
                    decreases arms.len() - k,
                {
                    let ghost at = view_names(into@);
                    proof {
                        assert(arms_all.skip(k as int).skip(1) =~= arms_all.skip(k + 1));
                        assert(arms_all.skip(k as int)[0] == arms_all[k as int]);
                        assert(decreases_to!(arms => arms@[k as int]));
                        assert(decreases_to!(arms@[k as int] => arms@[k as int].body));
                    }
                    collect_allocations(facts, locals, instances, &arms[k].body, into);
                    assert(at + collected_arms(*facts, locals@, instances@, d, arms_all.skip(k as int))
                        =~= view_names(into@) + collected_arms(*facts, locals@, instances@, d, arms_all.skip(k + 1)));
                    k = k + 1;
                }
                assert(view_names(into@) + collected_arms(*facts, locals@, instances@, d, arms_all.skip(k as int))
                    =~= view_names(into@));
            },
            _ => {},
        }
        assert(view_names(into@) =~= mid + nested(*facts, locals@, instances@, d, *s));
        assert(here + collected(*facts, locals@, instances@, d, all.skip(i as int))
            =~= view_names(into@) + collected(*facts, locals@, instances@, d, all.skip(i + 1)));
        i = i + 1;
    }
    assert(view_names(into@) + collected(*facts, locals@, instances@, d, all.skip(i as int)) =~= view_names(into@));
}

proof fn lemma_first_occurrences_head(s: Seq<Seq<char>>)
    ensures
        (first_occurrences(s).len() == 0) == (s.len() == 0),
        s.len() > 0 ==> first_occurrences(s)[0] == s[0],
    decreases s.len(),
{
    if s.len() > 0 {
        lemma_first_occurrences_head(s.drop_last());
        if s.len() == 1 {
            assert(s.drop_last().len() == 0);
        } else {
            assert(s.drop_last()[0] == s[0]);
        }
    }
}

proof fn lemma_stmt_agrees(f: CallFacts, locals: Seq<String>, inst: InstancesV, depth: nat, s: TypedStmt)
    ensures
        first_in_stmt(f, locals, inst, depth, s) is None ==> nested(f, locals, inst, depth, s).len() == 0,
    decreases s, 0int,
{
    match s.kind {
        TypedStmtKind::If { then_block, else_block, .. } => {
            lemma_body_agrees(f, locals, inst, depth, then_block@);
            match else_block {
                Some(b) => lemma_body_agrees(f, locals, inst, depth, b@),
                None => {},
            }
        },
        TypedStmtKind::While { body, .. } | TypedStmtKind::Region { body, .. } | TypedStmtKind::Release { body }
        | TypedStmtKind::For { body, .. } | TypedStmtKind::ForRange { body, .. } => {
            lemma_body_agrees(f, locals, inst, depth, body@);
        },
        TypedStmtKind::Match { arms, .. } => {
            lemma_arms_agree(f, locals, inst, depth, arms@);
        },
        _ => {},
    }
}

proof fn lemma_body_agrees(f: CallFacts, locals: Seq<String>, inst: InstancesV, depth: nat, stmts: Seq<TypedStmt>)
    ensures
        (first_in_body(f, locals, inst, depth, stmts) is None) == (collected(f, locals, inst, depth, stmts).len() == 0),
        first_in_body(f, locals, inst, depth, stmts) matches Some(d) ==> collected(f, locals, inst, depth, stmts)[0] == d,
    decreases stmts, 0int,
{
    if stmts.len() > 0 {
        lemma_stmt_agrees(f, locals, inst, depth, stmts[0]);
        lemma_body_agrees(f, locals, inst, depth, stmts.skip(1));
    }
}

proof fn lemma_arms_agree(f: CallFacts, locals: Seq<String>, inst: InstancesV, depth: nat, arms: Seq<TypedArm>)
    ensures
        (first_in_arms(f, locals, inst, depth, arms) is None) == (collected_arms(f, locals, inst, depth, arms).len() == 0),
        first_in_arms(f, locals, inst, depth, arms) matches Some(d) ==> collected_arms(f, locals, inst, depth, arms)[0] == d,
    decreases arms, 0int,
{
    if arms.len() > 0 {
        lemma_body_agrees(f, locals, inst, depth, arms[0].body@);
        lemma_arms_agree(f, locals, inst, depth, arms.skip(1));
    }
}

/// The refusal of `allocates nothing` and the memory report describe a body the same way: the
/// first allocation a body names is the first the report lists, and a body names none exactly
/// when the report lists none.
pub proof fn lemma_first_is_listed_first(f: CallFacts, locals: Seq<String>, inst: InstancesV, depth: nat, stmts: Seq<TypedStmt>)
    ensures
        first_in_body(f, locals, inst, depth, stmts) == {
            let listed = first_occurrences(collected(f, locals, inst, depth, stmts));
            if listed.len() == 0 { None } else { Some(listed[0]) }
        },
{
    lemma_body_agrees(f, locals, inst, depth, stmts);
    lemma_first_occurrences_head(collected(f, locals, inst, depth, stmts));
}

/// The memory report names each cause once: no entry repeats, and every cause the walk names is
/// listed.
pub proof fn lemma_listed_once(s: Seq<Seq<char>>)
    ensures
        forall|i: int, j: int| 0 <= i < j < first_occurrences(s).len() ==> first_occurrences(s)[i] != first_occurrences(s)[j],
        forall|x: Seq<char>| first_occurrences(s).contains(x) <==> s.contains(x),
    decreases s.len(),
{
    if s.len() > 0 {
        lemma_listed_once(s.drop_last());
        let d = first_occurrences(s.drop_last());
        assert forall|x: Seq<char>| first_occurrences(s).contains(x) <==> s.contains(x) by {
            if s.contains(x) && x != s.last() {
                let k = choose|k: int| 0 <= k < s.len() && s[k] == x;
                assert(s.drop_last()[k] == x);
            }
            if s.drop_last().contains(x) {
                let k = choose|k: int| 0 <= k < s.drop_last().len() && s.drop_last()[k] == x;
                assert(s[k] == x);
            }
            if !d.contains(s.last()) && first_occurrences(s).contains(x) && x != s.last() {
                let k = choose|k: int| 0 <= k < first_occurrences(s).len() && first_occurrences(s)[k] == x;
                assert(d[k] == x);
            }
            if first_occurrences(s).contains(x) && x == s.last() {
                assert(s[s.len() - 1] == x);
            }
            if !d.contains(s.last()) && d.contains(x) {
                let k = choose|k: int| 0 <= k < d.len() && d[k] == x;
                assert(first_occurrences(s)[k] == x);
            }
            if !d.contains(s.last()) && x == s.last() {
                assert(first_occurrences(s)[d.len() as int] == x);
            }
        }
    }
}

} // verus!
