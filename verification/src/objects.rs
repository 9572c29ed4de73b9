//! Interface objects: a class value seen through an interface it implements.
//!
//! An interface object borrows the storage of the value it refers to, so it is made from a
//! variable, and only from a class that implements the interface.
use vstd::prelude::*;
use crate::allocation::shown_type_name;
use crate::ast::{Expr, ExprKind};
use crate::generics::{Instances, InstancesV, shown};
use crate::messages::{unknown_name, unknown_name_text};
use crate::names::NameMap;
use crate::release::{has_pair, pair_listed};
use crate::storage::{Layouts, LayoutsV};
use crate::ty::{Type, TypeV, append, type_text};
use crate::typed::{TypedExpr, TypedExprKind};
use crate::validity::is_record;

verus! {

/// What making a `dynamic iface` from `e` gives: the class behind it and the variable it
/// borrows, or the refusal. `env` gives each variable in scope its type and whether it is
/// `mutable`; `enums` and `impls` are the program's enums (with their variants' names) and its
/// `implement` declarations, interface first.
pub open spec fn coerce_answer(
    d: LayoutsV,
    inst: InstancesV,
    depth: nat,
    env: Map<Seq<char>, (TypeV, bool)>,
    enums: Seq<(String, Vec<String>)>,
    impls: Seq<(String, String)>,
    iface: Seq<char>,
    e: Expr,
) -> Result<(Seq<char>, Seq<char>), Seq<char>> {
    let shown_iface = shown(TypeV::Named(iface), inst, depth);
    match e.kind {
        ExprKind::Var(var) => if !env.contains_key(var@) {
            Err(unknown_name_text(enums, var@))
        } else {
            match env[var@].0 {
                TypeV::Named(c) => if is_record(d, c) {
                    if pair_listed(impls, iface, c) {
                        Ok((c, var@))
                    } else {
                        Err("`"@ + c + "` does not implement `"@ + shown_iface + "` — add `implement "@ + shown_iface + " for "@ + c
                            + " { ... }`."@)
                    }
                } else {
                    Err(not_a_class_text(var@, TypeV::Named(c), iface))
                },
                TypeV::Dyn(_) => Err("`"@ + var@
                    + "` is already an interface object; re-borrowing one is deferred until Burxt tracks borrows."@),
                other => Err(not_a_class_text(var@, other, iface)),
            }
        },
        _ => Err("a `dynamic "@ + shown_iface
            + "` must come from a variable — an interface object borrows the storage of the value it refers to, and an expression has none."@),
    }
}

/// The refusal of a variable whose type is not a class as an interface object.
pub open spec fn not_a_class_text(var: Seq<char>, t: TypeV, iface: Seq<char>) -> Seq<char> {
    "`"@ + var + "` has type "@ + type_text(t) + ", which cannot be a `dynamic "@ + iface
        + "` — only a class that implements the interface can."@
}

fn not_a_class(var: &String, t: &Type, iface: &String) -> (r: String)
    ensures
        r@ == not_a_class_text(var@, t@, iface@),
{
    let mut out = String::new();
    append(&mut out, "`");
    append(&mut out, var.as_str());
    append(&mut out, "` has type ");
    t.write_text(&mut out);
    append(&mut out, ", which cannot be a `dynamic ");
    append(&mut out, iface.as_str());
    append(&mut out, "` — only a class that implements the interface can.");
    assert(out@ =~= not_a_class_text(var@, t@, iface@));
    out
}

/// Makes a `dynamic interface_name` from `e` where one is expected: the interface object over
/// the class value in variable `e`, of type `dynamic interface_name`. Refused when `e` is not a
/// variable (an expression has no storage to borrow), when the variable is unknown, when it is
/// already an interface object, when its type is not a class, and when its class does not
/// implement the interface.
pub fn coerce_dyn(
    layouts: &Layouts,
    instances: &Instances,
    env: &NameMap<(Type, bool)>,
    enums: &Vec<(String, Vec<String>)>,
    impls: &Vec<(String, String)>,
    interface_name: &String,
    e: &Expr,
) -> (r: Result<TypedExpr, String>)
    ensures
        match coerce_answer(layouts@, instances@, instances.count(), env@, enums@, impls@, interface_name@, *e) {
            Ok((c, v)) => r matches Ok(t) && t.ty@ == TypeV::Dyn(interface_name@)
                && (t.kind matches TypedExprKind::DynCoerce { interface_name: i, concrete: k, var: w }
                && i@ == interface_name@ && k@ == c && w@ == v),
            Err(m) => r matches Err(x) && x@ == m,
        },
{
    let var = match &e.kind {
        ExprKind::Var(var) => var,
        _ => {
            let shown_iface = shown_type_name(interface_name, instances);
            let mut out = String::new();
            append(&mut out, "a `dynamic ");
            append(&mut out, shown_iface.as_str());
            append(&mut out, "` must come from a variable — an interface object borrows the storage of the value it refers to, and an expression has none.");
            return Err(out);
        },
    };
    let src_ty = match env.get(var) {
        Some(entry) => &entry.0,
        None => return Err(unknown_name(enums, var)),
    };
    let concrete = match src_ty {
        Type::Named(c) => {
            let known = match layouts.records.get(c) {
                Some(_) => true,
                None => layouts.made_records.get(c).is_some(),
            };
            if !known {
                return Err(not_a_class(var, src_ty, interface_name));
            }
            c
        },
        Type::Dyn(_) => {
            let mut out = String::new();
            append(&mut out, "`");
            append(&mut out, var.as_str());
            append(&mut out, "` is already an interface object; re-borrowing one is deferred until Burxt tracks borrows.");
            return Err(out);
        },
        _ => return Err(not_a_class(var, src_ty, interface_name)),
    };
    if !has_pair(impls, interface_name, concrete) {
        let shown_iface = shown_type_name(interface_name, instances);
        let mut out = String::new();
        append(&mut out, "`");
        append(&mut out, concrete.as_str());
        append(&mut out, "` does not implement `");
        append(&mut out, shown_iface.as_str());
        append(&mut out, "` — add `implement ");
        append(&mut out, shown_iface.as_str());
        append(&mut out, " for ");
        append(&mut out, concrete.as_str());
        append(&mut out, " { ... }`.");
        return Err(out);
    }
    Ok(TypedExpr {
        ty: Type::Dyn(interface_name.clone()),
        kind: TypedExprKind::DynCoerce {
            interface_name: interface_name.clone(),
            concrete: concrete.clone(),
            var: var.clone(),
        },
    })
}

} // verus!
