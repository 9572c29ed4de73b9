//! `let`: a new name in scope, never one already there.
use vstd::prelude::*;
use crate::arith::{needs_region_text, storable, storable_spec};
use crate::generics::{Instances, InstancesV, show, shown};
use crate::messages::{needs_region, shadows_a_const, shadows_text};
use crate::names::NameMap;
use crate::release::listed;
use crate::storage::{class_depth, region_allocated, region_resident};
use crate::ty::{Type, TypeV, append, type_text};
use crate::typed::{TypedExpr, TypedStmtKind};
use crate::validity::{Packages, TypeNames, type_validity, validate_type};

verus! {

/// The refusal of a `let` of a name already in scope.
pub open spec fn already_declared_text(n: Seq<char>) -> Seq<char> {
    "`"@ + n + "` is already declared — Burxt does not allow shadowing; a second `let "@ + n
        + "` would silently hide the first. Use a new name, or `"@ + n + " = ...` if it was declared `let mutable`."@
}

/// What `let name[: declared] = value` binds, or the refusal, given the constants (`consts`,
/// each with its type), the variables in scope (`env`), the type tables, whether a region is open,
/// whether the value is written as an array literal, and the outcome of checking the value
/// (against `declared` when there is one). The answer is the type the name is bound at and the
/// checked value. A name a constant or a variable already has is refused; a declared type must be
/// valid, may hold a growable array only where a region is open, and, for a fixed array, must be
/// given an array literal; the value must be storable at the declared type. Without a declared
/// type, the name takes the value's type.
pub open spec fn let_rule(
    consts: Map<Seq<char>, TypeV>,
    env: Map<Seq<char>, (TypeV, bool)>,
    names: TypeNames,
    packages: Packages,
    at: usize,
    inst: InstancesV,
    depth: nat,
    has_region: bool,
    name: Seq<char>,
    declared: Option<TypeV>,
    array_literal: bool,
    value: Result<TypedExpr, String>,
) -> Result<(TypeV, TypedExpr), Seq<char>> {
    let d = names.layouts@;
    let fuel = class_depth(names.layouts);
    if consts.contains_key(name) {
        Err(shadows_text(name, consts[name]))
    } else if env.contains_key(name) {
        Err(already_declared_text(name))
    } else {
        match declared {
            Some(t) => match type_validity(names, packages, at, t) {
                Err(m) => Err(m),
                Ok(_) => if region_resident(d, t, fuel) && !has_region {
                    Err(needs_region_text("`let "@ + name + ": "@ + type_text(t) + "` holds a growable array, which lives in a region"@))
                } else if t is Array && !array_literal {
                    Err("`let "@ + name + ": "@ + type_text(t)
                        + "` must be initialized with an array literal, e.g. [1, 2, 3] — copying a whole array is deferred."@)
                } else {
                    match value {
                        Err(m) => Err(m@),
                        Ok(v) => if !storable_spec(v.ty@, t) {
                            Err("type mismatch in `let "@ + name + "`: declared "@ + shown(t, inst, depth) + ", but expression has type "@
                                + shown(v.ty@, inst, depth))
                        } else {
                            Ok((t, v))
                        },
                    }
                },
            },
            None => match value {
                Err(m) => Err(m@),
                Ok(v) => if region_resident(d, v.ty@, fuel) && !has_region {
                    Err(needs_region_text("`let "@ + name + " = ...` holds a growable array ("@ + type_text(v.ty@) + "), which lives in a region"@))
                } else {
                    Ok((v.ty@, v))
                },
            },
        }
    }
}

/// Checks `let [mutable] name[: declared] = value`: see [`let_rule`]. `value` is the outcome of
/// checking the value against the declared type when there is one, on its own otherwise; only
/// looked at once the name and the declared type have passed. On success the name is bound in
/// `env` at the answer's type with its `mutable`, and nothing else in `env` changes; on a refusal
/// `env` is as it was. Interfaces the declared type names are recorded in `dyn_interfaces`.
pub fn check_let(
    consts: &NameMap<Type>,
    env: &mut NameMap<(Type, bool)>,
    names: &TypeNames,
    packages: &Packages,
    at: usize,
    dyn_interfaces: &mut Vec<String>,
    instances: &Instances,
    has_region: bool,
    name: &String,
    mutable: bool,
    declared: Option<&Type>,
    array_literal: bool,
    value: Result<TypedExpr, String>,
) -> (r: Result<TypedStmtKind, String>)
    ensures
        match let_rule(consts@, old(env)@, *names, *packages, at, instances@, instances.count(), has_region, name@,
            match declared { Some(t) => Some(t@), None => None }, array_literal, value) {
            Ok((t, v)) => (r matches Ok(TypedStmtKind::Let { name: n, ty, value: tv }) && n@ == name@ && ty@ == t && tv == v)
                && final(env)@ == old(env)@.insert(name@, (t, mutable)),
            Err(m) => (r matches Err(e) && e@ == m) && final(env)@ == old(env)@,
        },
        (consts@.contains_key(name@) || old(env)@.contains_key(name@) || declared is None)
            ==> final(dyn_interfaces)@ == old(dyn_interfaces)@,
        (declared matches Some(t) && type_validity(*names, *packages, at, t@) is Ok
            && !consts@.contains_key(name@) && !old(env)@.contains_key(name@))
            ==> forall|n: Seq<char>| #[trigger] listed(final(dyn_interfaces)@, n) == (listed(old(dyn_interfaces)@, n)
                || type_validity(*names, *packages, at, declared->Some_0@)->Ok_0.contains(n)),
{
    if let Some(m) = shadows_a_const(consts, name) {
        return Err(m);
    }
    if env.get(name).is_some() {
        let mut out = String::new();
        append(&mut out, "`");
        append(&mut out, name.as_str());
        append(&mut out, "` is already declared — Burxt does not allow shadowing; a second `let ");
        append(&mut out, name.as_str());
        append(&mut out, "` would silently hide the first. Use a new name, or `");
        append(&mut out, name.as_str());
        append(&mut out, " = ...` if it was declared `let mutable`.");
        assert(out@ =~= already_declared_text(name@));
        return Err(out);
    }
    let (bound, typed) = match declared {
        Some(t) => {
            match validate_type(names, packages, at, dyn_interfaces, t) {
                Ok(()) => {},
                Err(m) => return Err(m),
            }
            if region_allocated(&names.layouts, t) && !has_region {
                let mut what = String::new();
                append(&mut what, "`let ");
                append(&mut what, name.as_str());
                append(&mut what, ": ");
                t.write_text(&mut what);
                append(&mut what, "` holds a growable array, which lives in a region");
                return Err(needs_region(what.as_str()));
            }
            proof {
                crate::ty::lemma_view_variant(*t);
            }
            if matches!(t, Type::Array { .. }) && !array_literal {
                let mut out = String::new();
                append(&mut out, "`let ");
                append(&mut out, name.as_str());
                append(&mut out, ": ");
                t.write_text(&mut out);
                append(&mut out, "` must be initialized with an array literal, e.g. [1, 2, 3] — copying a whole array is deferred.");
                return Err(out);
            }
            let v = match value {
                Ok(v) => v,
                Err(m) => return Err(m),
            };
            if !storable(&v.ty, t) {
                let mut out = String::new();
                append(&mut out, "type mismatch in `let ");
                append(&mut out, name.as_str());
                append(&mut out, "`: declared ");
                let want = show(t, instances);
                append(&mut out, want.as_str());
                append(&mut out, ", but expression has type ");
                let have = show(&v.ty, instances);
                append(&mut out, have.as_str());
                return Err(out);
            }
            (t.duplicate(), v)
        },
        None => {
            let v = match value {
                Ok(v) => v,
                Err(m) => return Err(m),
            };
            if region_allocated(&names.layouts, &v.ty) && !has_region {
                let mut what = String::new();
                append(&mut what, "`let ");
                append(&mut what, name.as_str());
                append(&mut what, " = ...` holds a growable array (");
                v.ty.write_text(&mut what);
                append(&mut what, "), which lives in a region");
                return Err(needs_region(what.as_str()));
            }
            (v.ty.duplicate(), v)
        },
    };
    env.insert(name.clone(), (bound.duplicate(), mutable));
    Ok(TypedStmtKind::Let { name: name.clone(), ty: bound, value: typed })
}

/// A `let` never rebinds a name: when it is accepted, the name was free before (neither a
/// constant nor a variable in scope), and the type it is bound at can hold the value, which is
/// the declared type when there is one.
pub proof fn lemma_let_binds_a_fresh_name(
    consts: Map<Seq<char>, TypeV>,
    env: Map<Seq<char>, (TypeV, bool)>,
    names: TypeNames,
    packages: Packages,
    at: usize,
    inst: InstancesV,
    depth: nat,
    has_region: bool,
    name: Seq<char>,
    declared: Option<TypeV>,
    array_literal: bool,
    value: Result<TypedExpr, String>,
)
    requires
        let_rule(consts, env, names, packages, at, inst, depth, has_region, name, declared, array_literal, value) is Ok,
    ensures
        !consts.contains_key(name),
        !env.contains_key(name),
        ({
            let (t, v) = let_rule(consts, env, names, packages, at, inst, depth, has_region, name, declared, array_literal, value)->Ok_0;
            &&& value == Ok::<TypedExpr, String>(v)
            &&& storable_spec(v.ty@, t)
            &&& declared matches Some(d) ==> t == d
        }),
{
}

} // verus!
