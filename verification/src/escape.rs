//! `return value`: the value must be what the function answers, and may not carry storage out of
//! a `region` block this function opened, which releases at its closing brace.
use vstd::prelude::*;
use crate::allocation::{builds, expr_allocates};
use crate::arith::{storable, storable_spec};
use crate::relay::{RelayScope, RelaySource, record_relay, records, relay_sources, relays_param};
use crate::release::{CallFacts, index_listed, triple_listed};
use crate::storage::{fuel_for, holds_storage, may_be_region_storage};
use crate::ty::{Type, TypeV, append, type_text};
use crate::typed::{TypedExpr, TypedStmtKind};

verus! {

/// The refusal of a value built inside a `region` block that a `return` would carry out of it.
pub open spec fn escape_text(t: TypeV) -> Seq<char> {
    "cannot return this "@ + type_text(t)
        + ": it was built inside a `region` block, which releases at its closing brace, so its storage would not outlive the call. Move the allocation out of the `region` block, or return a scalar summary."@
}

/// What `return value` gives inside a function answering `ret` (`None` at the top level), with
/// the outcome of checking the value against `ret`, the names bound to storage built in the open
/// region (`locals`), and whether a region this function opened is open (`in_region`). A value
/// that is region storage built in that region cannot leave it; while probing it is let through,
/// because probing only learns what a body does.
pub open spec fn return_rule(
    f: CallFacts,
    locals: Seq<String>,
    probing: bool,
    ret: Option<TypeV>,
    in_region: bool,
    value: Result<TypedExpr, String>,
) -> Result<TypedExpr, Seq<char>> {
    match ret {
        None => Err("`return` only makes sense inside a function"@),
        Some(r) => match value {
            Err(m) => Err(m@),
            Ok(v) => if !storable_spec(v.ty@, r) {
                Err("this function returns "@ + type_text(r) + ", but the `return` expression has type "@ + type_text(v.ty@))
            } else if builds(f, locals, v) && holds_storage(f.layouts@, v.ty@, Seq::empty(), fuel_for(f.layouts)) && in_region && !probing {
                Err(escape_text(v.ty@))
            } else {
                Ok(v)
            },
        },
    }
}

/// Checks `return value`: see [`return_rule`]. `value` is the outcome of checking the value
/// against the function's answer type, looked at only inside a function. Every accepted value
/// is also offered to [`record_relay`], which, while probing, notes which of the function's
/// parameters (or its receiver) the value may hand back.
pub fn check_return(
    facts: &CallFacts,
    scope: &RelayScope,
    locals: &Vec<String>,
    probing: bool,
    receiver: &String,
    name: &String,
    current_ret: &Option<Type>,
    current_region: &Option<String>,
    value: Result<TypedExpr, String>,
    relay_params: &mut Vec<(String, usize)>,
    relay_methods: &mut Vec<(String, String, usize)>,
) -> (r: Result<TypedStmtKind, String>)
    requires
        value matches Ok(v) ==> forall|j: int| 0 <= j < relay_sources(*facts, *scope, v).len()
            ==> ((#[trigger] relay_sources(*facts, *scope, v)[j]) matches RelaySource::Parameter(i) ==> i < usize::MAX),
    ensures
        match return_rule(*facts, locals@, probing, match current_ret { Some(t) => Some(t@), None => None },
            current_region is Some, value) {
            Ok(v) => r == Ok::<TypedStmtKind, String>(TypedStmtKind::Return(v)),
            Err(m) => r matches Err(e) && e@ == m,
        },
        // What is offered to the relay record: the value, once it is known to fit the answer.
        ({
            let offered = match (current_ret, value) {
                (Some(t), Ok(v)) => storable_spec(v.ty@, t@) && records(*facts, probing, name@, v),
                _ => false,
            };
            &&& !offered ==> final(relay_params)@ == old(relay_params)@ && final(relay_methods)@ == old(relay_methods)@
            &&& offered ==> {
                let srcs = relay_sources(*facts, *scope, value->Ok_0);
                &&& forall|n: Seq<char>, k: int| #[trigger] index_listed(final(relay_params)@, n, k) == (index_listed(old(relay_params)@, n, k)
                    || (receiver@.len() == 0 && n == name@ && relays_param(srcs, k)))
                &&& forall|a: Seq<char>, b: Seq<char>, k: int| #[trigger] triple_listed(final(relay_methods)@, a, b, k) == (triple_listed(old(relay_methods)@, a, b, k)
                    || (receiver@.len() > 0 && a == receiver@ && b == name@ && (
                        (k == 0 && srcs.contains(RelaySource::Receiver)) || relays_param(srcs, k - 1))))
            }
        }),
{
    let ret = match current_ret {
        Some(t) => t,
        None => return Err(String::from_str("`return` only makes sense inside a function")),
    };
    let typed = match value {
        Ok(v) => v,
        Err(m) => return Err(m),
    };
    if !storable(&typed.ty, ret) {
        let mut out = String::new();
        append(&mut out, "this function returns ");
        ret.write_text(&mut out);
        append(&mut out, ", but the `return` expression has type ");
        typed.ty.write_text(&mut out);
        return Err(out);
    }
    if !(probing && may_be_region_storage(&facts.layouts, &typed.ty) && name.unicode_len() > 0) {
        proof {
            assert(!records(*facts, probing, name@, typed));
        }
    } else {
        record_relay(facts, scope, probing, receiver, name, &typed, relay_params, relay_methods);
    }
    if expr_allocates(facts, locals, &typed) && may_be_region_storage(&facts.layouts, &typed.ty)
        && current_region.is_some() && !probing {
        let mut out = String::new();
        append(&mut out, "cannot return this ");
        typed.ty.write_text(&mut out);
        append(&mut out, ": it was built inside a `region` block, which releases at its closing brace, so its storage would not outlive the call. Move the allocation out of the `region` block, or return a scalar summary.");
        return Err(out);
    }
    Ok(TypedStmtKind::Return(typed))
}

/// Storage built inside an open `region` block never leaves it by `return` (outside a probing
/// pass): an accepted return value fits the function's answer, and is not a value built in the
/// region whose type holds storage. In particular a String, a growable array or a handle built
/// there is always refused.
pub proof fn lemma_region_storage_never_returned(
    f: CallFacts,
    locals: Seq<String>,
    probing: bool,
    ret: Option<TypeV>,
    in_region: bool,
    value: Result<TypedExpr, String>,
)
    ensures
        return_rule(f, locals, probing, ret, in_region, value) matches Ok(v) ==> {
            &&& value == Ok::<TypedExpr, String>(v)
            &&& ret is Some
            &&& storable_spec(v.ty@, ret->Some_0)
            &&& !(in_region && !probing && builds(f, locals, v)
                && holds_storage(f.layouts@, v.ty@, Seq::empty(), fuel_for(f.layouts)))
        },
        value matches Ok(v) && in_region && !probing && builds(f, locals, v)
            && (v.ty@ is String || v.ty@ is Slice || v.ty@ is Handle)
            ==> return_rule(f, locals, probing, ret, in_region, value) is Err,
{
    match value {
        Ok(v) => {
            if v.ty@ is String || v.ty@ is Slice || v.ty@ is Handle {
                assert(holds_storage(f.layouts@, v.ty@, Seq::empty(), fuel_for(f.layouts)));
            }
        },
        Err(_) => {},
    }
}

} // verus!
