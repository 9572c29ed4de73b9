//! `return tail f(...)`: a call that reuses the caller's frame, so it must look exactly like the
//! caller from the outside.
use vstd::prelude::*;
use crate::arith::{storable, storable_spec};
use crate::ast::{Expr, ExprKind};
use crate::expansion::{article, article_of};
use crate::messages::type_list;
use crate::names::NameMap;
use crate::release::{has_name, listed};
use crate::text::{nat_text, write_u64};
use crate::ty::{Type, TypeV, append, lemma_view_types, list_text, same_list, type_text, view_types};
use crate::typed::{TypedExpr, TypedStmtKind};

verus! {

/// Whether a value of this type travels in a register: an Int, a Bool, a String, a C `int` or a
/// Decimal.
pub open spec fn is_scalar(t: TypeV) -> bool {
    t is Int || t is Bool || t is String || t is CInt || t is Decimal
}

/// The refusal of a tail call between functions whose signatures differ.
pub open spec fn signature_mismatch_text(caller: Seq<char>, cps: Seq<TypeV>, ret: TypeV, name: Seq<char>, ps: Seq<TypeV>, cr: TypeV) -> Seq<char> {
    "a guaranteed tail call reuses this frame, so `"@ + caller + "` and `"@ + name + "` must have the SAME signature — `"@ + caller
        + "` takes ("@ + list_text(cps) + ") -> "@ + type_text(ret) + ", but `"@ + name + "` takes ("@ + list_text(ps) + ") -> "@
        + type_text(cr) + ". Use an ordinary `return` for a call that differs."@
}

/// The refusal of a call given a different number of arguments than its function takes.
pub open spec fn arity_text(name: Seq<char>, want: nat, given: nat) -> Seq<char> {
    "`"@ + name + "` takes "@ + nat_text(want) + " argument"@ + (if want == 1 { Seq::empty() } else { "s"@ }) + ", but "@ + nat_text(given)
        + (if given == 1 { " was"@ } else { " were"@ }) + " given"@
}

/// Which function `return tail e` calls, and the parameter types its arguments are checked
/// against; or the refusal. Asked inside a function answering `ret` whose own name and parameter
/// types are `signature`, with the region `region` open if any, `extern_names` the external
/// functions and `fns` every declared function's parameter types and answer. The call must leave
/// no region behind, go to a function of this program with exactly the caller's signature, pass
/// and answer only scalars, and pass as many arguments as that function takes.
pub open spec fn tail_target(
    ret: Option<TypeV>,
    signature: Option<(Seq<char>, Seq<TypeV>)>,
    e: Expr,
    region: Option<Seq<char>>,
    extern_names: Seq<String>,
    fns: Map<Seq<char>, (Seq<Type>, TypeV)>,
) -> Result<(Seq<char>, Seq<TypeV>), Seq<char>> {
    match ret {
        None => Err("`return` only makes sense inside a function"@),
        Some(r) => match signature {
            None => Err("a guaranteed tail call only makes sense inside a function"@),
            Some((caller, cps)) => match e.kind {
                ExprKind::Call { name, arguments } => match region {
                    Some(g) => Err("`return tail` cannot leave the region `"@ + g
                        + "`: the region is released on the way out, but a tail call never returns to do it, and the arguments may point into it. Move the call outside the region, or use an ordinary `return`."@),
                    None => if listed(extern_names, name@) {
                        Err("`"@ + name@
                            + "` is an `external function`, so Burxt cannot guarantee a tail call into it: the C side owns that ABI, and the width conversion Burxt does on the result has to happen after the call returns."@)
                    } else if !fns.contains_key(name@) {
                        Err("unknown function `"@ + name@ + "` — a guaranteed tail call needs a `function` declared in this program."@)
                    } else {
                        let ps = view_types(fns[name@].0);
                        let cr = fns[name@].1;
                        if cr != r || ps != cps {
                            Err(signature_mismatch_text(caller, cps, r, name@, ps, cr))
                        } else if !(forall|i: int| 0 <= i < ps.len() ==> is_scalar(#[trigger] ps[i])) || !is_scalar(r) {
                            Err("a guaranteed tail call is limited to scalar parameters and returns for now — `"@ + name@
                                + "` passes or returns an aggregate, which travels by hidden pointer into storage this frame owns. Use an ordinary `return`."@)
                        } else if arguments@.len() != ps.len() {
                            Err(arity_text(name@, ps.len(), arguments@.len()))
                        } else {
                            Ok((name@, ps))
                        }
                    },
                },
                _ => Err("`return tail` must be followed by a call"@),
            },
        },
    }
}

fn scalar(t: &Type) -> (r: bool)
    ensures
        r == is_scalar(t@),
{
    proof {
        crate::ty::lemma_view_variant(*t);
    }
    matches!(t, Type::Int | Type::Bool | Type::String | Type::CInt | Type::Decimal { .. })
}

fn signature_mismatch(caller: &String, cps: &Vec<Type>, ret: &Type, name: &String, ps: &Vec<Type>, cr: &Type) -> (r: String)
    ensures
        r@ == signature_mismatch_text(caller@, view_types(cps@), ret@, name@, view_types(ps@), cr@),
{
    let mut out = String::new();
    append(&mut out, "a guaranteed tail call reuses this frame, so `");
    append(&mut out, caller.as_str());
    append(&mut out, "` and `");
    append(&mut out, name.as_str());
    append(&mut out, "` must have the SAME signature — `");
    append(&mut out, caller.as_str());
    append(&mut out, "` takes (");
    let mine = type_list(cps);
    append(&mut out, mine.as_str());
    append(&mut out, ") -> ");
    ret.write_text(&mut out);
    append(&mut out, ", but `");
    append(&mut out, name.as_str());
    append(&mut out, "` takes (");
    let theirs = type_list(ps);
    append(&mut out, theirs.as_str());
    append(&mut out, ") -> ");
    cr.write_text(&mut out);
    append(&mut out, ". Use an ordinary `return` for a call that differs.");
    assert(out@ =~= signature_mismatch_text(caller@, view_types(cps@), ret@, name@, view_types(ps@), cr@));
    out
}

fn arity(name: &String, want: usize, given: usize) -> (r: String)
    ensures
        r@ == arity_text(name@, want as nat, given as nat),
{
    let mut out = String::new();
    append(&mut out, "`");
    append(&mut out, name.as_str());
    append(&mut out, "` takes ");
    write_u64(&mut out, want as u64);
    append(&mut out, " argument");
    if want != 1 {
        append(&mut out, "s");
    }
    append(&mut out, ", but ");
    write_u64(&mut out, given as u64);
    if given == 1 {
        append(&mut out, " was");
    } else {
        append(&mut out, " were");
    }
    append(&mut out, " given");
    assert(out@ =~= arity_text(name@, want as nat, given as nat));
    out
}

/// Settles which function `return tail e` calls: see [`tail_target`]. The answer is the callee's
/// name and its parameter types, which its arguments are then checked against.
pub fn tail_call_target(
    current_ret: &Option<Type>,
    signature: &Option<(String, Vec<Type>)>,
    e: &Expr,
    current_region: &Option<String>,
    extern_names: &Vec<String>,
    fns: &NameMap<(Vec<Type>, Type)>,
) -> (r: Result<(String, Vec<Type>), String>)
    ensures
        match tail_target(match current_ret { Some(t) => Some(t@), None => None },
            match signature { Some((c, ps)) => Some((c@, view_types(ps@))), None => None },
            *e, match current_region { Some(g) => Some(g@), None => None }, extern_names@, fns@) {
            Ok((n, ps)) => r matches Ok((name, parameters)) && name@ == n && view_types(parameters@) == ps,
            Err(m) => r matches Err(x) && x@ == m,
        },
{
    let ret = match current_ret {
        Some(t) => t,
        None => return Err(String::from_str("`return` only makes sense inside a function")),
    };
    let (caller, caller_params) = match signature {
        Some(s) => (&s.0, &s.1),
        None => return Err(String::from_str("a guaranteed tail call only makes sense inside a function")),
    };
    let (name, arguments) = match &e.kind {
        ExprKind::Call { name, arguments } => (name, arguments),
        _ => return Err(String::from_str("`return tail` must be followed by a call")),
    };
    if let Some(region) = current_region {
        let mut out = String::new();
        append(&mut out, "`return tail` cannot leave the region `");
        append(&mut out, region.as_str());
        append(&mut out, "`: the region is released on the way out, but a tail call never returns to do it, and the arguments may point into it. Move the call outside the region, or use an ordinary `return`.");
        return Err(out);
    }
    if has_name(extern_names, name) {
        let mut out = String::new();
        append(&mut out, "`");
        append(&mut out, name.as_str());
        append(&mut out, "` is an `external function`, so Burxt cannot guarantee a tail call into it: the C side owns that ABI, and the width conversion Burxt does on the result has to happen after the call returns.");
        return Err(out);
    }
    let (parameters, callee_ret) = match fns.get(name) {
        Some(entry) => (&entry.0, &entry.1),
        None => {
            let mut out = String::new();
            append(&mut out, "unknown function `");
            append(&mut out, name.as_str());
            append(&mut out, "` — a guaranteed tail call needs a `function` declared in this program.");
            return Err(out);
        },
    };
    proof {
        lemma_view_types(parameters@);
    }
    if !callee_ret.same(ret) || !same_list(parameters, caller_params) {
        return Err(signature_mismatch(caller, caller_params, ret, name, parameters, callee_ret));
    }
    let ghost ps = view_types(parameters@);
    let mut all_scalar = true;
    let mut i: usize = 0;
    while i < parameters.len()
        invariant
            0 <= i <= parameters@.len(),
            ps == view_types(parameters@),
            ps.len() == parameters@.len(),
            forall|q: int| 0 <= q < parameters@.len() ==> #[trigger] ps[q] == parameters@[q]@,
            all_scalar == (forall|q: int| 0 <= q < i ==> is_scalar(#[trigger] ps[q])),
        decreases parameters.len() - i,
    {
        let here = scalar(&parameters[i]);
        proof {
            assert(here == is_scalar(ps[i as int]));
            if here && all_scalar {
                assert forall|q: int| 0 <= q < i + 1 implies is_scalar(#[trigger] ps[q]) by {
                    if q < i {
                    }
                }
            }
        }
        if !here {
            all_scalar = false;
        }
        i = i + 1;
    }
    if !all_scalar || !scalar(ret) {
        let mut out = String::new();
        append(&mut out, "a guaranteed tail call is limited to scalar parameters and returns for now — `");
        append(&mut out, name.as_str());
        append(&mut out, "` passes or returns an aggregate, which travels by hidden pointer into storage this frame owns. Use an ordinary `return`.");
        return Err(out);
    }
    if arguments.len() != parameters.len() {
        return Err(arity(name, parameters.len(), arguments.len()));
    }
    Ok((name.clone(), crate::ty::duplicate_list(parameters)))
}

/// The arguments of a tail call to `name`, checked against its parameter types `wants`, as far as
/// the first that failed to check or cannot be passed where its parameter expects.
pub open spec fn tail_arguments(name: Seq<char>, wants: Seq<TypeV>, checked: Seq<Result<TypedExpr, String>>, n: nat) -> Result<Seq<TypedExpr>, Seq<char>>
    decreases n,
{
    if n == 0 {
        Ok(Seq::empty())
    } else {
        match tail_arguments(name, wants, checked, (n - 1) as nat) {
            Err(m) => Err(m),
            Ok(ts) => match checked[n - 1] {
                Err(m) => Err(m@),
                Ok(t) => if !storable_spec(t.ty@, wants[n - 1]) {
                    Err("`"@ + name + "` expects "@ + article(wants[n - 1]) + " "@ + type_text(wants[n - 1])
                        + " here, but this argument has type "@ + type_text(t.ty@))
                } else {
                    Ok(ts.push(t))
                },
            },
        }
    }
}

proof fn lemma_tail_refused(name: Seq<char>, wants: Seq<TypeV>, checked: Seq<Result<TypedExpr, String>>, n: nat, k: nat)
    requires
        n <= k,
        tail_arguments(name, wants, checked, n) is Err,
    ensures
        tail_arguments(name, wants, checked, k) == tail_arguments(name, wants, checked, n),
    decreases k - n,
{
    if k > n {
        lemma_tail_refused(name, wants, checked, n, (k - 1) as nat);
    }
}

/// The tail call itself, from the callee and its parameter types (see [`tail_call_target`]) and
/// its arguments, each already checked against the parameter it is passed to.
pub fn tail_call(name: String, parameters: &Vec<Type>, checked: Vec<Result<TypedExpr, String>>) -> (r: Result<TypedStmtKind, String>)
    requires
        checked@.len() == parameters@.len(),
    ensures
        match tail_arguments(name@, view_types(parameters@), checked@, checked@.len() as nat) {
            Ok(ts) => r matches Ok(TypedStmtKind::TailReturn { name: n, arguments: a }) && n@ == name@ && a@ == ts,
            Err(m) => r matches Err(x) && x@ == m,
        },
{
    proof {
        lemma_view_types(parameters@);
    }
    let ghost ws = view_types(parameters@);
    let ghost all = checked@;
    let count = checked.len();
    let mut rest = checked;
    let mut typed: Vec<TypedExpr> = Vec::new();
    let mut i: usize = 0;
    while rest.len() > 0
        invariant
            all == checked@,
            all.len() == count,
            count == parameters@.len(),
            ws == view_types(parameters@),
            ws.len() == parameters@.len(),
            forall|q: int| 0 <= q < parameters@.len() ==> #[trigger] ws[q] == parameters@[q]@,
            i + rest@.len() == all.len(),
            rest@ == all.skip(i as int),
            tail_arguments(name@, ws, all, i as nat) == Ok::<Seq<TypedExpr>, Seq<char>>(typed@),
        decreases rest.len(),
    {
        let c = rest.remove(0);
        proof {
            assert(c == all[i as int]);
            assert(rest@ =~= all.skip(i + 1));
        }
        let t = match c {
            Ok(t) => t,
            Err(m) => {
                proof {
                    lemma_tail_refused(name@, ws, all, (i + 1) as nat, all.len());
                }
                return Err(m);
            },
        };
        if !storable(&t.ty, &parameters[i]) {
            let mut out = String::new();
            append(&mut out, "`");
            append(&mut out, name.as_str());
            append(&mut out, "` expects ");
            append(&mut out, article_of(&parameters[i]));
            append(&mut out, " ");
            parameters[i].write_text(&mut out);
            append(&mut out, " here, but this argument has type ");
            t.ty.write_text(&mut out);
            proof {
                lemma_tail_refused(name@, ws, all, (i + 1) as nat, all.len());
            }
            return Err(out);
        }
        typed.push(t);
        i = i + 1;
    }
    Ok(TypedStmtKind::TailReturn { name, arguments: typed })
}

} // verus!
