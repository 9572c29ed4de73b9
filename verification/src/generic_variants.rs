//! Building a variant of a generic enum: which instantiation it is, read from the context and
//! from the values it carries, and the variant built once that is known.
use vstd::prelude::*;
use crate::arith::{storable, storable_spec};
use crate::ast::{Expr, ExprKind};
use crate::compare::view_names;
use crate::expansion::{Expansion, expanded};
use crate::generics::{Instances, InstancesV, Tuples, TypeMap, mentions, mentions_param, subst, substitute, unified, unify};
use crate::inference::{extends, lemma_unified_extends};
use crate::members::{find_variant, no_variant_text, variant_position};
use crate::names::NameMap;
use crate::storage::{Layouts, LayoutsV, argument_map, bound_arguments, view_variants};
use crate::text::{nat_text, write_u64};
use crate::ty::{Type, TypeV, append, lemma_view_types, type_text, view_types};
use crate::typed::{TypedExpr, TypedExprKind};

verus! {

/// The bindings a generic variant starts from: the type arguments of what the context expects,
/// when that is this enum, as an instantiation already made or as an application written out.
pub open spec fn context_bindings(inst: InstancesV, e: Seq<char>, params: Seq<Seq<char>>, expected: Option<TypeV>) -> Map<Seq<char>, TypeV> {
    match expected {
        Some(TypeV::Named(want)) => if inst.contains_key(want) && inst[want].0 == e {
            bound_arguments(params, inst[want].1)
        } else {
            Map::empty()
        },
        Some(TypeV::Generic { name, arguments }) => if name == e { bound_arguments(params, arguments) } else { Map::empty() },
        _ => Map::empty(),
    }
}

/// The bindings after matching, in order, each of the first `n` payload slots whose declared type
/// mentions a parameter against the type its value has when checked on its own (`natural`).
pub open spec fn payload_bindings(
    e: Seq<char>,
    v: Seq<char>,
    payload: Seq<TypeV>,
    natural: Seq<Result<TypedExpr, String>>,
    m0: Map<Seq<char>, TypeV>,
    inst: InstancesV,
    tup: Map<Seq<char>, Seq<TypeV>>,
    depth: nat,
    n: nat,
) -> Result<Map<Seq<char>, TypeV>, Seq<char>>
    decreases n,
{
    if n == 0 {
        Ok(m0)
    } else {
        match payload_bindings(e, v, payload, natural, m0, inst, tup, depth, (n - 1) as nat) {
            Err(m) => Err(m),
            Ok(m) => if !mentions(payload[n - 1]) {
                Ok(m)
            } else {
                match natural[n - 1] {
                    Err(x) => Err(x@),
                    Ok(t) => match unified(payload[n - 1], t.ty@, m, inst, tup, depth) {
                        Ok(m2) => Ok(m2),
                        Err(why) => Err("in `"@ + e + "."@ + v + "`, payload "@ + nat_text(n) + ": "@ + why),
                    },
                }
            }
        }
    }
}

/// The first of the first `n` parameters that nothing binds.
pub open spec fn first_unbound(params: Seq<Seq<char>>, m: Map<Seq<char>, TypeV>, n: nat) -> Option<int>
    decreases n,
{
    if n == 0 {
        None
    } else {
        match first_unbound(params, m, (n - 1) as nat) {
            Some(k) => Some(k),
            None => if !m.contains_key(params[n - 1]) { Some(n - 1) } else { None },
        }
    }
}

/// The refusal of a variant whose parameter `p` nothing settles.
pub open spec fn unsettled_text(e: Seq<char>, v: Seq<char>, p: Seq<char>, payload_empty: bool) -> Seq<char> {
    let call = if payload_empty { e + "."@ + v } else { e + "."@ + v + "(...)"@ };
    "`"@ + e + "."@ + v + "` does not say what `"@ + p + "` is, and nothing here does. Give it a context that names `"@ + p
        + "`: return it from a function declared `-> "@ + e + "<"@ + p + ">`, annotate where it lands — `let x: "@ + e
        + "<...> = "@ + call + ";` — or pass it to something whose parameter says."@
}

/// What `E.v(...)` of generic enum `E` (declared with `params` and `vs`) settles, given `n_args`
/// values and the outcome of checking each on its own: the variant's tag, the type arguments in
/// the order of the parameters, and the bindings they were read from. The context is asked first,
/// then each payload value whose declared type mentions a parameter, in order; a parameter still
/// unbound after that is refused.
pub open spec fn variant_inference(
    inst: InstancesV,
    tup: Map<Seq<char>, Seq<TypeV>>,
    depth: nat,
    e: Seq<char>,
    params: Seq<Seq<char>>,
    vs: Seq<(Seq<char>, Seq<TypeV>)>,
    v: Seq<char>,
    n_args: nat,
    expected: Option<TypeV>,
    natural: Seq<Result<TypedExpr, String>>,
) -> Result<(int, Seq<TypeV>, Map<Seq<char>, TypeV>), Seq<char>> {
    match variant_position(vs, v) {
        None => Err(no_variant_text(e, vs, v)),
        Some(tag) => {
            let payload = vs[tag].1;
            if n_args != payload.len() {
                Err("`"@ + e + "."@ + v + "` carries "@ + nat_text(payload.len()) + " value(s), but "@ + nat_text(n_args)
                    + " were given"@)
            } else {
                match payload_bindings(e, v, payload, natural, context_bindings(inst, e, params, expected), inst, tup, depth, payload.len()) {
                    Err(m) => Err(m),
                    Ok(m) => match first_unbound(params, m, params.len()) {
                        Some(k) => Err(unsettled_text(e, v, params[k], payload.len() == 0)),
                        None => Ok((tag, Seq::new(params.len(), |i: int| m[params[i]]), m)),
                    },
                }
            }
        },
    }
}

proof fn lemma_bindings_refused(
    e: Seq<char>,
    v: Seq<char>,
    payload: Seq<TypeV>,
    natural: Seq<Result<TypedExpr, String>>,
    m0: Map<Seq<char>, TypeV>,
    inst: InstancesV,
    tup: Map<Seq<char>, Seq<TypeV>>,
    depth: nat,
    n: nat,
    k: nat,
)
    requires
        n <= k,
        payload_bindings(e, v, payload, natural, m0, inst, tup, depth, n) is Err,
    ensures
        payload_bindings(e, v, payload, natural, m0, inst, tup, depth, k) == payload_bindings(e, v, payload, natural, m0, inst, tup, depth, n),
    decreases k - n,
{
    if k > n {
        lemma_bindings_refused(e, v, payload, natural, m0, inst, tup, depth, n, (k - 1) as nat);
    }
}

proof fn lemma_unbound_stays(params: Seq<Seq<char>>, m: Map<Seq<char>, TypeV>, n: nat, k: nat)
    requires
        n <= k,
        first_unbound(params, m, n) is Some,
    ensures
        first_unbound(params, m, k) == first_unbound(params, m, n),
    decreases k - n,
{
    if k > n {
        lemma_unbound_stays(params, m, n, (k - 1) as nat);
    }
}

proof fn lemma_unbound_bounds(params: Seq<Seq<char>>, m: Map<Seq<char>, TypeV>, n: nat)
    ensures
        first_unbound(params, m, n) matches Some(k) ==> 0 <= k < n,
    decreases n,
{
    if n > 0 {
        lemma_unbound_bounds(params, m, (n - 1) as nat);
    }
}

fn context_map(instances: &Instances, enum_name: &String, parameters: &Vec<String>, expected: Option<&Type>) -> (r: TypeMap)
    ensures
        r@ == context_bindings(instances@, enum_name@, view_names(parameters@), match expected { Some(t) => Some(t@), None => None }),
{
    match expected {
        Some(Type::Named(want)) => match instances.get(want) {
            Some(found) => {
                if found.of == *enum_name {
                    argument_map(parameters, &found.arguments)
                } else {
                    NameMap::new()
                }
            },
            None => NameMap::new(),
        },
        Some(Type::Generic { name, arguments }) => {
            if *name == *enum_name {
                argument_map(parameters, arguments)
            } else {
                NameMap::new()
            }
        },
        _ => {
            proof {
                if let Some(t) = expected {
                    crate::ty::lemma_view_variant(*t);
                }
            }
            NameMap::new()
        },
    }
}

fn unsettled(enum_name: &String, variant: &String, p: &String, payload_empty: bool) -> (r: String)
    ensures
        r@ == unsettled_text(enum_name@, variant@, p@, payload_empty),
{
    let mut out = String::new();
    append(&mut out, "`");
    append(&mut out, enum_name.as_str());
    append(&mut out, ".");
    append(&mut out, variant.as_str());
    append(&mut out, "` does not say what `");
    append(&mut out, p.as_str());
    append(&mut out, "` is, and nothing here does. Give it a context that names `");
    append(&mut out, p.as_str());
    append(&mut out, "`: return it from a function declared `-> ");
    append(&mut out, enum_name.as_str());
    append(&mut out, "<");
    append(&mut out, p.as_str());
    append(&mut out, ">`, annotate where it lands — `let x: ");
    append(&mut out, enum_name.as_str());
    append(&mut out, "<...> = ");
    append(&mut out, enum_name.as_str());
    append(&mut out, ".");
    append(&mut out, variant.as_str());
    if !payload_empty {
        append(&mut out, "(...)");
    }
    append(&mut out, ";` — or pass it to something whose parameter says.");
    assert(out@ =~= unsettled_text(enum_name@, variant@, p@, payload_empty));
    out
}

/// Settles which instantiation `E.v(...)` of generic enum `enum_name` builds: see
/// [`variant_inference`]. `natural` holds, for each of the `n_args` values, the outcome of
/// checking it on its own; only those whose payload slot mentions a parameter are looked at.
/// The answer is the variant's tag, the type arguments, and the bindings they were read from
/// (by which the payload types are then specialised).
#[verifier::loop_isolation(false)]
pub fn infer_variant_arguments(
    layouts: &Layouts,
    instances: &Instances,
    tuples: &Tuples,
    enum_name: &String,
    variant: &String,
    n_args: usize,
    expected: Option<&Type>,
    natural: &Vec<Result<TypedExpr, String>>,
) -> (r: Result<(usize, Vec<Type>, TypeMap), String>)
    requires
        layouts@.generic_enums.contains_key(enum_name@),
        natural@.len() == n_args,
    ensures
        match variant_inference(instances@, tuples@, instances.count(), enum_name@, layouts@.generic_enums[enum_name@].0,
            layouts@.generic_enums[enum_name@].1, variant@, n_args as nat, match expected { Some(t) => Some(t@), None => None }, natural@) {
            Ok((tag, args, m)) => r matches Ok((t, a, mm)) && t as int == tag && view_types(a@) == args && mm@ == m,
            Err(x) => r matches Err(e) && e@ == x,
        },
{
    let generic = match layouts.generic_enums.get(enum_name) {
        Some(g) => g,
        None => {
            assert(false);
            return Err(String::new());
        },
    };
    let ghost params = view_names(generic.parameters@);
    let ghost vs = view_variants(generic.variants@);
    let ghost expected_v = match expected { Some(t) => Some(t@), None => None::<TypeV> };
    let tag = match find_variant(enum_name, &generic.variants, variant) {
        Ok(t) => t,
        Err(e) => return Err(e),
    };
    let payload = &generic.variants[tag].1;
    proof {
        lemma_view_types(payload@);
    }
    let ghost pv = view_types(payload@);
    assert(pv == vs[tag as int].1);
    if n_args != payload.len() {
        let mut out = String::new();
        append(&mut out, "`");
        append(&mut out, enum_name.as_str());
        append(&mut out, ".");
        append(&mut out, variant.as_str());
        append(&mut out, "` carries ");
        write_u64(&mut out, payload.len() as u64);
        append(&mut out, " value(s), but ");
        write_u64(&mut out, n_args as u64);
        append(&mut out, " were given");
        return Err(out);
    }
    let mut map = context_map(instances, enum_name, &generic.parameters, expected);
    let ghost m0 = map@;
    let mut i: usize = 0;
    while i < payload.len()
        invariant
            0 <= i <= payload@.len(),
            pv == view_types(payload@),
            pv.len() == payload@.len(),
            forall|q: int| 0 <= q < payload@.len() ==> #[trigger] pv[q] == payload@[q]@,
            payload_bindings(enum_name@, variant@, pv, natural@, m0, instances@, tuples@, instances.count(), i as nat)
                == Ok::<Map<Seq<char>, TypeV>, Seq<char>>(map@),
        decreases payload.len() - i,
    {
        if mentions_param(&payload[i]) {
            match &natural[i] {
                Err(x) => {
                    proof {
                        lemma_bindings_refused(enum_name@, variant@, pv, natural@, m0, instances@, tuples@, instances.count(),
                            (i + 1) as nat, pv.len());
                    }
                    return Err(x.clone());
                },
                Ok(t) => {
                    match unify(&payload[i], &t.ty, &mut map, instances, tuples) {
                        Ok(()) => {},
                        Err(why) => {
                            let mut out = String::new();
                            append(&mut out, "in `");
                            append(&mut out, enum_name.as_str());
                            append(&mut out, ".");
                            append(&mut out, variant.as_str());
                            append(&mut out, "`, payload ");
                            write_u64(&mut out, (i + 1) as u64);
                            append(&mut out, ": ");
                            append(&mut out, why.as_str());
                            proof {
                                lemma_bindings_refused(enum_name@, variant@, pv, natural@, m0, instances@, tuples@, instances.count(),
                                    (i + 1) as nat, pv.len());
                            }
                            return Err(out);
                        },
                    }
                },
            }
        }
        i = i + 1;
    }
    let ghost m = map@;
    let mut args: Vec<Type> = Vec::new();
    let mut k: usize = 0;
    while k < generic.parameters.len()
        invariant
            0 <= k <= generic.parameters@.len(),
            params == view_names(generic.parameters@),
            map@ == m,
            first_unbound(params, m, k as nat) is None,
            view_types(args@) == Seq::new(k as nat, |q: int| m[params[q]]),
        decreases generic.parameters.len() - k,
    {
        assert(params[k as int] == generic.parameters@[k as int]@);
        match map.get(&generic.parameters[k]) {
            Some(t) => {
                let ghost before = args@;
                args.push(t.duplicate());
                proof {
                    assert(args@.drop_last() =~= before);
                    assert(Seq::new((k + 1) as nat, |q: int| m[params[q]]) =~= Seq::new(k as nat, |q: int| m[params[q]]).push(m[params[k as int]]));
                }
            },
            None => {
                proof {
                    lemma_unbound_stays(params, m, (k + 1) as nat, params.len());
                }
                return Err(unsettled(enum_name, variant, &generic.parameters[k], payload.len() == 0));
            },
        }
        k = k + 1;
    }
    Ok((tag, args, map))
}

/// The payload types of variant `tag` of generic enum `enum_name` with what the bindings settle
/// substituted in: what each value is checked against while the variant is still abstract.
pub fn payload_wants(layouts: &Layouts, enum_name: &String, tag: usize, map: &TypeMap) -> (r: Vec<Type>)
    requires
        layouts@.generic_enums.contains_key(enum_name@),
        tag < layouts@.generic_enums[enum_name@].1.len(),
    ensures
        view_types(r@) == Seq::new(layouts@.generic_enums[enum_name@].1[tag as int].1.len(),
            |i: int| subst(layouts@.generic_enums[enum_name@].1[tag as int].1[i], map@)),
{
    let generic = match layouts.generic_enums.get(enum_name) {
        Some(g) => g,
        None => {
            assert(false);
            return Vec::new();
        },
    };
    let payload = &generic.variants[tag].1;
    proof {
        lemma_view_types(payload@);
    }
    let ghost pv = view_types(payload@);
    assert(pv == layouts@.generic_enums[enum_name@].1[tag as int].1);
    let mut out: Vec<Type> = Vec::new();
    let mut i: usize = 0;
    while i < payload.len()
        invariant
            0 <= i <= payload@.len(),
            pv == view_types(payload@),
            pv.len() == payload@.len(),
            forall|q: int| 0 <= q < payload@.len() ==> #[trigger] pv[q] == payload@[q]@,
            view_types(out@) == Seq::new(i as nat, |q: int| subst(pv[q], map@)),
        decreases payload.len() - i,
    {
        let t = substitute(&payload[i], map);
        let ghost before = out@;
        out.push(t);
        proof {
            assert(out@.drop_last() =~= before);
            assert(Seq::new((i + 1) as nat, |q: int| subst(pv[q], map@)) =~= Seq::new(i as nat, |q: int| subst(pv[q], map@)).push(subst(pv[i as int], map@)));
        }
        i = i + 1;
    }
    out
}

/// The payload values of an abstract variant, checked against `wants`, as far as the first that
/// failed to check or cannot be stored where its slot expects (counting from one).
pub open spec fn abstract_payload(e: Seq<char>, v: Seq<char>, wants: Seq<TypeV>, checked: Seq<Result<TypedExpr, String>>, n: nat)
    -> Result<Seq<TypedExpr>, Seq<char>>
    decreases n,
{
    if n == 0 {
        Ok(Seq::empty())
    } else {
        match abstract_payload(e, v, wants, checked, (n - 1) as nat) {
            Err(m) => Err(m),
            Ok(ts) => match checked[n - 1] {
                Err(m) => Err(m@),
                Ok(t) => if !storable_spec(t.ty@, wants[n - 1]) {
                    Err("in `"@ + e + "."@ + v + "`, payload "@ + nat_text(n) + " must be "@ + type_text(wants[n - 1])
                        + ", but it has type "@ + type_text(t.ty@))
                } else {
                    Ok(ts.push(t))
                },
            },
        }
    }
}

proof fn lemma_abstract_refused(e: Seq<char>, v: Seq<char>, wants: Seq<TypeV>, checked: Seq<Result<TypedExpr, String>>, n: nat, k: nat)
    requires
        n <= k,
        abstract_payload(e, v, wants, checked, n) is Err,
    ensures
        abstract_payload(e, v, wants, checked, k) == abstract_payload(e, v, wants, checked, n),
    decreases k - n,
{
    if k > n {
        lemma_abstract_refused(e, v, wants, checked, n, (k - 1) as nat);
    }
}

/// Builds `E.v(...)` while its type arguments still mention a parameter, that is inside a generic
/// checked on its own: the values, each already checked against its specialised payload type
/// (`wants`, from [`payload_wants`]), must be storable there, and the value is of the generic
/// application `E<type_args>` itself, which nothing instantiates yet.
pub fn abstract_variant(
    enum_name: &String,
    variant: &String,
    tag: usize,
    type_args: Vec<Type>,
    wants: &Vec<Type>,
    checked: Vec<Result<TypedExpr, String>>,
) -> (r: Result<TypedExpr, String>)
    requires
        wants@.len() == checked@.len(),
    ensures
        match abstract_payload(enum_name@, variant@, view_types(wants@), checked@, checked@.len() as nat) {
            Ok(ts) => r matches Ok(u) && u.ty@ == TypeV::Generic { name: enum_name@, arguments: view_types(type_args@) }
                && (u.kind matches TypedExprKind::VariantLit { enum_name: n, tag: k, arguments: a }
                && n@ == enum_name@ && k == tag as u32 && a@ == ts),
            Err(m) => r matches Err(e) && e@ == m,
        },
{
    proof {
        lemma_view_types(wants@);
    }
    let ghost ws = view_types(wants@);
    let ghost all = checked@;
    let count = checked.len();
    let mut rest = checked;
    let mut typed: Vec<TypedExpr> = Vec::new();
    let mut i: usize = 0;
    while rest.len() > 0
        invariant
            all == checked@,
            all.len() == count,
            count == wants@.len(),
            ws == view_types(wants@),
            ws.len() == wants@.len(),
            forall|q: int| 0 <= q < wants@.len() ==> #[trigger] ws[q] == wants@[q]@,
            i + rest@.len() == all.len(),
            rest@ == all.skip(i as int),
            abstract_payload(enum_name@, variant@, ws, all, i as nat) == Ok::<Seq<TypedExpr>, Seq<char>>(typed@),
        decreases rest.len(),
    {
        let c = rest.remove(0);
        proof {
            assert(c == all[i as int]);
            assert(rest@ =~= all.skip(i + 1));
        }
        let t = match c {
            Ok(t) => t,
            Err(m) => {
                proof {
                    lemma_abstract_refused(enum_name@, variant@, ws, all, (i + 1) as nat, all.len());
                }
                return Err(m);
            },
        };
        if !storable(&t.ty, &wants[i]) {
            let mut out = String::new();
            append(&mut out, "in `");
            append(&mut out, enum_name.as_str());
            append(&mut out, ".");
            append(&mut out, variant.as_str());
            append(&mut out, "`, payload ");
            write_u64(&mut out, (i + 1) as u64);
            append(&mut out, " must be ");
            wants[i].write_text(&mut out);
            append(&mut out, ", but it has type ");
            t.ty.write_text(&mut out);
            proof {
                lemma_abstract_refused(enum_name@, variant@, ws, all, (i + 1) as nat, all.len());
            }
            return Err(out);
        }
        typed.push(t);
        i = i + 1;
    }
    Ok(TypedExpr {
        ty: Type::Generic { name: enum_name.clone(), arguments: type_args },
        kind: TypedExprKind::VariantLit { enum_name: enum_name.clone(), tag: tag as u32, arguments: typed },
    })
}

/// What instantiating generic enum `e` at `args` gives the variant that is built from it: the
/// name of the enum made for it, or the refusal; with the expansion state after.
pub open spec fn instance_for(s: crate::expansion::ExpansionV, e: Seq<char>, args: Seq<TypeV>) -> (Result<Seq<char>, Seq<char>>, crate::expansion::ExpansionV) {
    let (o, after) = expanded(s, TypeV::Generic { name: e, arguments: args }, u64::MAX as nat);
    (match o {
        Err(m) => Err(m),
        Ok(TypeV::Named(symbol)) => if after.layouts.enums.contains_key(symbol) {
            Ok(symbol)
        } else {
            Err("codegen bug: `"@ + symbol + "` was not made"@)
        },
        Ok(_) => Err("codegen bug: an instantiation is not a named type"@),
    }, after)
}

/// Instantiates generic enum `enum_name` at concrete `type_args`, making the enum the first time
/// it is asked for, and answers its name: the variant is then built from that enum's variants
/// (see [`crate::members::build_variant`]).
pub fn variant_instance(expansion: &mut Expansion, enum_name: &String, type_args: Vec<Type>) -> (r: Result<String, String>)
    ensures
        (match r { Ok(s) => Ok::<Seq<char>, Seq<char>>(s@), Err(e) => Err(e@) }, final(expansion)@)
            == instance_for(old(expansion)@, enum_name@, view_types(type_args@)),
{
    let concrete = match expansion.expand(&Type::Generic { name: enum_name.clone(), arguments: type_args }) {
        Ok(t) => t,
        Err(e) => return Err(e),
    };
    let symbol = match concrete {
        Type::Named(s) => s,
        _ => {
            proof {
                crate::ty::lemma_view_variant(concrete);
            }
            return Err(String::from_str("codegen bug: an instantiation is not a named type"));
        },
    };
    if expansion.layouts.enums.get(&symbol).is_none() {
        let mut out = String::new();
        append(&mut out, "codegen bug: `");
        append(&mut out, symbol.as_str());
        append(&mut out, "` was not made");
        return Err(out);
    }
    Ok(symbol)
}

proof fn lemma_bindings_extend(
    e: Seq<char>,
    v: Seq<char>,
    payload: Seq<TypeV>,
    natural: Seq<Result<TypedExpr, String>>,
    m0: Map<Seq<char>, TypeV>,
    inst: InstancesV,
    tup: Map<Seq<char>, Seq<TypeV>>,
    depth: nat,
    n: nat,
)
    requires
        payload_bindings(e, v, payload, natural, m0, inst, tup, depth, n) is Ok,
    ensures
        extends(m0, payload_bindings(e, v, payload, natural, m0, inst, tup, depth, n)->Ok_0),
    decreases n,
{
    if n > 0 {
        lemma_bindings_extend(e, v, payload, natural, m0, inst, tup, depth, (n - 1) as nat);
        let m = payload_bindings(e, v, payload, natural, m0, inst, tup, depth, (n - 1) as nat)->Ok_0;
        if mentions(payload[n - 1]) {
            let t = natural[n - 1]->Ok_0;
            lemma_unified_extends(payload[n - 1], t.ty@, m, inst, tup, depth);
            let m2 = unified(payload[n - 1], t.ty@, m, inst, tup, depth)->Ok_0;
            assert forall|k: Seq<char>| #[trigger] m0.contains_key(k) implies m2.contains_key(k) && m2[k] == m0[k] by {
                assert(m.contains_key(k));
            }
        }
    }
}

/// The context comes first: when a variant of a generic enum is built, every type argument the
/// expected type settles is the one the variant gets. Values that disagree are refused, never
/// allowed to override it.
pub proof fn lemma_context_kept(
    inst: InstancesV,
    tup: Map<Seq<char>, Seq<TypeV>>,
    depth: nat,
    e: Seq<char>,
    params: Seq<Seq<char>>,
    vs: Seq<(Seq<char>, Seq<TypeV>)>,
    v: Seq<char>,
    n_args: nat,
    expected: Option<TypeV>,
    natural: Seq<Result<TypedExpr, String>>,
    i: int,
)
    requires
        variant_inference(inst, tup, depth, e, params, vs, v, n_args, expected, natural) is Ok,
        0 <= i < params.len(),
        context_bindings(inst, e, params, expected).contains_key(params[i]),
    ensures
        variant_inference(inst, tup, depth, e, params, vs, v, n_args, expected, natural)->Ok_0.1.len() == params.len(),
        variant_inference(inst, tup, depth, e, params, vs, v, n_args, expected, natural)->Ok_0.1[i]
            == context_bindings(inst, e, params, expected)[params[i]],
{
    let tag = variant_position(vs, v)->Some_0;
    let payload = vs[tag].1;
    let m0 = context_bindings(inst, e, params, expected);
    lemma_bindings_extend(e, v, payload, natural, m0, inst, tup, depth, payload.len());
}

/// How `E.v` or `E.v(...)` is built, once `E` is known to name an enum rather than a variable.
pub enum VariantRoute {
    /// A generic enum: its type arguments are settled first (see [`infer_variant_arguments`]).
    Generic(String),
    /// An enum with variants of its own (see [`crate::members::build_variant`]).
    Plain(String),
}

/// Whether `base.v` builds a variant, and of which kind of enum: only when `base` is a bare name
/// that is not a variable in scope (`env`) and names a generic enum or an enum.
pub open spec fn route_rule(env: Map<Seq<char>, (TypeV, bool)>, d: LayoutsV, base: Expr) -> Option<(bool, Seq<char>)> {
    match base.kind {
        ExprKind::Var(n) => if env.contains_key(n@) {
            None
        } else if d.generic_enums.contains_key(n@) {
            Some((true, n@))
        } else if d.enums.contains_key(n@) {
            Some((false, n@))
        } else {
            None
        },
        _ => None,
    }
}

/// Decides whether `base.v` is a variant literal: see [`route_rule`]. `None` means it is an
/// ordinary field access or method call.
pub fn variant_route(env: &NameMap<(Type, bool)>, layouts: &Layouts, base: &Expr) -> (r: Option<VariantRoute>)
    ensures
        match route_rule(env@, layouts@, *base) {
            Some((true, n)) => r matches Some(VariantRoute::Generic(s)) && s@ == n,
            Some((false, n)) => r matches Some(VariantRoute::Plain(s)) && s@ == n,
            None => r is None,
        },
{
    let name = match &base.kind {
        ExprKind::Var(n) => n,
        _ => return None,
    };
    if env.get(name).is_some() {
        return None;
    }
    if layouts.generic_enums.get(name).is_some() {
        return Some(VariantRoute::Generic(name.clone()));
    }
    if layouts.enums.get(name).is_some() {
        return Some(VariantRoute::Plain(name.clone()));
    }
    None
}

} // verus!
