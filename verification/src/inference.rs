//! Laws of type-argument inference: what a successful [`unify`](crate::generics::unify) promises.
use vstd::prelude::*;
use crate::generics::{subst, subst_all, unified, unified_all, lemma_subst_all, InstancesV};
use crate::ty::TypeV;

verus! {

/// Every parameter that substitution would look at inside `t` is bound in `m`.
pub open spec fn bound_in(t: TypeV, m: Map<Seq<char>, TypeV>) -> bool
    decreases t, 1int,
{
    match t {
        TypeV::Param(n) => m.contains_key(n),
        TypeV::Array { elem, .. } => bound_in(*elem, m),
        TypeV::Slice(elem) => bound_in(*elem, m),
        TypeV::Generic { arguments, .. } => all_bound_in(arguments, m),
        TypeV::Tuple(elements) => all_bound_in(elements, m),
        TypeV::DynGeneric { arguments, .. } => all_bound_in(arguments, m),
        _ => true,
    }
}

/// [`bound_in`] for every type of a sequence.
pub open spec fn all_bound_in(ts: Seq<TypeV>, m: Map<Seq<char>, TypeV>) -> bool
    decreases ts, 0int,
{
    ts.len() == 0 || (bound_in(ts[0], m) && all_bound_in(ts.skip(1), m))
}

/// No generic instantiation appears where inference would have to look one up: `t` is built
/// from parameters, plain types, arrays, growable arrays and tuples of such.
pub open spec fn instantiation_free(t: TypeV) -> bool
    decreases t, 1int,
{
    match t {
        TypeV::Generic { .. } => false,
        TypeV::DynGeneric { .. } => false,
        TypeV::Array { elem, .. } => instantiation_free(*elem),
        TypeV::Slice(elem) => instantiation_free(*elem),
        TypeV::Tuple(elements) => all_instantiation_free(elements),
        _ => true,
    }
}

/// [`instantiation_free`] for every type of a sequence.
pub open spec fn all_instantiation_free(ts: Seq<TypeV>) -> bool
    decreases ts, 0int,
{
    ts.len() == 0 || (instantiation_free(ts[0]) && all_instantiation_free(ts.skip(1)))
}

/// `m2` keeps every binding of `m` unchanged.
pub open spec fn extends(m: Map<Seq<char>, TypeV>, m2: Map<Seq<char>, TypeV>) -> bool {
    forall|k: Seq<char>| #[trigger] m.contains_key(k) ==> m2.contains_key(k) && m2[k] == m[k]
}

/// A sequence property given by first-and-rest holds at every index.
proof fn lemma_all_bound_index(ts: Seq<TypeV>, m: Map<Seq<char>, TypeV>)
    ensures
        all_bound_in(ts, m) == forall|i: int| 0 <= i < ts.len() ==> #[trigger] bound_in(ts[i], m),
    decreases ts.len(),
{
    if ts.len() > 0 {
        let rest = ts.skip(1);
        lemma_all_bound_index(rest, m);
        if all_bound_in(ts, m) {
            assert forall|i: int| 0 <= i < ts.len() implies #[trigger] bound_in(ts[i], m) by {
                if i > 0 {
                    assert(rest[i - 1] == ts[i]);
                    assert(bound_in(rest[i - 1], m));
                }
            }
        }
        if forall|i: int| 0 <= i < ts.len() ==> #[trigger] bound_in(ts[i], m) {
            assert(bound_in(ts[0], m));
            assert forall|j: int| 0 <= j < rest.len() implies #[trigger] bound_in(rest[j], m) by {
                assert(rest[j] == ts[j + 1]);
                assert(bound_in(ts[j + 1], m));
            }
            assert(all_bound_in(rest, m));
        }
    }
}

/// Substituting with more bindings changes nothing, when everything looked at was already bound.
pub proof fn lemma_subst_extends(t: TypeV, m: Map<Seq<char>, TypeV>, m2: Map<Seq<char>, TypeV>)
    requires
        bound_in(t, m),
        extends(m, m2),
    ensures
        bound_in(t, m2),
        subst(t, m2) == subst(t, m),
    decreases t, 1int,
{
    match t {
        TypeV::Param(n) => {},
        TypeV::Array { elem, .. } => lemma_subst_extends(*elem, m, m2),
        TypeV::Slice(elem) => lemma_subst_extends(*elem, m, m2),
        TypeV::Generic { arguments, .. } => lemma_subst_all_extends(arguments, m, m2),
        TypeV::Tuple(elements) => lemma_subst_all_extends(elements, m, m2),
        TypeV::DynGeneric { arguments, .. } => lemma_subst_all_extends(arguments, m, m2),
        _ => {},
    }
}

/// [`lemma_subst_extends`] for every type of a sequence.
pub proof fn lemma_subst_all_extends(ts: Seq<TypeV>, m: Map<Seq<char>, TypeV>, m2: Map<Seq<char>, TypeV>)
    requires
        all_bound_in(ts, m),
        extends(m, m2),
    ensures
        all_bound_in(ts, m2),
        subst_all(ts, m2) == subst_all(ts, m),
    decreases ts, 0int,
{
    lemma_all_bound_index(ts, m);
    lemma_all_bound_index(ts, m2);
    lemma_subst_all(ts, m);
    lemma_subst_all(ts, m2);
    assert forall|i: int| 0 <= i < ts.len() implies #[trigger] bound_in(ts[i], m2) by {
        lemma_subst_extends(ts[i], m, m2);
    }
    assert forall|i: int| 0 <= i < ts.len() implies #[trigger] subst_all(ts, m2)[i] == subst_all(ts, m)[i] by {
        lemma_subst_extends(ts[i], m, m2);
    }
    assert(subst_all(ts, m2) =~= subst_all(ts, m));
}

/// A successful inference keeps every binding that was already made.
pub proof fn lemma_unified_extends(
    d: TypeV,
    a: TypeV,
    m: Map<Seq<char>, TypeV>,
    inst: InstancesV,
    tup: Map<Seq<char>, Seq<TypeV>>,
    depth: nat,
)
    requires
        unified(d, a, m, inst, tup, depth) is Ok,
    ensures
        extends(m, unified(d, a, m, inst, tup, depth)->Ok_0),
    decreases d, 1int,
{
    match d {
        TypeV::Array { elem: de, len: dl } => match a {
            TypeV::Array { elem: ae, len: al } => if dl == al {
                lemma_unified_extends(*de, *ae, m, inst, tup, depth);
            },
            _ => {},
        },
        TypeV::Slice(de) => match a {
            TypeV::Slice(ae) => lemma_unified_extends(*de, *ae, m, inst, tup, depth),
            _ => {},
        },
        TypeV::Generic { name: dn, arguments: dargs } => match a {
            TypeV::Named(sym) => if inst.contains_key(sym) && inst[sym].0 == dn && inst[sym].1.len() == dargs.len() {
                lemma_unified_all_extends(dargs, inst[sym].1, m, inst, tup, depth);
            },
            _ => {},
        },
        TypeV::DynGeneric { name: dn, arguments: dargs } => match a {
            TypeV::Dyn(sym) => if inst.contains_key(sym) && inst[sym].0 == dn && inst[sym].1.len() == dargs.len() {
                lemma_unified_all_extends(dargs, inst[sym].1, m, inst, tup, depth);
            },
            _ => {},
        },
        TypeV::Tuple(ds) => match a {
            TypeV::Tuple(es) => if ds.len() == es.len() {
                lemma_unified_all_extends(ds, es, m, inst, tup, depth);
            },
            TypeV::Named(sym) => if tup.contains_key(sym) && tup[sym].len() == ds.len() {
                lemma_unified_all_extends(ds, tup[sym], m, inst, tup, depth);
            },
            _ => {},
        },
        _ => {},
    }
}

/// [`lemma_unified_extends`] for a whole list of pairs.
pub proof fn lemma_unified_all_extends(
    ds: Seq<TypeV>,
    es: Seq<TypeV>,
    m: Map<Seq<char>, TypeV>,
    inst: InstancesV,
    tup: Map<Seq<char>, Seq<TypeV>>,
    depth: nat,
)
    requires
        unified_all(ds, es, m, inst, tup, depth) is Ok,
    ensures
        extends(m, unified_all(ds, es, m, inst, tup, depth)->Ok_0),
    decreases ds, 0int,
{
    if ds.len() > 0 && es.len() > 0 {
        lemma_unified_extends(ds[0], es[0], m, inst, tup, depth);
        let m1 = unified(ds[0], es[0], m, inst, tup, depth)->Ok_0;
        lemma_unified_all_extends(ds.skip(1), es.skip(1), m1, inst, tup, depth);
    }
}

/// Type-argument inference does what it is for: when the declared type holds no generic
/// instantiation and no tuple has to be looked up, a successful match binds every parameter it
/// looked at, and substituting those bindings into the declared type gives the actual type.
pub proof fn lemma_unify_solves(
    d: TypeV,
    a: TypeV,
    m: Map<Seq<char>, TypeV>,
    inst: InstancesV,
    tup: Map<Seq<char>, Seq<TypeV>>,
    depth: nat,
)
    requires
        instantiation_free(d),
        tup == Map::<Seq<char>, Seq<TypeV>>::empty(),
        unified(d, a, m, inst, tup, depth) is Ok,
    ensures
        bound_in(d, unified(d, a, m, inst, tup, depth)->Ok_0),
        subst(d, unified(d, a, m, inst, tup, depth)->Ok_0) == a,
    decreases d, 1int,
{
    let m2 = unified(d, a, m, inst, tup, depth)->Ok_0;
    match d {
        TypeV::Array { elem: de, len: dl } => match a {
            TypeV::Array { elem: ae, len: al } => if dl == al {
                lemma_unify_solves(*de, *ae, m, inst, tup, depth);
            },
            _ => {},
        },
        TypeV::Slice(de) => match a {
            TypeV::Slice(ae) => lemma_unify_solves(*de, *ae, m, inst, tup, depth),
            _ => {},
        },
        TypeV::Tuple(ds) => match a {
            TypeV::Tuple(es) => if ds.len() == es.len() {
                lemma_unify_all_solves(ds, es, m, inst, tup, depth);
                lemma_subst_all(ds, m2);
                assert(subst_all(ds, m2) =~= es);
            },
            _ => {},
        },
        _ => {},
    }
}

/// [`lemma_unify_solves`] for a whole list of pairs.
pub proof fn lemma_unify_all_solves(
    ds: Seq<TypeV>,
    es: Seq<TypeV>,
    m: Map<Seq<char>, TypeV>,
    inst: InstancesV,
    tup: Map<Seq<char>, Seq<TypeV>>,
    depth: nat,
)
    requires
        all_instantiation_free(ds),
        ds.len() == es.len(),
        tup == Map::<Seq<char>, Seq<TypeV>>::empty(),
        unified_all(ds, es, m, inst, tup, depth) is Ok,
    ensures
        all_bound_in(ds, unified_all(ds, es, m, inst, tup, depth)->Ok_0),
        forall|i: int| 0 <= i < ds.len() ==> #[trigger] subst(ds[i], unified_all(ds, es, m, inst, tup, depth)->Ok_0) == es[i],
    decreases ds, 0int,
{
    let m2 = unified_all(ds, es, m, inst, tup, depth)->Ok_0;
    if ds.len() > 0 {
        let m1 = unified(ds[0], es[0], m, inst, tup, depth)->Ok_0;
        lemma_unify_solves(ds[0], es[0], m, inst, tup, depth);
        lemma_unify_all_solves(ds.skip(1), es.skip(1), m1, inst, tup, depth);
        lemma_unified_all_extends(ds.skip(1), es.skip(1), m1, inst, tup, depth);
        lemma_subst_extends(ds[0], m1, m2);
        assert forall|i: int| 0 <= i < ds.len() implies #[trigger] subst(ds[i], m2) == es[i] by {
            if i > 0 {
                assert(ds.skip(1)[i - 1] == ds[i]);
                assert(es.skip(1)[i - 1] == es[i]);
            }
        }
    }
}

} // verus!
