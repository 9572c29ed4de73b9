//! Generics: substituting type parameters, and asking whether a type still mentions one.
use vstd::prelude::*;
use crate::inference::extends;
use crate::names::NameMap;
use crate::text::{nat_text, write_u64};
use crate::ty::{Type, TypeV, view_type, view_types, lemma_view_types, type_text, append};

verus! {

/// A binding of type parameters to the types they stand for in one call.
pub type TypeMap = NameMap<Type>;

/// `t` with every bound parameter replaced by what it is bound to.
pub open spec fn subst(t: TypeV, m: Map<Seq<char>, TypeV>) -> TypeV
    decreases t, 1int,
{
    match t {
        TypeV::Param(n) => if m.contains_key(n) { m[n] } else { t },
        TypeV::Array { elem, len } => TypeV::Array { elem: Box::new(subst(*elem, m)), len },
        TypeV::Slice(elem) => TypeV::Slice(Box::new(subst(*elem, m))),
        TypeV::Generic { name, arguments } => TypeV::Generic { name, arguments: subst_all(arguments, m) },
        TypeV::Tuple(elements) => TypeV::Tuple(subst_all(elements, m)),
        TypeV::DynGeneric { name, arguments } => TypeV::DynGeneric { name, arguments: subst_all(arguments, m) },
        _ => t,
    }
}

/// [`subst`] applied to each type of a sequence.
pub open spec fn subst_all(ts: Seq<TypeV>, m: Map<Seq<char>, TypeV>) -> Seq<TypeV>
    decreases ts, 0int,
{
    if ts.len() == 0 {
        Seq::empty()
    } else {
        subst_all(ts.drop_last(), m).push(subst(ts.last(), m))
    }
}

/// Whether a type parameter appears anywhere inside `t`.
pub open spec fn mentions(t: TypeV) -> bool
    decreases t, 1int,
{
    match t {
        TypeV::Param(_) => true,
        TypeV::Array { elem, .. } => mentions(*elem),
        TypeV::Slice(elem) => mentions(*elem),
        TypeV::Generic { arguments, .. } => mentions_any(arguments),
        TypeV::Tuple(arguments) => mentions_any(arguments),
        TypeV::DynGeneric { arguments, .. } => mentions_any(arguments),
        _ => false,
    }
}

/// Whether any type of the sequence mentions a parameter.
pub open spec fn mentions_any(ts: Seq<TypeV>) -> bool
    decreases ts, 0int,
{
    ts.len() > 0 && (mentions_any(ts.drop_last()) || mentions(ts.last()))
}

/// [`subst_all`] keeps the length and works element by element.
pub proof fn lemma_subst_all(ts: Seq<TypeV>, m: Map<Seq<char>, TypeV>)
    ensures
        subst_all(ts, m).len() == ts.len(),
        forall|i: int| 0 <= i < ts.len() ==> #[trigger] subst_all(ts, m)[i] == subst(ts[i], m),
    decreases ts.len(),
{
    if ts.len() > 0 {
        lemma_subst_all(ts.drop_last(), m);
    }
}

/// [`mentions_any`] holds exactly when some element mentions a parameter.
pub proof fn lemma_mentions_any(ts: Seq<TypeV>)
    ensures
        mentions_any(ts) == exists|i: int| 0 <= i < ts.len() && #[trigger] mentions(ts[i]),
    decreases ts.len(),
{
    if ts.len() > 0 {
        lemma_mentions_any(ts.drop_last());
        if mentions(ts.last()) {
            assert(mentions(ts[ts.len() - 1]));
        }
        if mentions_any(ts.drop_last()) {
            let i = choose|i: int| 0 <= i < ts.drop_last().len() && #[trigger] mentions(ts.drop_last()[i]);
            assert(mentions(ts[i]));
        }
        if exists|i: int| 0 <= i < ts.len() && #[trigger] mentions(ts[i]) {
            let i = choose|i: int| 0 <= i < ts.len() && #[trigger] mentions(ts[i]);
            if i < ts.len() - 1 {
                assert(mentions(ts.drop_last()[i]));
            }
        }
    }
}

/// A type that mentions no parameter is left unchanged by any substitution.
pub proof fn lemma_subst_unmentioned(t: TypeV, m: Map<Seq<char>, TypeV>)
    requires
        !mentions(t),
    ensures
        subst(t, m) == t,
    decreases t, 1int,
{
    match t {
        TypeV::Array { elem, .. } => lemma_subst_unmentioned(*elem, m),
        TypeV::Slice(elem) => lemma_subst_unmentioned(*elem, m),
        TypeV::Generic { arguments, .. } => lemma_subst_all_unmentioned(arguments, m),
        TypeV::Tuple(arguments) => lemma_subst_all_unmentioned(arguments, m),
        TypeV::DynGeneric { arguments, .. } => lemma_subst_all_unmentioned(arguments, m),
        _ => {},
    }
}

/// A sequence of types none of which mentions a parameter is left unchanged.
pub proof fn lemma_subst_all_unmentioned(ts: Seq<TypeV>, m: Map<Seq<char>, TypeV>)
    requires
        !mentions_any(ts),
    ensures
        subst_all(ts, m) == ts,
    decreases ts, 0int,
{
    if ts.len() > 0 {
        lemma_subst_all_unmentioned(ts.drop_last(), m);
        lemma_subst_unmentioned(ts.last(), m);
        assert(ts.drop_last().push(ts.last()) =~= ts);
    }
}

/// Substituting with no bindings at all changes nothing.
pub proof fn lemma_subst_empty(t: TypeV)
    ensures
        subst(t, Map::empty()) == t,
    decreases t, 1int,
{
    match t {
        TypeV::Array { elem, .. } => lemma_subst_empty(*elem),
        TypeV::Slice(elem) => lemma_subst_empty(*elem),
        TypeV::Generic { arguments, .. } => lemma_subst_all_empty(arguments),
        TypeV::Tuple(arguments) => lemma_subst_all_empty(arguments),
        TypeV::DynGeneric { arguments, .. } => lemma_subst_all_empty(arguments),
        _ => {},
    }
}

/// Substituting with no bindings changes no type of a sequence.
pub proof fn lemma_subst_all_empty(ts: Seq<TypeV>)
    ensures
        subst_all(ts, Map::empty()) == ts,
    decreases ts, 0int,
{
    if ts.len() > 0 {
        lemma_subst_all_empty(ts.drop_last());
        lemma_subst_empty(ts.last());
        assert(ts.drop_last().push(ts.last()) =~= ts);
    }
}

/// `ty` with every parameter that `map` binds replaced by its binding. Recursive, because a
/// parameter can be nested: `[T]`, `[T; 3]`, `List<T>`, `(T, Int)`, `dynamic Mapper<T>`.
pub fn substitute(ty: &Type, map: &TypeMap) -> (r: Type)
    ensures
        r@ == subst(ty@, map@),
    decreases ty,
{
    match ty {
        Type::Param(name) => match map.get(name) {
            Some(t) => t.duplicate(),
            None => ty.duplicate(),
        },
        Type::Array { elem, len } => Type::Array { elem: Box::new(substitute(elem, map)), len: *len },
        Type::Slice(elem) => Type::Slice(Box::new(substitute(elem, map))),
        Type::Generic { name, arguments } => {
            let a = substitute_list(arguments, map);
            Type::Generic { name: name.clone(), arguments: a }
        },
        Type::Tuple(elements) => Type::Tuple(substitute_list(elements, map)),
        Type::DynGeneric { name, arguments } => {
            let a = substitute_list(arguments, map);
            Type::DynGeneric { name: name.clone(), arguments: a }
        },
        _ => ty.duplicate(),
    }
}

/// [`substitute`] applied to each type of a list.
fn substitute_list(ts: &Vec<Type>, map: &TypeMap) -> (r: Vec<Type>)
    ensures
        view_types(r@) == subst_all(view_types(ts@), map@),
    decreases ts,
{
    let mut out: Vec<Type> = Vec::new();
    let mut i: usize = 0;
    while i < ts.len()
        invariant
            0 <= i <= ts.len(),
            view_types(out@) == subst_all(view_types(ts@.take(i as int)), map@),
        decreases ts.len() - i,
    {
        proof {
            assert(decreases_to!(ts => ts@[i as int]));
        }
        let t = substitute(&ts[i], map);
        let ghost before = out@;
        out.push(t);
        proof {
            assert(out@.drop_last() =~= before);
            assert(ts@.take(i + 1).drop_last() =~= ts@.take(i as int));
            assert(view_types(ts@.take(i + 1)).drop_last() =~= view_types(ts@.take(i as int)));
        }
        i = i + 1;
    }
    assert(ts@.take(i as int) =~= ts@);
    out
}

/// Whether the type mentions a parameter at all: the cheap test that keeps every non-generic
/// call on the path it took before generics existed.
pub fn mentions_param(ty: &Type) -> (r: bool)
    ensures
        r == mentions(ty@),
    decreases ty,
{
    match ty {
        Type::Param(_) => true,
        Type::Array { elem, .. } => mentions_param(elem),
        Type::Slice(elem) => mentions_param(elem),
        Type::Generic { arguments, .. } => mentions_param_list(arguments),
        Type::Tuple(arguments) => mentions_param_list(arguments),
        Type::DynGeneric { arguments, .. } => mentions_param_list(arguments),
        _ => false,
    }
}

/// Whether any type of the list mentions a parameter.
pub fn mentions_param_list(ts: &Vec<Type>) -> (r: bool)
    ensures
        r == mentions_any(view_types(ts@)),
    decreases ts,
{
    proof {
        lemma_view_types(ts@);
        lemma_mentions_any(view_types(ts@));
    }
    let mut i: usize = 0;
    while i < ts.len()
        invariant
            0 <= i <= ts.len(),
            view_types(ts@).len() == ts@.len(),
            forall|k: int| 0 <= k < ts@.len() ==> #[trigger] view_types(ts@)[k] == view_type(ts@[k]),
            forall|k: int| 0 <= k < i ==> !mentions(#[trigger] view_types(ts@)[k]),
        decreases ts.len() - i,
    {
        proof {
            assert(decreases_to!(ts => ts@[i as int]));
        }
        if mentions_param(&ts[i]) {
            proof {
                lemma_mentions_any(view_types(ts@));
                assert(mentions(view_types(ts@)[i as int]));
            }
            return true;
        }
        i = i + 1;
    }
    false
}

/// What a monomorphised instantiation was made from: the generic's name and its type arguments.
pub struct Instance {
    pub of: String,
    pub arguments: Vec<Type>,
}

impl View for Instance {
    type V = (Seq<char>, Seq<TypeV>);

    open spec fn view(&self) -> (Seq<char>, Seq<TypeV>) {
        (self.of@, view_types(self.arguments@))
    }
}

/// The instantiations made so far, by the symbol each was given.
pub type Instances = NameMap<Instance>;

/// The view of the instantiation table.
pub type InstancesV = Map<Seq<char>, (Seq<char>, Seq<TypeV>)>;

/// `t` as its author wrote it: every instantiation symbol turned back into the generic it was
/// made from, applied to its arguments. At most `depth` symbols are undone along any path, which
/// is never a limit for a table whose instantiations are built from earlier ones.
pub open spec fn written(t: TypeV, inst: InstancesV, depth: nat) -> TypeV
    decreases depth, t, 1int,
{
    match t {
        TypeV::Named(n) => if depth > 0 && inst.contains_key(n) {
            TypeV::Generic { name: inst[n].0, arguments: written_all(inst[n].1, inst, (depth - 1) as nat) }
        } else {
            t
        },
        TypeV::Dyn(n) => if depth > 0 && inst.contains_key(n) {
            TypeV::DynGeneric { name: inst[n].0, arguments: written_all(inst[n].1, inst, (depth - 1) as nat) }
        } else {
            t
        },
        TypeV::Slice(elem) => TypeV::Slice(Box::new(written(*elem, inst, depth))),
        TypeV::Array { elem, len } => TypeV::Array { elem: Box::new(written(*elem, inst, depth)), len },
        _ => t,
    }
}

/// [`written`] applied to each type of a sequence.
pub open spec fn written_all(ts: Seq<TypeV>, inst: InstancesV, depth: nat) -> Seq<TypeV>
    decreases depth, ts, 0int,
{
    if ts.len() == 0 {
        Seq::empty()
    } else {
        written_all(ts.drop_last(), inst, depth).push(written(ts.last(), inst, depth))
    }
}

/// `t` as text, the way its author wrote it: instantiation symbols shown as the generic applied
/// to its arguments, everything else as [`type_text`] writes it.
pub open spec fn shown(t: TypeV, inst: InstancesV, depth: nat) -> Seq<char>
    decreases depth, t, 1int,
{
    match t {
        TypeV::Named(n) => if depth > 0 && inst.contains_key(n) {
            inst[n].0 + "<"@ + shown_list(inst[n].1, inst, (depth - 1) as nat) + ">"@
        } else {
            n
        },
        TypeV::Dyn(n) => if depth > 0 && inst.contains_key(n) {
            "dynamic "@ + inst[n].0 + "<"@ + shown_list(inst[n].1, inst, (depth - 1) as nat) + ">"@
        } else {
            "dynamic "@ + n
        },
        TypeV::Array { elem, len } => "["@ + shown(*elem, inst, depth) + "; "@ + nat_text(len as nat) + "]"@,
        TypeV::Slice(elem) => "["@ + shown(*elem, inst, depth) + "]"@,
        TypeV::Generic { name, arguments } => name + "<"@ + shown_list(arguments, inst, depth) + ">"@,
        _ => type_text(t),
    }
}

/// Types shown one after another, separated by `, `.
pub open spec fn shown_list(ts: Seq<TypeV>, inst: InstancesV, depth: nat) -> Seq<char>
    decreases depth, ts, 0int,
{
    if ts.len() == 0 {
        Seq::empty()
    } else if ts.len() == 1 {
        shown(ts[0], inst, depth)
    } else {
        shown_list(ts.drop_last(), inst, depth) + ", "@ + shown(ts.last(), inst, depth)
    }
}

/// With no instantiations to undo, the written form of a type is the type itself.
pub proof fn lemma_written_plain(t: TypeV, depth: nat)
    ensures
        written(t, Map::empty(), depth) == t,
    decreases t,
{
    match t {
        TypeV::Slice(elem) => lemma_written_plain(*elem, depth),
        TypeV::Array { elem, .. } => lemma_written_plain(*elem, depth),
        _ => {},
    }
}

/// With no instantiations to undo, a type is shown exactly as it is written.
pub proof fn lemma_shown_plain(t: TypeV, depth: nat)
    ensures
        shown(t, Map::empty(), depth) == type_text(t),
    decreases t, 1int,
{
    match t {
        TypeV::Slice(elem) => lemma_shown_plain(*elem, depth),
        TypeV::Array { elem, .. } => lemma_shown_plain(*elem, depth),
        TypeV::Generic { arguments, .. } => lemma_shown_list_plain(arguments, depth),
        _ => {},
    }
}

/// With no instantiations to undo, a list of types is shown exactly as it is written.
pub proof fn lemma_shown_list_plain(ts: Seq<TypeV>, depth: nat)
    ensures
        shown_list(ts, Map::empty(), depth) == crate::ty::list_text(ts),
    decreases ts, 0int,
{
    if ts.len() == 1 {
        lemma_shown_plain(ts[0], depth);
    } else if ts.len() > 1 {
        lemma_shown_list_plain(ts.drop_last(), depth);
        lemma_shown_plain(ts.last(), depth);
    }
}

/// A type as the author would write it: `Option<String>` rather than `Option$String`. The
/// counterpart of [`show`] for the places that need a type back rather than text.
pub fn written_form(ty: &Type, instances: &Instances) -> (r: Type)
    ensures
        r@ == written(ty@, instances@, instances.count()),
{
    written_within(ty, instances, instances.len())
}

fn written_within(ty: &Type, instances: &Instances, depth: usize) -> (r: Type)
    ensures
        r@ == written(ty@, instances@, depth as nat),
    decreases depth, ty,
{
    match ty {
        Type::Named(n) => {
            if depth > 0 {
                match instances.get(n) {
                    Some(found) => {
                        let a = written_list(&found.arguments, instances, depth - 1);
                        return Type::Generic { name: found.of.clone(), arguments: a };
                    },
                    None => {},
                }
            }
            ty.duplicate()
        },
        Type::Dyn(n) => {
            if depth > 0 {
                match instances.get(n) {
                    Some(found) => {
                        let a = written_list(&found.arguments, instances, depth - 1);
                        return Type::DynGeneric { name: found.of.clone(), arguments: a };
                    },
                    None => {},
                }
            }
            ty.duplicate()
        },
        Type::Slice(elem) => Type::Slice(Box::new(written_within(elem, instances, depth))),
        Type::Array { elem, len } => Type::Array {
            elem: Box::new(written_within(elem, instances, depth)),
            len: *len,
        },
        _ => ty.duplicate(),
    }
}

fn written_list(ts: &Vec<Type>, instances: &Instances, depth: usize) -> (r: Vec<Type>)
    ensures
        view_types(r@) == written_all(view_types(ts@), instances@, depth as nat),
    decreases depth, ts,
{
    let mut out: Vec<Type> = Vec::new();
    let mut i: usize = 0;
    while i < ts.len()
        invariant
            0 <= i <= ts.len(),
            view_types(out@) == written_all(view_types(ts@.take(i as int)), instances@, depth as nat),
        decreases ts.len() - i,
    {
        proof {
            assert(decreases_to!(ts => ts@[i as int]));
        }
        let t = written_within(&ts[i], instances, depth);
        let ghost before = out@;
        out.push(t);
        proof {
            assert(out@.drop_last() =~= before);
            assert(ts@.take(i + 1).drop_last() =~= ts@.take(i as int));
            assert(view_types(ts@.take(i + 1)).drop_last() =~= view_types(ts@.take(i as int)));
        }
        i = i + 1;
    }
    assert(ts@.take(i as int) =~= ts@);
    out
}

/// A type as text, the way its author wrote it: a monomorphised symbol such as `Option$String`
/// is shown as `Option<String>`, because a reader never wrote the symbol.
pub fn show(ty: &Type, instances: &Instances) -> (r: String)
    ensures
        r@ == shown(ty@, instances@, instances.count()),
{
    let mut out = String::new();
    write_shown(ty, instances, instances.len(), &mut out);
    assert(out@ =~= shown(ty@, instances@, instances.count()));
    out
}

pub(crate) fn write_shown(ty: &Type, instances: &Instances, depth: usize, out: &mut String)
    ensures
        final(out)@ == old(out)@ + shown(ty@, instances@, depth as nat),
    decreases depth, ty,
{
    let ghost start = out@;
    match ty {
        Type::Named(n) => {
            if depth > 0 {
                match instances.get(n) {
                    Some(found) => {
                        append(out, found.of.as_str());
                        append(out, "<");
                        write_shown_list(&found.arguments, instances, depth - 1, out);
                        append(out, ">");
                        assert(out@ =~= start + shown(ty@, instances@, depth as nat));
                        return;
                    },
                    None => {},
                }
            }
            append(out, n.as_str());
        },
        Type::Dyn(n) => {
            append(out, "dynamic ");
            if depth > 0 {
                match instances.get(n) {
                    Some(found) => {
                        append(out, found.of.as_str());
                        append(out, "<");
                        write_shown_list(&found.arguments, instances, depth - 1, out);
                        append(out, ">");
                        assert(out@ =~= start + shown(ty@, instances@, depth as nat));
                        return;
                    },
                    None => {},
                }
            }
            append(out, n.as_str());
        },
        Type::Array { elem, len } => {
            append(out, "[");
            write_shown(elem, instances, depth, out);
            append(out, "; ");
            write_u64(out, *len as u64);
            append(out, "]");
        },
        Type::Slice(elem) => {
            append(out, "[");
            write_shown(elem, instances, depth, out);
            append(out, "]");
        },
        Type::Generic { name, arguments } => {
            append(out, name.as_str());
            append(out, "<");
            write_shown_list(arguments, instances, depth, out);
            append(out, ">");
        },
        _ => ty.write_text(out),
    }
    assert(out@ =~= start + shown(ty@, instances@, depth as nat));
}

pub(crate) fn write_shown_list(ts: &Vec<Type>, instances: &Instances, depth: usize, out: &mut String)
    ensures
        final(out)@ == old(out)@ + shown_list(view_types(ts@), instances@, depth as nat),
    decreases depth, ts,
{
    let ghost start = out@;
    proof {
        lemma_view_types(ts@);
    }
    let mut i: usize = 0;
    while i < ts.len()
        invariant
            0 <= i <= ts.len(),
            view_types(ts@).len() == ts@.len(),
            forall|k: int| 0 <= k < ts@.len() ==> #[trigger] view_types(ts@)[k] == view_type(ts@[k]),
            out@ == start + shown_list(view_types(ts@).take(i as int), instances@, depth as nat),
        decreases ts.len() - i,
    {
        if i > 0 {
            append(out, ", ");
        }
        proof {
            assert(decreases_to!(ts => ts@[i as int]));
        }
        write_shown(&ts[i], instances, depth, out);
        proof {
            let vs = view_types(ts@);
            assert(vs.take(i + 1).drop_last() =~= vs.take(i as int));
            assert(vs.take(i + 1).last() == vs[i as int]);
            if i == 0 {
                assert(shown_list(vs.take(1), instances@, depth as nat) == shown(vs[0], instances@, depth as nat));
            }
        }
        i = i + 1;
        assert(out@ =~= start + shown_list(view_types(ts@).take(i as int), instances@, depth as nat));
    }
    assert(view_types(ts@).take(i as int) =~= view_types(ts@));
}

/// A list of types, such as the elements a tuple was made from.
pub struct TypeList {
    pub types: Vec<Type>,
}

impl View for TypeList {
    type V = Seq<TypeV>;

    open spec fn view(&self) -> Seq<TypeV> {
        view_types(self.types@)
    }
}

/// The anonymous classes that tuples became, by symbol, with the element types of each.
pub type Tuples = NameMap<TypeList>;

/// The message for a parameter asked to stand for two different types in one call.
pub open spec fn conflict_text(name: Seq<char>, already: TypeV, concrete: TypeV) -> Seq<char> {
    "`"@ + name + "` would have to be both "@ + type_text(already) + " and "@ + type_text(concrete)
        + " in this call — a type parameter stands for one type per call"@
}

/// The message for a declared type that an actual type does not match.
pub open spec fn mismatch_text(d: TypeV, a: TypeV, inst: InstancesV, depth: nat) -> Seq<char> {
    "expected "@ + shown(d, inst, depth) + ", but this is "@ + shown(a, inst, depth)
}

/// Matching a declared parameter type against an argument's actual type, binding type
/// parameters as it goes: structural, one direction, no unification variables and no
/// backtracking. `Ok` holds the bindings afterwards; `Err` the message that refuses the call.
pub open spec fn unified(
    d: TypeV,
    a: TypeV,
    m: Map<Seq<char>, TypeV>,
    inst: InstancesV,
    tup: Map<Seq<char>, Seq<TypeV>>,
    depth: nat,
) -> Result<Map<Seq<char>, TypeV>, Seq<char>>
    decreases d, 1int,
{
    let mismatch = Err(mismatch_text(d, a, inst, depth));
    match d {
        TypeV::Param(name) => if m.contains_key(name) {
            if m[name] != a {
                Err(conflict_text(name, m[name], a))
            } else {
                Ok(m)
            }
        } else {
            Ok(m.insert(name, a))
        },
        TypeV::Array { elem: de, len: dl } => match a {
            TypeV::Array { elem: ae, len: al } => if dl == al {
                unified(*de, *ae, m, inst, tup, depth)
            } else {
                mismatch
            },
            _ => if d == a { Ok(m) } else { mismatch },
        },
        TypeV::Slice(de) => match a {
            TypeV::Slice(ae) => unified(*de, *ae, m, inst, tup, depth),
            _ => if d == a { Ok(m) } else { mismatch },
        },
        TypeV::Generic { name: dn, arguments: dargs } => match a {
            TypeV::Named(sym) => if inst.contains_key(sym) && inst[sym].0 == dn
                && inst[sym].1.len() == dargs.len() {
                unified_all(dargs, inst[sym].1, m, inst, tup, depth)
            } else {
                mismatch
            },
            _ => if d == a { Ok(m) } else { mismatch },
        },
        TypeV::DynGeneric { name: dn, arguments: dargs } => match a {
            TypeV::Dyn(sym) => if inst.contains_key(sym) && inst[sym].0 == dn
                && inst[sym].1.len() == dargs.len() {
                unified_all(dargs, inst[sym].1, m, inst, tup, depth)
            } else {
                mismatch
            },
            _ => if d == a { Ok(m) } else { mismatch },
        },
        TypeV::Tuple(ds) => match a {
            TypeV::Tuple(es) => if ds.len() == es.len() {
                unified_all(ds, es, m, inst, tup, depth)
            } else if d == a {
                Ok(m)
            } else {
                mismatch
            },
            TypeV::Named(sym) => if tup.contains_key(sym) && tup[sym].len() == ds.len() {
                unified_all(ds, tup[sym], m, inst, tup, depth)
            } else {
                mismatch
            },
            _ => if d == a { Ok(m) } else { mismatch },
        },
        _ => if d == a { Ok(m) } else { mismatch },
    }
}

/// [`unified`] pair by pair, left to right, stopping at the first refusal.
pub open spec fn unified_all(
    ds: Seq<TypeV>,
    es: Seq<TypeV>,
    m: Map<Seq<char>, TypeV>,
    inst: InstancesV,
    tup: Map<Seq<char>, Seq<TypeV>>,
    depth: nat,
) -> Result<Map<Seq<char>, TypeV>, Seq<char>>
    decreases ds, 0int,
{
    if ds.len() == 0 || es.len() == 0 {
        Ok(m)
    } else {
        match unified(ds[0], es[0], m, inst, tup, depth) {
            Ok(m1) => unified_all(ds.skip(1), es.skip(1), m1, inst, tup, depth),
            Err(e) => Err(e),
        }
    }
}

fn conflict_message(name: &String, already: &Type, concrete: &Type) -> (r: String)
    ensures
        r@ == conflict_text(name@, already@, concrete@),
{
    let mut out = String::new();
    append(&mut out, "`");
    append(&mut out, name.as_str());
    append(&mut out, "` would have to be both ");
    already.write_text(&mut out);
    append(&mut out, " and ");
    concrete.write_text(&mut out);
    append(&mut out, " in this call — a type parameter stands for one type per call");
    assert(out@ =~= conflict_text(name@, already@, concrete@));
    out
}

fn mismatch_message(d: &Type, a: &Type, instances: &Instances) -> (r: String)
    ensures
        r@ == mismatch_text(d@, a@, instances@, instances.count()),
{
    let mut out = String::new();
    append(&mut out, "expected ");
    write_shown(d, instances, instances.len(), &mut out);
    append(&mut out, ", but this is ");
    write_shown(a, instances, instances.len(), &mut out);
    assert(out@ =~= mismatch_text(d@, a@, instances@, instances.count()));
    out
}

/// Matches a declared parameter type against an argument's actual type, binding type
/// parameters in `map` as it goes. This is the whole of inference for type arguments.
///
/// On success `map` holds exactly the bindings [`unified`] describes. On a refusal the message
/// is the one [`unified`] gives, and `map` may hold bindings made before the refusal. Either way
/// bindings are only ever added, never changed, and a declared type that mentions no parameter
/// leaves `map` as it was.
pub fn unify(
    declared: &Type,
    actual: &Type,
    map: &mut TypeMap,
    instances: &Instances,
    tuples: &Tuples,
) -> (r: Result<(), String>)
    ensures
        match r {
            Ok(()) => unified(declared@, actual@, old(map)@, instances@, tuples@, instances.count())
                == Ok::<Map<Seq<char>, TypeV>, Seq<char>>(final(map)@),
            Err(e) => unified(declared@, actual@, old(map)@, instances@, tuples@, instances.count())
                == Err::<Map<Seq<char>, TypeV>, Seq<char>>(e@),
        },
        extends(old(map)@, final(map)@),
        !mentions(declared@) ==> final(map)@ == old(map)@,
    decreases declared,
{
    proof {
        crate::ty::lemma_view_variant(*actual);
    }
    match declared {
        Type::Param(name) => {
            match map.get(name) {
                Some(already) => {
                    if !already.same(actual) {
                        return Err(conflict_message(name, already, actual));
                    }
                    return Ok(());
                },
                None => {},
            }
            map.insert(name.clone(), actual.duplicate());
            return Ok(());
        },
        Type::Array { elem: de, len: dl } => {
            if let Type::Array { elem: ae, len: al } = actual {
                if *dl == *al {
                    return unify(de, ae, map, instances, tuples);
                }
            }
        },
        Type::Slice(de) => {
            if let Type::Slice(ae) = actual {
                return unify(de, ae, map, instances, tuples);
            }
        },
        Type::Generic { name: dn, arguments: dargs } => {
            if let Type::Named(sym) = actual {
                match instances.get(sym) {
                    Some(found) => {
                        proof {
                            lemma_view_types(found.arguments@);
                            lemma_view_types(dargs@);
                        }
                        if found.of == *dn && found.arguments.len() == dargs.len() {
                            return unify_lists(dargs, &found.arguments, map, instances, tuples);
                        }
                    },
                    None => {},
                }
                return Err(mismatch_message(declared, actual, instances));
            }
        },
        Type::DynGeneric { name: dn, arguments: dargs } => {
            if let Type::Dyn(sym) = actual {
                match instances.get(sym) {
                    Some(found) => {
                        proof {
                            lemma_view_types(found.arguments@);
                            lemma_view_types(dargs@);
                        }
                        if found.of == *dn && found.arguments.len() == dargs.len() {
                            return unify_lists(dargs, &found.arguments, map, instances, tuples);
                        }
                    },
                    None => {},
                }
                return Err(mismatch_message(declared, actual, instances));
            }
        },
        Type::Tuple(ds) => {
            match actual {
                Type::Tuple(es) => {
                    proof {
                        lemma_view_types(es@);
                        lemma_view_types(ds@);
                    }
                    if ds.len() == es.len() {
                        return unify_lists(ds, es, map, instances, tuples);
                    }
                },
                Type::Named(sym) => {
                    match tuples.get(sym) {
                        Some(found) => {
                            proof {
                                lemma_view_types(found.types@);
                                lemma_view_types(ds@);
                            }
                            if found.types.len() == ds.len() {
                                return unify_lists(ds, &found.types, map, instances, tuples);
                            }
                        },
                        None => {},
                    }
                    return Err(mismatch_message(declared, actual, instances));
                },
                _ => {},
            }
        },
        _ => {},
    }
    if declared.same(actual) {
        Ok(())
    } else {
        Err(mismatch_message(declared, actual, instances))
    }
}

/// [`unify`] on two lists of the same length, pair by pair, stopping at the first refusal.
fn unify_lists(
    ds: &Vec<Type>,
    es: &Vec<Type>,
    map: &mut TypeMap,
    instances: &Instances,
    tuples: &Tuples,
) -> (r: Result<(), String>)
    requires
        ds@.len() == es@.len(),
    ensures
        match r {
            Ok(()) => unified_all(view_types(ds@), view_types(es@), old(map)@, instances@, tuples@, instances.count())
                == Ok::<Map<Seq<char>, TypeV>, Seq<char>>(final(map)@),
            Err(e) => unified_all(view_types(ds@), view_types(es@), old(map)@, instances@, tuples@, instances.count())
                == Err::<Map<Seq<char>, TypeV>, Seq<char>>(e@),
        },
        extends(old(map)@, final(map)@),
        !mentions_any(view_types(ds@)) ==> final(map)@ == old(map)@,
    decreases ds,
{
    let ghost vd = view_types(ds@);
    let ghost ve = view_types(es@);
    let ghost m0 = map@;
    let ghost whole = unified_all(vd, ve, m0, instances@, tuples@, instances.count());
    proof {
        lemma_view_types(ds@);
        lemma_view_types(es@);
    }
    assert(vd.skip(0) =~= vd);
    assert(ve.skip(0) =~= ve);
    let mut i: usize = 0;
    while i < ds.len()
        invariant
            0 <= i <= ds.len(),
            ds@.len() == es@.len(),
            vd == view_types(ds@),
            ve == view_types(es@),
            vd.len() == ds@.len(),
            ve.len() == es@.len(),
            forall|k: int| 0 <= k < ds@.len() ==> #[trigger] vd[k] == view_type(ds@[k]),
            forall|k: int| 0 <= k < es@.len() ==> #[trigger] ve[k] == view_type(es@[k]),
            m0 == old(map)@,
            extends(m0, map@),
            !mentions_any(vd) ==> map@ == m0,
            whole == unified_all(vd, ve, m0, instances@, tuples@, instances.count()),
            whole == unified_all(vd.skip(i as int), ve.skip(i as int), map@, instances@, tuples@, instances.count()),
        decreases ds.len() - i,
    {
        proof {
            assert(decreases_to!(ds => ds@[i as int]));
            assert(vd.skip(i as int)[0] == vd[i as int]);
            assert(ve.skip(i as int)[0] == ve[i as int]);
            assert(vd.skip(i as int).skip(1) =~= vd.skip(i + 1));
            assert(ve.skip(i as int).skip(1) =~= ve.skip(i + 1));
        }
        let ghost before = map@;
        proof {
            lemma_mentions_any(vd);
            if !mentions_any(vd) {
                assert(!mentions(vd[i as int]));
            }
        }
        let outcome = unify(&ds[i], &es[i], map, instances, tuples);
        proof {
            assert forall|k: Seq<char>| #[trigger] m0.contains_key(k) implies map@.contains_key(k) && map@[k] == m0[k] by {
                assert(before.contains_key(k));
            }
        }
        match outcome {
            Ok(()) => {},
            Err(e) => {
                assert(vd.skip(i as int).len() > 0 && ve.skip(i as int).len() > 0);
                assert(unified(vd[i as int], ve[i as int], before, instances@, tuples@, instances.count())
                    == Err::<Map<Seq<char>, TypeV>, Seq<char>>(e@));
                assert(unified_all(vd.skip(i as int), ve.skip(i as int), before, instances@, tuples@, instances.count())
                    == Err::<Map<Seq<char>, TypeV>, Seq<char>>(e@));
                assert(whole == Err::<Map<Seq<char>, TypeV>, Seq<char>>(e@));
                return Err(e);
            },
        }
        i = i + 1;
    }
    proof {
        assert(vd.skip(i as int).len() == 0);
    }
    Ok(())
}

} // verus!
