//! Whether a value of a type can hold storage built in a region: a `String`, a growable array, a
//! handle, or anything that contains one.
//!
//! The answer errs towards yes. A type parameter, an interface object, and a name nothing
//! declares all answer yes, because none of them says what the storage is, and a wrong no is a
//! use-after-free while a wrong yes only costs memory.
use vstd::prelude::*;
use crate::compare::{Fields, view_fields, seen_contains, view_names};
use crate::generics::{TypeMap, subst, subst_all, lemma_subst_all, substitute};
use crate::names::NameMap;
use crate::symbols::{as_written, written_symbol};
use crate::ty::append;
use crate::ty::{Type, TypeV, type_text, view_types, lemma_view_types};

verus! {

/// An enum's variants: each name with its payload types, in declaration order.
pub struct Variants {
    pub variants: Vec<(String, Vec<Type>)>,
}

/// The view of a list of variants.
pub open spec fn view_variants(s: Seq<(String, Vec<Type>)>) -> Seq<(Seq<char>, Seq<TypeV>)> {
    Seq::new(s.len(), |i: int| (s[i].0@, view_types(s[i].1@)))
}

impl View for Variants {
    type V = Seq<(Seq<char>, Seq<TypeV>)>;

    open spec fn view(&self) -> Seq<(Seq<char>, Seq<TypeV>)> {
        view_variants(self.variants@)
    }
}

/// A generic class: the names of its parameters, and its fields written in terms of them.
pub struct GenericRecord {
    pub parameters: Vec<String>,
    pub fields: Vec<(String, Type)>,
}

impl View for GenericRecord {
    type V = (Seq<Seq<char>>, Seq<(Seq<char>, TypeV)>);

    open spec fn view(&self) -> (Seq<Seq<char>>, Seq<(Seq<char>, TypeV)>) {
        (view_names(self.parameters@), view_fields(self.fields@))
    }
}

/// A generic enum: the names of its parameters, and its variants written in terms of them.
pub struct GenericEnum {
    pub parameters: Vec<String>,
    pub variants: Vec<(String, Vec<Type>)>,
}

impl View for GenericEnum {
    type V = (Seq<Seq<char>>, Seq<(Seq<char>, Seq<TypeV>)>);

    open spec fn view(&self) -> (Seq<Seq<char>>, Seq<(Seq<char>, Seq<TypeV>)>) {
        (view_names(self.parameters@), view_variants(self.variants@))
    }
}

/// What the program declares, as far as storage goes: its classes, the instantiations of generic
/// classes made so far, its enums (and the instantiations of generic enums), and its generic
/// classes and enums.
pub struct Layouts {
    pub records: NameMap<Fields>,
    pub made_records: NameMap<Fields>,
    pub enums: NameMap<Variants>,
    pub generic_records: NameMap<GenericRecord>,
    pub generic_enums: NameMap<GenericEnum>,
}

/// The view of [`Layouts`].
pub ghost struct LayoutsV {
    pub records: Map<Seq<char>, Seq<(Seq<char>, TypeV)>>,
    pub made_records: Map<Seq<char>, Seq<(Seq<char>, TypeV)>>,
    pub enums: Map<Seq<char>, Seq<(Seq<char>, Seq<TypeV>)>>,
    pub generic_records: Map<Seq<char>, (Seq<Seq<char>>, Seq<(Seq<char>, TypeV)>)>,
    pub generic_enums: Map<Seq<char>, (Seq<Seq<char>>, Seq<(Seq<char>, Seq<TypeV>)>)>,
}

impl View for Layouts {
    type V = LayoutsV;

    open spec fn view(&self) -> LayoutsV {
        LayoutsV {
            records: self.records@,
            made_records: self.made_records@,
            enums: self.enums@,
            generic_records: self.generic_records@,
            generic_enums: self.generic_enums@,
        }
    }
}

/// The largest number of declarations the question walks inside one another: one more than the
/// number of declarations, or the largest `u64` if that is fewer.
pub open spec fn fuel_for(l: Layouts) -> nat {
    let n = l.records.count() + l.made_records.count() + l.enums.count() + l.generic_records.count()
        + l.generic_enums.count() + 1;
    if n > u64::MAX { u64::MAX as nat } else { n }
}

/// The fields of a class or of an instantiation of one, or of a generic class by its own name.
pub open spec fn fields_of(d: LayoutsV, n: Seq<char>) -> Option<Seq<(Seq<char>, TypeV)>> {
    if d.records.contains_key(n) {
        Some(d.records[n])
    } else if d.made_records.contains_key(n) {
        Some(d.made_records[n])
    } else if d.generic_records.contains_key(n) {
        Some(d.generic_records[n].1)
    } else {
        None
    }
}

/// The variants of an enum or of an instantiation of one.
pub open spec fn variants_of(d: LayoutsV, n: Seq<char>) -> Option<Seq<(Seq<char>, Seq<TypeV>)>> {
    if d.enums.contains_key(n) {
        Some(d.enums[n])
    } else {
        None
    }
}

/// The binding of a generic's parameters to an application's arguments: the first `n` of each,
/// paired in order, a later pair winning over an earlier one for the same name.
pub open spec fn pairs_map(params: Seq<Seq<char>>, args: Seq<TypeV>, n: nat) -> Map<Seq<char>, TypeV>
    decreases n,
{
    if n == 0 {
        Map::empty()
    } else {
        pairs_map(params, args, (n - 1) as nat).insert(params[n - 1], args[n - 1])
    }
}

/// Parameters paired with arguments, as far as the shorter list goes.
pub open spec fn bound_arguments(params: Seq<Seq<char>>, args: Seq<TypeV>) -> Map<Seq<char>, TypeV> {
    pairs_map(params, args, if params.len() < args.len() { params.len() } else { args.len() })
}

/// Fields with a substitution applied to their types.
pub open spec fn subst_fields(fs: Seq<(Seq<char>, TypeV)>, m: Map<Seq<char>, TypeV>) -> Seq<(Seq<char>, TypeV)> {
    Seq::new(fs.len(), |i: int| (fs[i].0, subst(fs[i].1, m)))
}

/// Variants with a substitution applied to their payload types.
pub open spec fn subst_variants(vs: Seq<(Seq<char>, Seq<TypeV>)>, m: Map<Seq<char>, TypeV>) -> Seq<(Seq<char>, Seq<TypeV>)> {
    Seq::new(vs.len(), |i: int| (vs[i].0, subst_all(vs[i].1, m)))
}

/// Whether a value of type `t` may hold region storage. `seen` lists the names (and written
/// generic applications) already being asked about further out: asking again answers `false`,
/// because the recursion reaches one only through a field whose siblings decide. At most `fuel`
/// declarations are walked inside one another; past that the answer is the safe `true`.
pub open spec fn holds_storage(d: LayoutsV, t: TypeV, seen: Seq<Seq<char>>, fuel: nat) -> bool
    decreases fuel, 1int, t,
{
    match t {
        TypeV::Handle(_) => true,
        TypeV::String => true,
        TypeV::Slice(_) => true,
        TypeV::Tuple(elements) => any_holds(d, elements, seen, fuel),
        TypeV::Named(n) => {
            if seen.contains(n) {
                false
            } else if fuel == 0 {
                true
            } else {
                match fields_of(d, n) {
                    Some(fs) => fields_hold(d, fs, seen.push(n), (fuel - 1) as nat),
                    None => match variants_of(d, n) {
                        Some(vs) => variants_hold(d, vs, seen.push(n), (fuel - 1) as nat),
                        None => true,
                    },
                }
            }
        },
        TypeV::Array { elem, .. } => holds_storage(d, *elem, seen, fuel),
        TypeV::Generic { name, arguments } => {
            let key = type_text(t);
            if seen.contains(key) {
                false
            } else if fuel == 0 {
                true
            } else {
                generic_holds(d, name, arguments, seen.push(key), (fuel - 1) as nat)
            }
        },
        TypeV::Param(_) => true,
        TypeV::Dyn(_) => true,
        TypeV::DynGeneric { .. } => true,
        TypeV::Int => false,
        TypeV::Bool => false,
        TypeV::CInt => false,
        TypeV::Width { .. } => false,
        TypeV::CPointer => false,
        TypeV::CDouble => false,
        TypeV::Decimal { .. } => false,
    }
}

/// Whether some type of the list may hold region storage.
pub open spec fn any_holds(d: LayoutsV, ts: Seq<TypeV>, seen: Seq<Seq<char>>, fuel: nat) -> bool
    decreases fuel, 1int, ts,
{
    ts.len() > 0 && (holds_storage(d, ts[0], seen, fuel) || any_holds(d, ts.skip(1), seen, fuel))
}

/// Whether some field of the list may hold region storage.
pub open spec fn fields_hold(d: LayoutsV, fs: Seq<(Seq<char>, TypeV)>, seen: Seq<Seq<char>>, fuel: nat) -> bool
    decreases fuel, 1int, fs,
{
    fs.len() > 0 && (holds_storage(d, fs[0].1, seen, fuel) || fields_hold(d, fs.skip(1), seen, fuel))
}

/// Whether some payload of some variant of the list may hold region storage.
pub open spec fn variants_hold(d: LayoutsV, vs: Seq<(Seq<char>, Seq<TypeV>)>, seen: Seq<Seq<char>>, fuel: nat) -> bool
    decreases fuel, 1int, vs,
{
    vs.len() > 0 && (any_holds(d, vs[0].1, seen, fuel) || variants_hold(d, vs.skip(1), seen, fuel))
}

/// Whether generic `name` applied to `arguments` may hold region storage: its fields (or variant
/// payloads) with the arguments put in for its parameters. An application of something nothing
/// declares answers `true`.
pub open spec fn generic_holds(d: LayoutsV, name: Seq<char>, arguments: Seq<TypeV>, seen: Seq<Seq<char>>, fuel: nat) -> bool
    decreases fuel, 2int, arguments,
{
    if d.generic_records.contains_key(name) {
        let (params, fs) = d.generic_records[name];
        fields_hold(d, subst_fields(fs, bound_arguments(params, arguments)), seen, fuel)
    } else if d.generic_enums.contains_key(name) {
        let (params, vs) = d.generic_enums[name];
        variants_hold(d, subst_variants(vs, bound_arguments(params, arguments)), seen, fuel)
    } else {
        true
    }
}

impl Layouts {
    /// [`fuel_for`], computed.
    fn fuel(&self) -> (r: u64)
        ensures
            r == fuel_for(*self),
    {
        let a = self.records.len() as u64;
        let m = self.made_records.len() as u64;
        let b = self.enums.len() as u64;
        let c = self.generic_records.len() as u64;
        let e = self.generic_enums.len() as u64;
        a.saturating_add(m).saturating_add(b).saturating_add(c).saturating_add(e).saturating_add(1)
    }
}

/// Whether a value of type `ty` may hold storage built in a region. Asked of a value that is
/// about to outlive the region it was built in: `true` refuses the escape.
pub fn may_be_region_storage(layouts: &Layouts, ty: &Type) -> (r: bool)
    ensures
        r == holds_storage(layouts@, ty@, Seq::empty(), fuel_for(*layouts)),
{
    let mut seen: Vec<String> = Vec::new();
    let fuel = layouts.fuel();
    proof {
        assert(view_names(seen@) =~= Seq::<Seq<char>>::empty());
    }
    storage_within(layouts, ty, &mut seen, fuel)
}

/// The fields of a class, of an instantiation of one, or of a generic class by its own name.
pub(crate) fn fields_of_name<'a>(layouts: &'a Layouts, n: &String) -> (r: Option<&'a Vec<(String, Type)>>)
    ensures
        r matches Some(fs) ==> fields_of(layouts@, n@) == Some(view_fields(fs@)),
        r is None ==> fields_of(layouts@, n@) is None,
{
    match layouts.records.get(n) {
        Some(fields) => Some(&fields.fields),
        None => match layouts.made_records.get(n) {
            Some(fields) => Some(&fields.fields),
            None => match layouts.generic_records.get(n) {
                Some(g) => Some(&g.fields),
                None => None,
            },
        },
    }
}

/// [`holds_storage`], with `seen` the names being asked about further out; `seen` is handed
/// back as it came.
fn storage_within(layouts: &Layouts, ty: &Type, seen: &mut Vec<String>, fuel: u64) -> (r: bool)
    ensures
        r == holds_storage(layouts@, ty@, view_names(old(seen)@), fuel as nat),
        final(seen)@ == old(seen)@,
    decreases fuel, 1int, ty,
{
    match ty {
        Type::Handle(_) => true,
        Type::String => true,
        Type::Slice(_) => true,
        Type::Tuple(elements) => {
            proof { lemma_view_types(elements@); }
            any_within(layouts, elements, seen, fuel)
        },
        Type::Named(n) => {
            if seen_contains(seen, n) {
                return false;
            }
            if fuel == 0 {
                return true;
            }
            let ghost before = seen@;
            seen.push(n.clone());
            proof {
                assert(view_names(seen@) =~= view_names(before).push(n@));
            }
            let answer = match fields_of_name(layouts, n) {
                Some(fields) => fields_within(layouts, fields, seen, fuel - 1),
                None => match layouts.enums.get(n) {
                    Some(vs) => variants_within(layouts, &vs.variants, seen, fuel - 1),
                    None => true,
                },
            };
            seen.pop();
            proof {
                assert(seen@ =~= before);
            }
            answer
        },
        Type::Array { elem, .. } => storage_within(layouts, elem, seen, fuel),
        Type::Generic { name, arguments } => {
            let key = ty.text();
            if seen_contains(seen, &key) {
                return false;
            }
            if fuel == 0 {
                return true;
            }
            let ghost before = seen@;
            seen.push(key);
            proof {
                assert(view_names(seen@) =~= view_names(before).push(type_text(ty@)));
            }
            let answer = generic_body_holds_storage(layouts, name, arguments, seen, fuel - 1);
            seen.pop();
            proof {
                assert(seen@ =~= before);
            }
            answer
        },
        Type::Param(_) => true,
        Type::Dyn(_) => true,
        Type::DynGeneric { .. } => true,
        Type::Int => false,
        Type::Bool => false,
        Type::CInt => false,
        Type::Width { .. } => false,
        Type::CPointer => false,
        Type::CDouble => false,
        Type::Decimal { .. } => false,
    }
}

/// [`any_holds`] of a list of types.
fn any_within(layouts: &Layouts, ts: &Vec<Type>, seen: &mut Vec<String>, fuel: u64) -> (r: bool)
    ensures
        r == any_holds(layouts@, view_types(ts@), view_names(old(seen)@), fuel as nat),
        final(seen)@ == old(seen)@,
    decreases fuel, 1int, ts,
{
    let ghost vs = view_types(ts@);
    proof {
        lemma_view_types(ts@);
        assert(vs.skip(0) =~= vs);
    }
    let mut i: usize = 0;
    while i < ts.len()
        invariant
            0 <= i <= ts@.len(),
            vs == view_types(ts@),
            vs.len() == ts@.len(),
            forall|k: int| 0 <= k < ts@.len() ==> #[trigger] vs[k] == ts@[k]@,
            seen@ == old(seen)@,
            any_holds(layouts@, vs, view_names(seen@), fuel as nat)
                == any_holds(layouts@, vs.skip(i as int), view_names(seen@), fuel as nat),
        decreases ts.len() - i,
    {
        proof {
            assert(vs.skip(i as int).skip(1) =~= vs.skip(i + 1));
            assert(vs.skip(i as int)[0] == ts@[i as int]@);
            assert(decreases_to!(ts => ts@[i as int]));
        }
        if storage_within(layouts, &ts[i], seen, fuel) {
            return true;
        }
        i = i + 1;
    }
    false
}

/// [`fields_hold`] of a list of fields.
fn fields_within(layouts: &Layouts, fs: &Vec<(String, Type)>, seen: &mut Vec<String>, fuel: u64) -> (r: bool)
    ensures
        r == fields_hold(layouts@, view_fields(fs@), view_names(old(seen)@), fuel as nat),
        final(seen)@ == old(seen)@,
    decreases fuel, 1int, fs,
{
    let ghost vs = view_fields(fs@);
    proof {
        assert(vs.skip(0) =~= vs);
    }
    let mut i: usize = 0;
    while i < fs.len()
        invariant
            0 <= i <= fs@.len(),
            vs == view_fields(fs@),
            seen@ == old(seen)@,
            fields_hold(layouts@, vs, view_names(seen@), fuel as nat)
                == fields_hold(layouts@, vs.skip(i as int), view_names(seen@), fuel as nat),
        decreases fs.len() - i,
    {
        proof {
            assert(vs.skip(i as int).skip(1) =~= vs.skip(i + 1));
            assert(vs.skip(i as int)[0].1 == fs@[i as int].1@);
            assert(decreases_to!(fs => fs@[i as int]));
            assert(decreases_to!(fs@[i as int] => fs@[i as int].1));
        }
        if storage_within(layouts, &fs[i].1, seen, fuel) {
            return true;
        }
        i = i + 1;
    }
    false
}

/// [`variants_hold`] of a list of variants.
fn variants_within(layouts: &Layouts, vs: &Vec<(String, Vec<Type>)>, seen: &mut Vec<String>, fuel: u64) -> (r: bool)
    ensures
        r == variants_hold(layouts@, view_variants(vs@), view_names(old(seen)@), fuel as nat),
        final(seen)@ == old(seen)@,
    decreases fuel, 1int, vs,
{
    let ghost ws = view_variants(vs@);
    proof {
        assert(ws.skip(0) =~= ws);
    }
    let mut i: usize = 0;
    while i < vs.len()
        invariant
            0 <= i <= vs@.len(),
            ws == view_variants(vs@),
            seen@ == old(seen)@,
            variants_hold(layouts@, ws, view_names(seen@), fuel as nat)
                == variants_hold(layouts@, ws.skip(i as int), view_names(seen@), fuel as nat),
        decreases vs.len() - i,
    {
        proof {
            assert(ws.skip(i as int).skip(1) =~= ws.skip(i + 1));
            assert(ws.skip(i as int)[0].1 == view_types(vs@[i as int].1@));
            assert(decreases_to!(vs => vs@[i as int]));
            assert(decreases_to!(vs@[i as int] => vs@[i as int].1));
        }
        if any_within(layouts, &vs[i].1, seen, fuel) {
            return true;
        }
        i = i + 1;
    }
    false
}

/// The binding of a generic's parameters to an application's arguments.
pub(crate) fn argument_map(parameters: &Vec<String>, arguments: &Vec<Type>) -> (r: TypeMap)
    ensures
        r@ == bound_arguments(view_names(parameters@), view_types(arguments@)),
{
    let n: usize = if parameters.len() < arguments.len() { parameters.len() } else { arguments.len() };
    let ghost ps = view_names(parameters@);
    let ghost xs = view_types(arguments@);
    proof {
        lemma_view_types(arguments@);
    }
    let mut map: TypeMap = NameMap::new();
    let mut i: usize = 0;
    while i < n
        invariant
            0 <= i <= n,
            n <= parameters@.len(),
            n <= arguments@.len(),
            ps == view_names(parameters@),
            xs == view_types(arguments@),
            xs.len() == arguments@.len(),
            forall|k: int| 0 <= k < arguments@.len() ==> #[trigger] xs[k] == arguments@[k]@,
            map@ == pairs_map(ps, xs, i as nat),
        decreases n - i,
    {
        map.insert(parameters[i].clone(), arguments[i].duplicate());
        i = i + 1;
    }
    map
}

/// Whether generic `name` applied to `arguments` may hold region storage: see [`generic_holds`].
fn generic_body_holds_storage(
    layouts: &Layouts,
    name: &String,
    arguments: &Vec<Type>,
    seen: &mut Vec<String>,
    fuel: u64,
) -> (r: bool)
    ensures
        r == generic_holds(layouts@, name@, view_types(arguments@), view_names(old(seen)@), fuel as nat),
        final(seen)@ == old(seen)@,
    decreases fuel, 2int, arguments,
{
    if let Some(g) = layouts.generic_records.get(name) {
        let map = argument_map(&g.parameters, arguments);
        let mut fields: Vec<(String, Type)> = Vec::new();
        let mut i: usize = 0;
        while i < g.fields.len()
            invariant
                0 <= i <= g.fields@.len(),
                fields@.len() == i,
                forall|k: int| 0 <= k < i ==> #[trigger] fields@[k].0@ == g.fields@[k].0@
                    && fields@[k].1@ == subst(g.fields@[k].1@, map@),
            decreases g.fields.len() - i,
        {
            let t = substitute(&g.fields[i].1, &map);
            fields.push((g.fields[i].0.clone(), t));
            i = i + 1;
        }
        assert(view_fields(fields@) =~= subst_fields(view_fields(g.fields@), map@));
        return fields_within(layouts, &fields, seen, fuel);
    }
    if let Some(g) = layouts.generic_enums.get(name) {
        let map = argument_map(&g.parameters, arguments);
        let mut variants: Vec<(String, Vec<Type>)> = Vec::new();
        let mut i: usize = 0;
        while i < g.variants.len()
            invariant
                0 <= i <= g.variants@.len(),
                variants@.len() == i,
                forall|k: int| 0 <= k < i ==> #[trigger] variants@[k].0@ == g.variants@[k].0@
                    && view_types(variants@[k].1@) == subst_all(view_types(g.variants@[k].1@), map@),
            decreases g.variants.len() - i,
        {
            let payload = substitute_payload(&g.variants[i].1, &map);
            variants.push((g.variants[i].0.clone(), payload));
            i = i + 1;
        }
        assert(view_variants(variants@) =~= subst_variants(view_variants(g.variants@), map@));
        return variants_within(layouts, &variants, seen, fuel);
    }
    true
}

/// Each payload type with a substitution applied.
pub(crate) fn substitute_payload(ts: &Vec<Type>, map: &TypeMap) -> (r: Vec<Type>)
    ensures
        view_types(r@) == subst_all(view_types(ts@), map@),
{
    proof {
        lemma_view_types(ts@);
        lemma_subst_all(view_types(ts@), map@);
    }
    let mut out: Vec<Type> = Vec::new();
    let mut i: usize = 0;
    while i < ts.len()
        invariant
            0 <= i <= ts@.len(),
            out@.len() == i,
            forall|k: int| 0 <= k < i ==> #[trigger] out@[k]@ == subst(ts@[k]@, map@),
        decreases ts.len() - i,
    {
        out.push(substitute(&ts[i], map));
        i = i + 1;
    }
    proof {
        lemma_view_types(out@);
        assert forall|k: int| 0 <= k < ts@.len() implies #[trigger] view_types(out@)[k] == subst_all(view_types(ts@), map@)[k] by {
            assert(view_types(out@)[k] == out@[k]@);
            assert(view_types(ts@)[k] == ts@[k]@);
        }
        assert(view_types(out@) =~= subst_all(view_types(ts@), map@));
    }
    out
}

/// A chain of symbols the way their author spelled them, separated by ` -> `.
pub open spec fn chain_text(trail: Seq<Seq<char>>) -> Seq<char>
    decreases trail.len(),
{
    if trail.len() == 0 {
        Seq::empty()
    } else if trail.len() == 1 {
        written_symbol(trail[0])
    } else {
        chain_text(trail.drop_last()) + " -> "@ + written_symbol(trail.last())
    }
}

/// The refusal of a class that contains itself: `trail` is the path of classes walked from the
/// first, and `name` the one met again.
pub open spec fn cycle_text(trail: Seq<Seq<char>>, name: Seq<char>) -> Seq<char> {
    let first = written_symbol(trail[0]);
    "a `"@ + first + "` cannot contain a `"@ + first + "` — it would have no finite size (containment cycle: "@
        + chain_text(trail) + " -> "@ + written_symbol(name) + "). Hold it behind a slice (`["@ + first
        + "]`) instead: a slice is a pointer, so the size is finite and the recursion still works."@
}

/// Whether class (or enum) `name` has a finite size: no path of fields and payloads held by value
/// leads from it back to something on `trail`, the path walked so far. A slice is a pointer and
/// ends the walk; a fixed array holds its elements by value and does not. At most `fuel`
/// declarations are walked inside one another.
pub open spec fn finite_check(d: LayoutsV, name: Seq<char>, trail: Seq<Seq<char>>, fuel: nat) -> Result<(), Seq<char>>
    decreases fuel, 0int, name,
{
    if trail.contains(name) {
        Err(cycle_text(trail, name))
    } else if fuel == 0 {
        Ok(())
    } else {
        match fields_of(d, name) {
            Some(fs) => fields_finite(d, fs, trail.push(name), (fuel - 1) as nat),
            None => match variants_of(d, name) {
                Some(vs) => variants_finite(d, vs, trail.push(name), (fuel - 1) as nat),
                None => Ok(()),
            },
        }
    }
}

/// Follows one field or payload type for [`finite_check`].
pub open spec fn follow_check(d: LayoutsV, t: TypeV, trail: Seq<Seq<char>>, fuel: nat) -> Result<(), Seq<char>>
    decreases fuel, 1int, t,
{
    match t {
        TypeV::Named(inner) => finite_check(d, inner, trail, fuel),
        TypeV::Array { elem, .. } => follow_check(d, *elem, trail, fuel),
        _ => Ok(()),
    }
}

/// [`follow_check`] of each field in turn, stopping at the first refusal.
pub open spec fn fields_finite(d: LayoutsV, fs: Seq<(Seq<char>, TypeV)>, trail: Seq<Seq<char>>, fuel: nat) -> Result<(), Seq<char>>
    decreases fuel, 1int, fs,
{
    if fs.len() == 0 {
        Ok(())
    } else {
        match follow_check(d, fs[0].1, trail, fuel) {
            Err(e) => Err(e),
            Ok(()) => fields_finite(d, fs.skip(1), trail, fuel),
        }
    }
}

/// [`follow_check`] of each payload type in turn, stopping at the first refusal.
pub open spec fn payload_finite(d: LayoutsV, ts: Seq<TypeV>, trail: Seq<Seq<char>>, fuel: nat) -> Result<(), Seq<char>>
    decreases fuel, 1int, ts,
{
    if ts.len() == 0 {
        Ok(())
    } else {
        match follow_check(d, ts[0], trail, fuel) {
            Err(e) => Err(e),
            Ok(()) => payload_finite(d, ts.skip(1), trail, fuel),
        }
    }
}

/// [`payload_finite`] of each variant in turn, stopping at the first refusal.
pub open spec fn variants_finite(d: LayoutsV, vs: Seq<(Seq<char>, Seq<TypeV>)>, trail: Seq<Seq<char>>, fuel: nat) -> Result<(), Seq<char>>
    decreases fuel, 1int, vs,
{
    if vs.len() == 0 {
        Ok(())
    } else {
        match payload_finite(d, vs[0].1, trail, fuel) {
            Err(e) => Err(e),
            Ok(()) => variants_finite(d, vs.skip(1), trail, fuel),
        }
    }
}

/// Whether a value of type `t` holds a `target` by value, directly or inside classes and enums it
/// holds by value. A slice and an interface object are pointers and hold nothing by value. `seen`
/// lists the names already walked; at most `fuel` are walked inside one another.
pub open spec fn embeds(d: LayoutsV, t: TypeV, target: Seq<char>, seen: Seq<Seq<char>>, fuel: nat) -> bool
    decreases fuel, 1int, t,
{
    match t {
        TypeV::Array { elem, .. } => embeds(d, *elem, target, seen, fuel),
        TypeV::Named(n) => {
            if n == target {
                true
            } else if seen.contains(n) || fuel == 0 {
                false
            } else if d.records.contains_key(n) {
                fields_embed(d, d.records[n], target, seen.push(n), (fuel - 1) as nat)
            } else {
                match variants_of(d, n) {
                    Some(vs) => variants_embed(d, vs, target, seen.push(n), (fuel - 1) as nat),
                    None => false,
                }
            }
        },
        _ => false,
    }
}

/// Whether some field holds `target` by value.
pub open spec fn fields_embed(d: LayoutsV, fs: Seq<(Seq<char>, TypeV)>, target: Seq<char>, seen: Seq<Seq<char>>, fuel: nat) -> bool
    decreases fuel, 1int, fs,
{
    fs.len() > 0 && (embeds(d, fs[0].1, target, seen, fuel) || fields_embed(d, fs.skip(1), target, seen, fuel))
}

/// Whether some payload type holds `target` by value.
pub open spec fn payload_embeds(d: LayoutsV, ts: Seq<TypeV>, target: Seq<char>, seen: Seq<Seq<char>>, fuel: nat) -> bool
    decreases fuel, 1int, ts,
{
    ts.len() > 0 && (embeds(d, ts[0], target, seen, fuel) || payload_embeds(d, ts.skip(1), target, seen, fuel))
}

/// Whether some variant's payload holds `target` by value.
pub open spec fn variants_embed(d: LayoutsV, vs: Seq<(Seq<char>, Seq<TypeV>)>, target: Seq<char>, seen: Seq<Seq<char>>, fuel: nat) -> bool
    decreases fuel, 1int, vs,
{
    vs.len() > 0 && (payload_embeds(d, vs[0].1, target, seen, fuel) || variants_embed(d, vs.skip(1), target, seen, fuel))
}

fn write_chain(out: &mut String, trail: &Vec<String>)
    ensures
        final(out)@ == old(out)@ + chain_text(view_names(trail@)),
{
    let ghost t = view_names(trail@);
    let ghost start = out@;
    let mut i: usize = 0;
    proof {
        assert(t.take(0) =~= Seq::<Seq<char>>::empty());
        assert(start + chain_text(t.take(0)) =~= start);
    }
    while i < trail.len()
        invariant
            0 <= i <= trail@.len(),
            t == view_names(trail@),
            out@ == start + chain_text(t.take(i as int)),
        decreases trail.len() - i,
    {
        proof {
            let u = t.take(i + 1);
            assert(u.drop_last() =~= t.take(i as int));
            assert(u.last() == trail@[i as int]@);
        }
        if i > 0 {
            append(out, " -> ");
        }
        let shown = as_written(trail[i].as_str());
        append(out, shown.as_str());
        assert(out@ =~= start + chain_text(t.take(i + 1)));
        i = i + 1;
    }
    assert(t.take(i as int) =~= t);
}

fn cycle_message(trail: &Vec<String>, name: &String) -> (r: String)
    requires
        trail@.len() > 0,
    ensures
        r@ == cycle_text(view_names(trail@), name@),
{
    let first = as_written(trail[0].as_str());
    let last = as_written(name.as_str());
    let mut out = String::new();
    append(&mut out, "a `");
    append(&mut out, first.as_str());
    append(&mut out, "` cannot contain a `");
    append(&mut out, first.as_str());
    append(&mut out, "` — it would have no finite size (containment cycle: ");
    write_chain(&mut out, trail);
    append(&mut out, " -> ");
    append(&mut out, last.as_str());
    append(&mut out, "). Hold it behind a slice (`[");
    append(&mut out, first.as_str());
    append(&mut out, "]`) instead: a slice is a pointer, so the size is finite and the recursion still works.");
    assert(view_names(trail@)[0] == trail@[0]@);
    assert(out@ =~= cycle_text(view_names(trail@), name@));
    out
}

/// No class may contain itself, directly or through other classes and enums held by value: it
/// would have no finite size. `trail` is the path walked so far, handed back as it came when the
/// answer is `Ok`.
pub fn check_struct_finite(layouts: &Layouts, name: &String, trail: &mut Vec<String>) -> (r: Result<(), String>)
    ensures
        r matches Ok(_) ==> finite_check(layouts@, name@, view_names(old(trail)@), fuel_for(*layouts)) is Ok
            && final(trail)@ == old(trail)@,
        r matches Err(e) ==> finite_check(layouts@, name@, view_names(old(trail)@), fuel_for(*layouts)) == Err::<(), Seq<char>>(e@),
{
    let fuel = layouts.fuel();
    finite_within(layouts, name, trail, fuel)
}

#[verifier::loop_isolation(false)]
fn finite_within(layouts: &Layouts, name: &String, trail: &mut Vec<String>, fuel: u64) -> (r: Result<(), String>)
    ensures
        r matches Ok(_) ==> finite_check(layouts@, name@, view_names(old(trail)@), fuel as nat) is Ok
            && final(trail)@ == old(trail)@,
        r matches Err(e) ==> finite_check(layouts@, name@, view_names(old(trail)@), fuel as nat) == Err::<(), Seq<char>>(e@),
    decreases fuel, 0int, name@,
{
    if seen_contains(trail, name) {
        return Err(cycle_message(trail, name));
    }
    if fuel == 0 {
        return Ok(());
    }
    let ghost before = trail@;
    trail.push(name.clone());
    proof {
        assert(view_names(trail@) =~= view_names(before).push(name@));
    }
    match fields_of_name(layouts, name) {
        Some(fields) => {
            let ghost fs = view_fields(fields@);
            let ghost t2 = view_names(trail@);
            proof {
                assert(fs.skip(0) =~= fs);
            }
            let mut i: usize = 0;
            while i < fields.len()
                invariant
                    0 <= i <= fields@.len(),
                    fs == view_fields(fields@),
                    trail@ == before.push(*name),
                    t2 == view_names(trail@),
                    fields_finite(layouts@, fs, t2, (fuel - 1) as nat)
                        == fields_finite(layouts@, fs.skip(i as int), t2, (fuel - 1) as nat),
                decreases fields.len() - i,
            {
                proof {
                    assert(fs.skip(i as int).skip(1) =~= fs.skip(i + 1));
                    assert(fs.skip(i as int)[0].1 == fields@[i as int].1@);
                }
                match follow_finite(layouts, &fields[i].1, trail, fuel - 1) {
                    Err(e) => return Err(e),
                    Ok(()) => {},
                }
                i = i + 1;
            }
        },
        None => match layouts.enums.get(name) {
            Some(vs) => {
                let ghost ws = view_variants(vs.variants@);
                let ghost t2 = view_names(trail@);
                proof {
                    assert(ws.skip(0) =~= ws);
                }
                let mut i: usize = 0;
                while i < vs.variants.len()
                    invariant
                        0 <= i <= vs.variants@.len(),
                        ws == view_variants(vs.variants@),
                        trail@ == before.push(*name),
                        t2 == view_names(trail@),
                        variants_finite(layouts@, ws, t2, (fuel - 1) as nat)
                            == variants_finite(layouts@, ws.skip(i as int), t2, (fuel - 1) as nat),
                    decreases vs.variants.len() - i,
                {
                    proof {
                        assert(ws.skip(i as int).skip(1) =~= ws.skip(i + 1));
                        assert(ws.skip(i as int)[0].1 == view_types(vs.variants@[i as int].1@));
                    }
                    match payload_finite_within(layouts, &vs.variants[i].1, trail, fuel - 1) {
                        Err(e) => return Err(e),
                        Ok(()) => {},
                    }
                    i = i + 1;
                }
            },
            None => {},
        },
    }
    trail.pop();
    proof {
        assert(trail@ =~= before);
    }
    Ok(())
}

fn payload_finite_within(layouts: &Layouts, ts: &Vec<Type>, trail: &mut Vec<String>, fuel: u64) -> (r: Result<(), String>)
    ensures
        r matches Ok(_) ==> payload_finite(layouts@, view_types(ts@), view_names(old(trail)@), fuel as nat) is Ok
            && final(trail)@ == old(trail)@,
        r matches Err(e) ==> payload_finite(layouts@, view_types(ts@), view_names(old(trail)@), fuel as nat)
            == Err::<(), Seq<char>>(e@),
    decreases fuel, 1int, ts,
{
    let ghost vs = view_types(ts@);
    let ghost t = view_names(trail@);
    proof {
        lemma_view_types(ts@);
        assert(vs.skip(0) =~= vs);
    }
    let mut i: usize = 0;
    while i < ts.len()
        invariant
            0 <= i <= ts@.len(),
            vs == view_types(ts@),
            vs.len() == ts@.len(),
            forall|k: int| 0 <= k < ts@.len() ==> #[trigger] vs[k] == ts@[k]@,
            trail@ == old(trail)@,
            t == view_names(trail@),
            payload_finite(layouts@, vs, t, fuel as nat) == payload_finite(layouts@, vs.skip(i as int), t, fuel as nat),
        decreases ts.len() - i,
    {
        proof {
            assert(vs.skip(i as int).skip(1) =~= vs.skip(i + 1));
            assert(vs.skip(i as int)[0] == ts@[i as int]@);
            assert(decreases_to!(ts => ts@[i as int]));
        }
        match follow_finite(layouts, &ts[i], trail, fuel) {
            Err(e) => return Err(e),
            Ok(()) => {},
        }
        i = i + 1;
    }
    Ok(())
}

/// Follows one field or payload type for the finiteness walk: a class or enum is walked, a fixed
/// array's element is followed, and anything else (a slice above all) ends it.
fn follow_finite(layouts: &Layouts, ty: &Type, trail: &mut Vec<String>, fuel: u64) -> (r: Result<(), String>)
    ensures
        r matches Ok(_) ==> follow_check(layouts@, ty@, view_names(old(trail)@), fuel as nat) is Ok
            && final(trail)@ == old(trail)@,
        r matches Err(e) ==> follow_check(layouts@, ty@, view_names(old(trail)@), fuel as nat) == Err::<(), Seq<char>>(e@),
    decreases fuel, 1int, ty,
{
    match ty {
        Type::Named(inner) => finite_within(layouts, inner, trail, fuel),
        Type::Array { elem, .. } => follow_finite(layouts, elem, trail, fuel),
        _ => Ok(()),
    }
}

/// Whether a value of type `ty` holds a `target` by value: see [`embeds`]. An enum whose variant
/// does so has no finite width; one that reaches itself only through a slice or an interface
/// object is fine.
pub fn embeds_by_value(layouts: &Layouts, ty: &Type, target: &String, seen: &mut Vec<String>) -> (r: bool)
    ensures
        r == embeds(layouts@, ty@, target@, view_names(old(seen)@), fuel_for(*layouts)),
        final(seen)@ == old(seen)@,
{
    let fuel = layouts.fuel();
    embeds_within(layouts, ty, target, seen, fuel)
}

fn embeds_within(layouts: &Layouts, ty: &Type, target: &String, seen: &mut Vec<String>, fuel: u64) -> (r: bool)
    ensures
        r == embeds(layouts@, ty@, target@, view_names(old(seen)@), fuel as nat),
        final(seen)@ == old(seen)@,
    decreases fuel, 1int, ty,
{
    match ty {
        Type::Array { elem, .. } => embeds_within(layouts, elem, target, seen, fuel),
        Type::Named(name) => {
            if *name == *target {
                return true;
            }
            if seen_contains(seen, name) || fuel == 0 {
                return false;
            }
            let ghost before = seen@;
            seen.push(name.clone());
            proof {
                assert(view_names(seen@) =~= view_names(before).push(name@));
            }
            let found = match layouts.records.get(name) {
                Some(fields) => fields_embed_within(layouts, &fields.fields, target, seen, fuel - 1),
                None => match layouts.enums.get(name) {
                    Some(vs) => variants_embed_within(layouts, &vs.variants, target, seen, fuel - 1),
                    None => false,
                },
            };
            seen.pop();
            proof {
                assert(seen@ =~= before);
            }
            found
        },
        _ => false,
    }
}

fn fields_embed_within(layouts: &Layouts, fs: &Vec<(String, Type)>, target: &String, seen: &mut Vec<String>, fuel: u64) -> (r: bool)
    ensures
        r == fields_embed(layouts@, view_fields(fs@), target@, view_names(old(seen)@), fuel as nat),
        final(seen)@ == old(seen)@,
    decreases fuel, 1int, fs,
{
    let ghost vs = view_fields(fs@);
    proof {
        assert(vs.skip(0) =~= vs);
    }
    let mut i: usize = 0;
    while i < fs.len()
        invariant
            0 <= i <= fs@.len(),
            vs == view_fields(fs@),
            seen@ == old(seen)@,
            fields_embed(layouts@, vs, target@, view_names(seen@), fuel as nat)
                == fields_embed(layouts@, vs.skip(i as int), target@, view_names(seen@), fuel as nat),
        decreases fs.len() - i,
    {
        proof {
            assert(vs.skip(i as int).skip(1) =~= vs.skip(i + 1));
            assert(vs.skip(i as int)[0].1 == fs@[i as int].1@);
            assert(decreases_to!(fs => fs@[i as int]));
            assert(decreases_to!(fs@[i as int] => fs@[i as int].1));
        }
        if embeds_within(layouts, &fs[i].1, target, seen, fuel) {
            return true;
        }
        i = i + 1;
    }
    false
}

fn payload_embeds_within(layouts: &Layouts, ts: &Vec<Type>, target: &String, seen: &mut Vec<String>, fuel: u64) -> (r: bool)
    ensures
        r == payload_embeds(layouts@, view_types(ts@), target@, view_names(old(seen)@), fuel as nat),
        final(seen)@ == old(seen)@,
    decreases fuel, 1int, ts,
{
    let ghost vs = view_types(ts@);
    proof {
        lemma_view_types(ts@);
        assert(vs.skip(0) =~= vs);
    }
    let mut i: usize = 0;
    while i < ts.len()
        invariant
            0 <= i <= ts@.len(),
            vs == view_types(ts@),
            vs.len() == ts@.len(),
            forall|k: int| 0 <= k < ts@.len() ==> #[trigger] vs[k] == ts@[k]@,
            seen@ == old(seen)@,
            payload_embeds(layouts@, vs, target@, view_names(seen@), fuel as nat)
                == payload_embeds(layouts@, vs.skip(i as int), target@, view_names(seen@), fuel as nat),
        decreases ts.len() - i,
    {
        proof {
            assert(vs.skip(i as int).skip(1) =~= vs.skip(i + 1));
            assert(vs.skip(i as int)[0] == ts@[i as int]@);
            assert(decreases_to!(ts => ts@[i as int]));
        }
        if embeds_within(layouts, &ts[i], target, seen, fuel) {
            return true;
        }
        i = i + 1;
    }
    false
}

fn variants_embed_within(layouts: &Layouts, vs: &Vec<(String, Vec<Type>)>, target: &String, seen: &mut Vec<String>, fuel: u64) -> (r: bool)
    ensures
        r == variants_embed(layouts@, view_variants(vs@), target@, view_names(old(seen)@), fuel as nat),
        final(seen)@ == old(seen)@,
    decreases fuel, 1int, vs,
{
    let ghost ws = view_variants(vs@);
    proof {
        assert(ws.skip(0) =~= ws);
    }
    let mut i: usize = 0;
    while i < vs.len()
        invariant
            0 <= i <= vs@.len(),
            ws == view_variants(vs@),
            seen@ == old(seen)@,
            variants_embed(layouts@, ws, target@, view_names(seen@), fuel as nat)
                == variants_embed(layouts@, ws.skip(i as int), target@, view_names(seen@), fuel as nat),
        decreases vs.len() - i,
    {
        proof {
            assert(ws.skip(i as int).skip(1) =~= ws.skip(i + 1));
            assert(ws.skip(i as int)[0].1 == view_types(vs@[i as int].1@));
            assert(decreases_to!(vs => vs@[i as int]));
            assert(decreases_to!(vs@[i as int] => vs@[i as int].1));
        }
        if payload_embeds_within(layouts, &vs[i].1, target, seen, fuel) {
            return true;
        }
        i = i + 1;
    }
    false
}

/// Whether a value of type `t` always has its storage in a region, and so may not outlive it: a
/// growable array does, a fixed array when its element does, a declared class when any of its
/// fields does. An enum never does, its payloads being scalars, and neither does a `String`,
/// which may as well be a literal. Classes are walked at most `fuel` deep inside one another;
/// only a class that contains itself by value gets that deep, and it answers no there.
pub open spec fn region_resident(d: LayoutsV, t: TypeV, fuel: nat) -> bool
    decreases fuel, t,
{
    match t {
        TypeV::Slice(_) => true,
        TypeV::Named(n) => fuel > 0 && d.records.contains_key(n)
            && exists|i: int| 0 <= i < d.records[n].len() && region_resident(d, #[trigger] d.records[n][i].1, (fuel - 1) as nat),
        TypeV::Array { elem, .. } => region_resident(d, *elem, fuel),
        _ => false,
    }
}

/// How deep [`region_resident`] walks classes: one more than the number of classes, or the
/// largest `u64` if that is fewer.
pub open spec fn class_depth(l: Layouts) -> nat {
    if l.records.count() + 1 > u64::MAX { u64::MAX as nat } else { l.records.count() + 1 }
}

fn resident_within(layouts: &Layouts, ty: &Type, fuel: u64) -> (r: bool)
    ensures
        r == region_resident(layouts@, ty@, fuel as nat),
    decreases fuel, ty,
{
    match ty {
        Type::Slice(_) => true,
        Type::Named(n) => {
            if fuel == 0 {
                return false;
            }
            match layouts.records.get(n) {
                None => false,
                Some(class) => {
                    let fields = &class.fields;
                    let ghost fs = view_fields(fields@);
                    let mut i: usize = 0;
                    while i < fields.len()
                        invariant
                            0 <= i <= fields@.len(),
                            fuel > 0,
                            fs == view_fields(fields@),
                            ty@ == TypeV::Named(n@),
                            layouts@.records.contains_key(n@),
                            fs == layouts@.records[n@],
                            forall|j: int| 0 <= j < i ==> !region_resident(layouts@, #[trigger] fs[j].1, (fuel - 1) as nat),
                        decreases fields.len() - i,
                    {
                        if resident_within(layouts, &fields[i].1, fuel - 1) {
                            assert(region_resident(layouts@, layouts@.records[n@][i as int].1, (fuel - 1) as nat));
                            return true;
                        }
                        i = i + 1;
                    }
                    false
                },
            }
        },
        Type::Array { elem, .. } => resident_within(layouts, elem, fuel),
        _ => false,
    }
}

/// Whether a value of type `ty` always has its storage in a region: see [`region_resident`].
pub fn region_allocated(layouts: &Layouts, ty: &Type) -> (r: bool)
    ensures
        r == region_resident(layouts@, ty@, class_depth(*layouts)),
{
    let depth = (layouts.records.len() as u64).saturating_add(1);
    resident_within(layouts, ty, depth)
}

} // verus!
