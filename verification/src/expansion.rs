//! Expanding written types: every concrete application of a generic becomes the `Named` (or, for
//! an interface, `dynamic`) type of its instantiation, made the first time it is asked for; every
//! tuple becomes an anonymous class named by its own spelling; a bare interface name means an
//! interface object. After this pass no rule knows that generics or tuples exist.
//!
//! An application whose arguments still mention a type parameter is left as it is: it is inside
//! a generic being checked generically, and becomes concrete when that generic is instantiated.
use vstd::prelude::*;
use crate::compare::{Fields, view_fields, view_names};
use crate::generics::{mentions_param_list, Instance, Instances, InstancesV, Tuples, TypeList, lemma_mentions_any, lemma_subst_all, mentions,
    mentions_any, mentions_param, shown_list, subst, subst_all, substitute};
use crate::messages::tuple_symbol;
use crate::names::NameMap;
use crate::release::{InterfaceSig, InterfaceSigV, Signatures, has_name, listed};
use crate::storage::{Layouts, LayoutsV, Variants, argument_map, bound_arguments, substitute_payload, view_variants};
use crate::symbols::{mangle, mangled};
use crate::text::{nat_text, write_u64};
use crate::ty::{Type, TypeV, append, duplicate_list, lemma_view_types, type_text, view_types};
use crate::typed::{TypedEnum, TypedStruct};
use crate::validity::{is_enum, is_record};

verus! {

/// A generic interface: the names of its parameters, and its methods written in terms of them.
pub struct GenericInterface {
    pub parameters: Vec<String>,
    pub methods: Vec<InterfaceSig>,
}

impl View for GenericInterface {
    type V = (Seq<Seq<char>>, Seq<InterfaceSigV>);

    open spec fn view(&self) -> (Seq<Seq<char>>, Seq<InterfaceSigV>) {
        (view_names(self.parameters@), Seq::new(self.methods@.len(), |i: int| self.methods@[i]@))
    }
}

/// What expanding types reads and what it builds. It reads the declared classes and enums, the
/// generic classes, enums and interfaces, the names of the declared types and of the declared
/// interfaces. It builds the instantiations: the classes made (tuples among them) and the enums
/// made, both in `layouts`; which generic each instantiation is of, in `instances`; the
/// interfaces made; the order classes and enums were made in, which is the order their layouts
/// are emitted in; the generic classes whose methods are still to be instantiated; and the
/// element types of each tuple's class.
pub struct Expansion {
    pub layouts: Layouts,
    pub instances: Instances,
    pub declared_type_names: Vec<String>,
    pub interface_names: Vec<String>,
    pub generic_interfaces: NameMap<GenericInterface>,
    pub interfaces_made: NameMap<Signatures>,
    pub record_order: Vec<TypedStruct>,
    pub enum_order: Vec<TypedEnum>,
    pub wanted_records: Vec<(String, Vec<Type>)>,
    pub tuples: Tuples,
}

/// The view of [`Expansion`]; `depth` is the number of instantiations recorded, the bound that
/// showing a type to a reader undoes instantiations to.
pub ghost struct ExpansionV {
    pub layouts: LayoutsV,
    pub instances: InstancesV,
    pub depth: nat,
    pub declared: Seq<String>,
    pub interface_names: Seq<String>,
    pub generic_interfaces: Map<Seq<char>, (Seq<Seq<char>>, Seq<InterfaceSigV>)>,
    pub interfaces_made: Map<Seq<char>, Seq<InterfaceSigV>>,
    pub record_order: Seq<(Seq<char>, Seq<TypeV>)>,
    pub enum_order: Seq<(Seq<char>, Seq<Seq<TypeV>>)>,
    pub wanted: Seq<(Seq<char>, Seq<TypeV>)>,
    pub tuples: Map<Seq<char>, Seq<TypeV>>,
}

impl View for Expansion {
    type V = ExpansionV;

    open spec fn view(&self) -> ExpansionV {
        ExpansionV {
            layouts: self.layouts@,
            instances: self.instances@,
            depth: self.instances.count(),
            declared: self.declared_type_names@,
            interface_names: self.interface_names@,
            generic_interfaces: self.generic_interfaces@,
            interfaces_made: self.interfaces_made@,
            record_order: Seq::new(self.record_order@.len(),
                |i: int| (self.record_order@[i].name@, view_types(self.record_order@[i].fields@))),
            enum_order: Seq::new(self.enum_order@.len(),
                |i: int| (self.enum_order@[i].name@, Seq::new(self.enum_order@[i].variants@.len(),
                    |j: int| view_types(self.enum_order@[i].variants@[j]@)))),
            wanted: Seq::new(self.wanted_records@.len(),
                |i: int| (self.wanted_records@[i].0@, view_types(self.wanted_records@[i].1@))),
            tuples: self.tuples@,
        }
    }
}

/// The outcome of expanding one type: the expanded type or the refusal, and the state after.
pub type Expanded = (Result<TypeV, Seq<char>>, ExpansionV);

/// The outcome of expanding a list of types.
pub type ExpandedList = (Result<Seq<TypeV>, Seq<char>>, ExpansionV);

pub open spec fn with_made_records(s: ExpansionV, m: Map<Seq<char>, Seq<(Seq<char>, TypeV)>>) -> ExpansionV {
    ExpansionV { layouts: LayoutsV { made_records: m, ..s.layouts }, ..s }
}

pub open spec fn with_enums(s: ExpansionV, m: Map<Seq<char>, Seq<(Seq<char>, Seq<TypeV>)>>) -> ExpansionV {
    ExpansionV { layouts: LayoutsV { enums: m, ..s.layouts }, ..s }
}

pub open spec fn with_interfaces_made(s: ExpansionV, m: Map<Seq<char>, Seq<InterfaceSigV>>) -> ExpansionV {
    ExpansionV { interfaces_made: m, ..s }
}

/// `s` with the instantiation `symbol` recorded as generic `name` applied to `args`.
pub open spec fn with_instance(s: ExpansionV, symbol: Seq<char>, name: Seq<char>, args: Seq<TypeV>) -> ExpansionV {
    ExpansionV { instances: s.instances.insert(symbol, (name, args)), depth: s.depth + 1, ..s }
}

/// Names separated by `, `.
pub open spec fn names_text(ns: Seq<Seq<char>>) -> Seq<char>
    decreases ns.len(),
{
    if ns.len() == 0 {
        Seq::empty()
    } else if ns.len() == 1 {
        ns[0]
    } else {
        names_text(ns.drop_last()) + ", "@ + ns.last()
    }
}

pub open spec fn bare_interface_text(n: Seq<char>, params: Seq<Seq<char>>) -> Seq<char> {
    "`"@ + n + "` takes "@ + nat_text(params.len()) + " type argument(s), so write `"@ + n + "<"@ + names_text(params)
        + ">` rather than `"@ + n + "` on its own."@
}

pub open spec fn unknown_interface_text(n: Seq<char>) -> Seq<char> {
    "unknown interface `"@ + n + "` — declare it with `interface "@ + n + " { ... }`"@
}

pub open spec fn arity_text(n: Seq<char>, wanted: nat, given: nat) -> Seq<char> {
    "`"@ + n + "` takes "@ + nat_text(wanted) + " type argument(s), but "@ + nat_text(given) + " were given"@
}

pub open spec fn not_generic_text(n: Seq<char>) -> Seq<char> {
    "`"@ + n + "` is not generic, so it takes no type arguments — write `"@ + n + "` on its own."@
}

pub open spec fn unknown_generic_text(n: Seq<char>) -> Seq<char> {
    "unknown generic type `"@ + n + "`"@
}

pub open spec fn contains_itself_text(symbol: Seq<char>, n: Seq<char>, field: Seq<char>) -> Seq<char> {
    "`"@ + symbol + "` cannot contain itself: `"@ + n + "."@ + field + "` would have to be the same size as the whole class."@
}

pub open spec fn carries_itself_text(symbol: Seq<char>, n: Seq<char>, variant: Seq<char>) -> Seq<char> {
    "`"@ + symbol + "` cannot carry itself: `"@ + n + "."@ + variant
        + "` would have to hold a value the same size as the whole enum, plus a tag."@
}

pub open spec fn names_no_type_text(arg: Seq<char>, n: Seq<char>) -> Seq<char> {
    "`"@ + arg + "` in `"@ + n
        + "<...>` names no type. A method's type parameters come from its receiver — `function (self: List<T>) ...` declares `T` and nothing else."@
}

/// The refusal of an instantiation made inside its own making more than `fuel` deep, a depth no
/// program reaches: the answer where expansion would otherwise never end.
pub open spec fn endless_text(symbol: Seq<char>) -> Seq<char> {
    "`"@ + symbol + "` is made inside its own making without end"@
}

/// The indefinite article for a type as written: `an` before a vowel, `a` otherwise.
pub open spec fn article(t: TypeV) -> Seq<char> {
    let w = type_text(t);
    if w.len() > 0 && (w[0] == 'a' || w[0] == 'e' || w[0] == 'i' || w[0] == 'o' || w[0] == 'u'
        || w[0] == 'A' || w[0] == 'E' || w[0] == 'I' || w[0] == 'O' || w[0] == 'U') {
        "an"@
    } else {
        "a"@
    }
}

pub open spec fn cannot_be_made_text(n: Seq<char>, args: Seq<TypeV>, variant: Seq<char>, t: TypeV) -> Seq<char> {
    "`"@ + type_text(TypeV::Generic { name: n, arguments: args }) + "` cannot be made: `"@ + n + "."@ + variant
        + "` would carry "@ + article(t) + " "@ + type_text(t)
        + ", which has no layout here. A variant carries a scalar, a String, a class or an array."@
}

/// Whether an enum's payload may have type `t`: a scalar, a `String`, a class or an array. An
/// enum inside an enum has no finite size without indirection.
pub open spec fn laid_out(d: LayoutsV, t: TypeV) -> bool {
    match t {
        TypeV::Int | TypeV::Bool | TypeV::String | TypeV::Decimal { .. } => true,
        TypeV::Named(n) => !is_enum(d, n),
        TypeV::Array { .. } | TypeV::Slice(_) => true,
        _ => false,
    }
}

/// The first payload type, among the first `n`, that has no layout.
pub open spec fn first_unlaid(d: LayoutsV, ts: Seq<TypeV>, n: nat) -> Option<int>
    decreases n,
{
    if n == 0 {
        None
    } else {
        match first_unlaid(d, ts, (n - 1) as nat) {
            Some(j) => Some(j),
            None => if laid_out(d, ts[n - 1]) { None } else { Some(n - 1) },
        }
    }
}

/// The first (variant, payload position), among the first `n` variants, whose type has no layout.
pub open spec fn first_unlaid_variant(d: LayoutsV, ps: Seq<Seq<TypeV>>, n: nat) -> Option<(int, int)>
    decreases n,
{
    if n == 0 {
        None
    } else {
        match first_unlaid_variant(d, ps, (n - 1) as nat) {
            Some(x) => Some(x),
            None => match first_unlaid(d, ps[n - 1], ps[n - 1].len()) {
                Some(j) => Some(((n - 1) as int, j)),
                None => None,
            },
        }
    }
}

/// The first of the first `n` variants whose payload holds the enum being made by value.
pub open spec fn first_carrying(ps: Seq<Seq<TypeV>>, symbol: Seq<char>, n: nat) -> Option<int>
    decreases n,
{
    if n == 0 {
        None
    } else {
        match first_carrying(ps, symbol, (n - 1) as nat) {
            Some(i) => Some(i),
            None => if ps[n - 1].contains(TypeV::Named(symbol)) { Some(n - 1) } else { None },
        }
    }
}

/// The first of the first `n` field types that is the class being made.
pub open spec fn first_holding(ts: Seq<TypeV>, symbol: Seq<char>, n: nat) -> Option<int>
    decreases n,
{
    if n == 0 {
        None
    } else {
        match first_holding(ts, symbol, (n - 1) as nat) {
            Some(i) => Some(i),
            None => if ts[n - 1] == TypeV::Named(symbol) { Some(n - 1) } else { None },
        }
    }
}

/// The first of the first `n` arguments of a generic interface that is a name nothing declares.
pub open spec fn first_unnamed(s: ExpansionV, args: Seq<TypeV>, n: nat) -> Option<Seq<char>>
    decreases n,
{
    if n == 0 {
        None
    } else {
        match first_unnamed(s, args, (n - 1) as nat) {
            Some(a) => Some(a),
            None => match args[n - 1] {
                TypeV::Named(a) => if !listed(s.declared, a) && !is_record(s.layouts, a) && !is_enum(s.layouts, a)
                    && !listed(s.interface_names, a) {
                    Some(a)
                } else {
                    None
                },
                _ => None,
            },
        }
    }
}

/// The types of a list of fields.
pub open spec fn field_types(fs: Seq<(Seq<char>, TypeV)>) -> Seq<TypeV> {
    Seq::new(fs.len(), |i: int| fs[i].1)
}

/// Names paired with types, position by position.
pub open spec fn paired<A, B>(xs: Seq<A>, ys: Seq<B>) -> Seq<(A, B)> {
    Seq::new(xs.len(), |i: int| (xs[i], ys[i]))
}

/// The names of a list of variants.
pub open spec fn variant_names(vs: Seq<(Seq<char>, Seq<TypeV>)>) -> Seq<Seq<char>> {
    Seq::new(vs.len(), |i: int| vs[i].0)
}

/// The names of a list of fields.
pub open spec fn field_names(fs: Seq<(Seq<char>, TypeV)>) -> Seq<Seq<char>> {
    Seq::new(fs.len(), |i: int| fs[i].0)
}

/// The class behind a tuple of elements `es`: position `i` is the field named `i`.
pub open spec fn tuple_fields(es: Seq<TypeV>) -> Seq<(Seq<char>, TypeV)> {
    Seq::new(es.len(), |i: int| (nat_text(i as nat), es[i]))
}

/// The symbol of the class behind a tuple: the tuple as its author wrote it.
pub open spec fn tuple_name(s: ExpansionV, es: Seq<TypeV>) -> Seq<char> {
    "("@ + shown_list(es, s.instances, s.depth) + ")"@
}

/// `t` expanded against state `s`: see the module's documentation. At most `fuel`
/// instantiations are made inside one another.
pub open spec fn expanded(s: ExpansionV, t: TypeV, fuel: nat) -> Expanded
    decreases fuel, 0int, t, 0int,
{
    match t {
        TypeV::Named(n) => if listed(s.interface_names, n) {
            (Ok(TypeV::Dyn(n)), s)
        } else if s.generic_interfaces.contains_key(n) {
            (Err(bare_interface_text(n, s.generic_interfaces[n].0)), s)
        } else {
            (Ok(t), s)
        },
        TypeV::Generic { name, arguments } => if s.generic_interfaces.contains_key(name) {
            interface_applied(s, name, arguments, fuel)
        } else if s.layouts.generic_records.contains_key(name) {
            match expanded_list(s, arguments, fuel) {
                (Err(e), s1) => (Err(e), s1),
                (Ok(args), s1) => {
                    let params = s1.layouts.generic_records[name].0;
                    let symbol = mangled(name, args);
                    if args.len() != params.len() {
                        (Err(arity_text(name, params.len(), args.len())), s1)
                    } else if mentions_any(args) {
                        (Ok(TypeV::Generic { name, arguments: args }), s1)
                    } else if is_record(s1.layouts, symbol) {
                        (Ok(TypeV::Named(symbol)), s1)
                    } else if fuel == 0 {
                        (Err(endless_text(symbol)), s1)
                    } else {
                        record_made(s1, name, args, (fuel - 1) as nat)
                    }
                },
            }
        } else if !s.layouts.generic_enums.contains_key(name) {
            (Err(if listed(s.declared, name) { not_generic_text(name) } else { unknown_generic_text(name) }), s)
        } else {
            match expanded_list(s, arguments, fuel) {
                (Err(e), s1) => (Err(e), s1),
                (Ok(args), s1) => {
                    let params = s1.layouts.generic_enums[name].0;
                    let symbol = mangled(name, args);
                    if args.len() != params.len() {
                        (Err(arity_text(name, params.len(), args.len())), s1)
                    } else if mentions_any(args) {
                        (Ok(TypeV::Generic { name, arguments: args }), s1)
                    } else if is_enum(s1.layouts, symbol) {
                        (Ok(TypeV::Named(symbol)), s1)
                    } else if fuel == 0 {
                        (Err(endless_text(symbol)), s1)
                    } else {
                        enum_made(s1, name, args, (fuel - 1) as nat)
                    }
                },
            }
        },
        TypeV::DynGeneric { name, arguments } => if !s.generic_interfaces.contains_key(name) {
            (Err(unknown_interface_text(name)), s)
        } else {
            interface_applied(s, name, arguments, fuel)
        },
        TypeV::Tuple(elements) => match expanded_list(s, elements, fuel) {
            (Err(e), s1) => (Err(e), s1),
            (Ok(es), s1) => if mentions_any(es) {
                (Ok(TypeV::Tuple(es)), s1)
            } else {
                let symbol = tuple_name(s1, es);
                if is_record(s1.layouts, symbol) {
                    (Ok(TypeV::Named(symbol)), s1)
                } else {
                    (Ok(TypeV::Named(symbol)), ExpansionV {
                        record_order: s1.record_order.push((symbol, es)),
                        tuples: s1.tuples.insert(symbol, es),
                        ..with_made_records(s1, s1.layouts.made_records.insert(symbol, tuple_fields(es)))
                    })
                }
            },
        },
        TypeV::Array { elem, len } => match expanded(s, *elem, fuel) {
            (Err(e), s1) => (Err(e), s1),
            (Ok(x), s1) => (Ok(TypeV::Array { elem: Box::new(x), len }), s1),
        },
        TypeV::Slice(elem) => match expanded(s, *elem, fuel) {
            (Err(e), s1) => (Err(e), s1),
            (Ok(x), s1) => (Ok(TypeV::Slice(Box::new(x))), s1),
        },
        _ => (Ok(t), s),
    }
}

/// A generic interface applied to `arguments`, in either spelling: the interface object of its
/// instantiation, made if this is the first time it is asked for.
pub open spec fn interface_applied(s: ExpansionV, name: Seq<char>, arguments: Seq<TypeV>, fuel: nat) -> Expanded
    decreases fuel, 0int, arguments, 1int,
{
    match expanded_list(s, arguments, fuel) {
        (Err(e), s1) => (Err(e), s1),
        (Ok(args), s1) => {
            let params = s1.generic_interfaces[name].0;
            let symbol = mangled(name, args);
            if args.len() != params.len() {
                (Err(arity_text(name, params.len(), args.len())), s1)
            } else if mentions_any(args) {
                (Ok(TypeV::DynGeneric { name, arguments: args }), s1)
            } else if first_unnamed(s1, args, args.len()) is Some {
                (Err(names_no_type_text(first_unnamed(s1, args, args.len())->0, name)), s1)
            } else if s1.interfaces_made.contains_key(symbol) {
                (Ok(TypeV::Dyn(symbol)), s1)
            } else if fuel == 0 {
                (Err(endless_text(symbol)), s1)
            } else {
                interface_made(s1, name, args, (fuel - 1) as nat)
            }
        },
    }
}

/// Each type of a list expanded in order, stopping at the first refusal.
pub open spec fn expanded_list(s: ExpansionV, ts: Seq<TypeV>, fuel: nat) -> ExpandedList
    decreases fuel, 0int, ts, 0int,
{
    if ts.len() == 0 {
        (Ok(Seq::empty()), s)
    } else {
        match expanded_list(s, ts.drop_last(), fuel) {
            (Err(e), s1) => (Err(e), s1),
            (Ok(done), s1) => match expanded(s1, ts.last(), fuel) {
                (Err(e), s2) => (Err(e), s2),
                (Ok(x), s2) => (Ok(done.push(x)), s2),
            },
        }
    }
}

/// The instantiation of generic class `name` at `args`: reserved first, so that a field naming
/// it does not make it again; its fields expanded with the parameters bound to the arguments;
/// refused (and unreserved) when a field is the class itself.
pub open spec fn record_made(s: ExpansionV, name: Seq<char>, args: Seq<TypeV>, fuel: nat) -> Expanded
    decreases fuel, 2int, args, 0int,
{
    let symbol = mangled(name, args);
    let (params, fields) = s.layouts.generic_records[name];
    let map = bound_arguments(params, args);
    let s1 = with_made_records(s, s.layouts.made_records.insert(symbol, Seq::empty()));
    match expanded_list(s1, subst_all(field_types(fields), map), fuel) {
        (Err(e), s2) => (Err(e), s2),
        (Ok(types), s2) => match first_holding(types, symbol, types.len()) {
            Some(i) => (Err(contains_itself_text(symbol, name, fields[i].0)),
                with_made_records(s2, s2.layouts.made_records.remove(symbol))),
            None => (Ok(TypeV::Named(symbol)), ExpansionV {
                record_order: s2.record_order.push((symbol, types)),
                wanted: s2.wanted.push((name, args)),
                ..with_instance(with_made_records(s2, s2.layouts.made_records.insert(symbol,
                    paired(field_names(fields), types))), symbol, name, args)
            }),
        },
    }
}

/// The payloads of each variant expanded in order, stopping at the first refusal.
pub open spec fn payloads_expanded(
    s: ExpansionV,
    vs: Seq<(Seq<char>, Seq<TypeV>)>,
    map: Map<Seq<char>, TypeV>,
    fuel: nat,
) -> (Result<Seq<Seq<TypeV>>, Seq<char>>, ExpansionV)
    decreases fuel, 1int, vs, 0int,
{
    if vs.len() == 0 {
        (Ok(Seq::empty()), s)
    } else {
        match payloads_expanded(s, vs.drop_last(), map, fuel) {
            (Err(e), s1) => (Err(e), s1),
            (Ok(done), s1) => match expanded_list(s1, subst_all(vs.last().1, map), fuel) {
                (Err(e), s2) => (Err(e), s2),
                (Ok(ps), s2) => (Ok(done.push(ps)), s2),
            },
        }
    }
}

/// The instantiation of generic enum `name` at `args`: reserved first; its payloads expanded with
/// the parameters bound to the arguments; refused (and unreserved) when a payload has no layout
/// or holds the enum itself.
pub open spec fn enum_made(s: ExpansionV, name: Seq<char>, args: Seq<TypeV>, fuel: nat) -> Expanded
    decreases fuel, 2int, args, 0int,
{
    let symbol = mangled(name, args);
    let (params, variants) = s.layouts.generic_enums[name];
    let map = bound_arguments(params, args);
    let s1 = with_enums(s, s.layouts.enums.insert(symbol, Seq::empty()));
    match payloads_expanded(s1, variants, map, fuel) {
        (Err(e), s2) => (Err(e), s2),
        (Ok(ps), s2) => match first_unlaid_variant(s2.layouts, ps, ps.len()) {
            Some((i, j)) => (Err(cannot_be_made_text(name, args, variants[i].0, ps[i][j])),
                with_enums(s2, s2.layouts.enums.remove(symbol))),
            None => match first_carrying(ps, symbol, ps.len()) {
                Some(i) => (Err(carries_itself_text(symbol, name, variants[i].0)),
                    with_enums(s2, s2.layouts.enums.remove(symbol))),
                None => (Ok(TypeV::Named(symbol)), ExpansionV {
                    enum_order: s2.enum_order.push((symbol, ps)),
                    ..with_instance(with_enums(s2, s2.layouts.enums.insert(symbol,
                        paired(variant_names(variants), ps))), symbol, name, args)
                }),
            },
        },
    }
}

/// The methods of a generic interface expanded in order, each method's parameter types and then
/// its return type, stopping at the first refusal.
pub open spec fn methods_expanded(
    s: ExpansionV,
    ms: Seq<InterfaceSigV>,
    map: Map<Seq<char>, TypeV>,
    fuel: nat,
) -> (Result<Seq<InterfaceSigV>, Seq<char>>, ExpansionV)
    decreases fuel, 1int, ms, 0int,
{
    if ms.len() == 0 {
        (Ok(Seq::empty()), s)
    } else {
        match methods_expanded(s, ms.drop_last(), map, fuel) {
            (Err(e), s1) => (Err(e), s1),
            (Ok(done), s1) => {
                let m = ms.last();
                match expanded_list(s1, subst_all(m.parameters, map), fuel) {
                    (Err(e), s2) => (Err(e), s2),
                    (Ok(ps), s2) => match expanded(s2, subst(m.ret, map), fuel) {
                        (Err(e), s3) => (Err(e), s3),
                        (Ok(r), s3) => (Ok(done.push(InterfaceSigV { parameters: ps, ret: r, ..m })), s3),
                    },
                }
            },
        }
    }
}

/// The instantiation of generic interface `name` at `args`: reserved first, so that a method
/// naming it does not make it again (an interface may name itself, an object being a pointer);
/// its methods expanded with the parameters bound to the arguments.
pub open spec fn interface_made(s: ExpansionV, name: Seq<char>, args: Seq<TypeV>, fuel: nat) -> Expanded
    decreases fuel, 2int, args, 0int,
{
    let symbol = mangled(name, args);
    let (params, methods) = s.generic_interfaces[name];
    let map = bound_arguments(params, args);
    let s1 = with_interfaces_made(s, s.interfaces_made.insert(symbol, Seq::empty()));
    match methods_expanded(s1, methods, map, fuel) {
        (Err(e), s2) => (Err(e), s2),
        (Ok(made), s2) => (Ok(TypeV::Dyn(symbol)),
            with_instance(with_interfaces_made(s2, s2.interfaces_made.insert(symbol, made)), symbol, name, args)),
    }
}

/// Everything already made is still there and unchanged: the classes and enums (declared enums
/// among them) and the interfaces; and what expansion only reads stays as it was.
pub open spec fn keeps(a: ExpansionV, b: ExpansionV) -> bool {
    &&& forall|k: Seq<char>| #![trigger a.layouts.made_records.contains_key(k)]
        a.layouts.made_records.contains_key(k) ==> b.layouts.made_records.contains_key(k)
            && b.layouts.made_records[k] == a.layouts.made_records[k]
    &&& forall|k: Seq<char>| #![trigger a.layouts.enums.contains_key(k)]
        a.layouts.enums.contains_key(k) ==> b.layouts.enums.contains_key(k) && b.layouts.enums[k] == a.layouts.enums[k]
    &&& forall|k: Seq<char>| #![trigger a.interfaces_made.contains_key(k)]
        a.interfaces_made.contains_key(k) ==> b.interfaces_made.contains_key(k) && b.interfaces_made[k] == a.interfaces_made[k]
    &&& reads_only(a, b)
}

/// An instantiation, once made, is never made again nor changed: expanding any type keeps every
/// class, enum and interface made so far exactly as it was, whether the expansion succeeds or is
/// refused.
pub proof fn lemma_made_once(s: ExpansionV, t: TypeV, fuel: nat)
    ensures
        keeps(s, expanded(s, t, fuel).1),
    decreases fuel, 0int, t, 0int,
{
    match t {
        TypeV::Generic { name, arguments } => {
            if s.generic_interfaces.contains_key(name) {
                lemma_interface_applied_keeps(s, name, arguments, fuel);
            } else if s.layouts.generic_records.contains_key(name) {
                lemma_list_keeps(s, arguments, fuel);
                let (r, s1) = expanded_list(s, arguments, fuel);
                if r is Ok {
                    let args = r->Ok_0;
                    let symbol = mangled(name, args);
                    if args.len() == s1.layouts.generic_records[name].0.len() && !mentions_any(args)
                        && !is_record(s1.layouts, symbol) && fuel > 0 {
                        lemma_record_made_keeps(s1, name, args, (fuel - 1) as nat);
                    }
                }
            } else if s.layouts.generic_enums.contains_key(name) {
                lemma_list_keeps(s, arguments, fuel);
                let (r, s1) = expanded_list(s, arguments, fuel);
                if r is Ok {
                    let args = r->Ok_0;
                    let symbol = mangled(name, args);
                    if args.len() == s1.layouts.generic_enums[name].0.len() && !mentions_any(args)
                        && !is_enum(s1.layouts, symbol) && fuel > 0 {
                        lemma_enum_made_keeps(s1, name, args, (fuel - 1) as nat);
                    }
                }
            }
        },
        TypeV::DynGeneric { name, arguments } => {
            if s.generic_interfaces.contains_key(name) {
                lemma_interface_applied_keeps(s, name, arguments, fuel);
            }
        },
        TypeV::Tuple(elements) => {
            lemma_list_keeps(s, elements, fuel);
        },
        TypeV::Array { elem, .. } => {
            lemma_made_once(s, *elem, fuel);
        },
        TypeV::Slice(elem) => {
            lemma_made_once(s, *elem, fuel);
        },
        _ => {},
    }
}

/// A type that expansion leaves as it is, whatever has been made: a scalar, a `String`, or a
/// type of the C boundary.
pub open spec fn inert(t: TypeV) -> bool {
    ||| t is Int
    ||| t is Bool
    ||| t is String
    ||| t is Decimal
    ||| t is CInt
    ||| t is CDouble
    ||| t is CPointer
    ||| t is Width
}

proof fn lemma_inert_list(s: ExpansionV, ts: Seq<TypeV>, fuel: nat)
    requires
        forall|i: int| 0 <= i < ts.len() ==> inert(#[trigger] ts[i]),
    ensures
        expanded_list(s, ts, fuel) == (Ok::<Seq<TypeV>, Seq<char>>(ts), s),
        !mentions_any(ts),
        first_unnamed(s, ts, ts.len()) is None,
    decreases ts.len(),
{
    if ts.len() > 0 {
        lemma_inert_list(s, ts.drop_last(), fuel);
        assert(inert(ts[ts.len() - 1]));
        assert(ts.drop_last().push(ts.last()) =~= ts);
        assert(expanded(s, ts.last(), fuel) == (Ok::<TypeV, Seq<char>>(ts.last()), s));
        assert(!mentions(ts.last()));
        assert(first_unnamed(s, ts, (ts.len() - 1) as nat) == first_unnamed(s, ts.drop_last(), ts.drop_last().len())) by {
            lemma_first_unnamed_prefix(s, ts, (ts.len() - 1) as nat);
            assert(ts.take(ts.len() - 1) =~= ts.drop_last());
        }
    } else {
        assert(ts =~= Seq::<TypeV>::empty());
    }
}

proof fn lemma_first_unnamed_prefix(s: ExpansionV, ts: Seq<TypeV>, n: nat)
    requires
        n <= ts.len(),
    ensures
        first_unnamed(s, ts, n) == first_unnamed(s, ts.take(n as int), n),
    decreases n,
{
    if n > 0 {
        lemma_first_unnamed_prefix(s, ts, (n - 1) as nat);
        lemma_first_unnamed_prefix(s, ts.take(n as int), (n - 1) as nat);
        assert(ts.take(n as int).take(n - 1) =~= ts.take(n - 1));
    }
}

/// Asking again for an instantiation of a generic class, enum or interface at arguments that
/// expansion leaves as they are answers the same type and makes nothing: an instantiation is made
/// once, however often it is used.
pub proof fn lemma_asked_again(s: ExpansionV, t: TypeV, fuel: nat)
    requires
        t matches TypeV::Generic { arguments, .. } && forall|i: int| 0 <= i < arguments.len() ==> inert(#[trigger] arguments[i]),
        expanded(s, t, fuel).0 is Ok,
    ensures
        expanded(expanded(s, t, fuel).1, t, fuel) == expanded(s, t, fuel),
{
    let (r, s1) = expanded(s, t, fuel);
    lemma_made_once(s, t, fuel);
    if let TypeV::Generic { name, arguments } = t {
        lemma_inert_list(s, arguments, fuel);
        lemma_inert_list(s1, arguments, fuel);
        let symbol = mangled(name, arguments);
        if s.generic_interfaces.contains_key(name) {
            assert(expanded(s, t, fuel) == interface_applied(s, name, arguments, fuel));
            assert(expanded(s1, t, fuel) == interface_applied(s1, name, arguments, fuel));
            if !s.interfaces_made.contains_key(symbol) {
                assert(fuel > 0);
                lemma_interface_made_ok(s, name, arguments, (fuel - 1) as nat);
            }
            assert(r == Ok::<TypeV, Seq<char>>(TypeV::Dyn(symbol)));
            assert(s1.interfaces_made.contains_key(symbol));
            assert(interface_applied(s1, name, arguments, fuel) == (r, s1));
        } else if s.layouts.generic_records.contains_key(name) {
            if !is_record(s.layouts, symbol) {
                assert(fuel > 0);
                lemma_record_made_ok(s, name, arguments, (fuel - 1) as nat);
            }
            assert(r == Ok::<TypeV, Seq<char>>(TypeV::Named(symbol)));
            assert(is_record(s1.layouts, symbol));
        } else if s.layouts.generic_enums.contains_key(name) {
            if !is_enum(s.layouts, symbol) {
                assert(fuel > 0);
                lemma_enum_made_ok(s, name, arguments, (fuel - 1) as nat);
            }
            assert(r == Ok::<TypeV, Seq<char>>(TypeV::Named(symbol)));
            assert(is_enum(s1.layouts, symbol));
        }
    }
}

proof fn lemma_record_made_ok(s: ExpansionV, name: Seq<char>, args: Seq<TypeV>, fuel: nat)
    requires
        record_made(s, name, args, fuel).0 is Ok,
    ensures
        record_made(s, name, args, fuel).1.layouts.made_records.contains_key(mangled(name, args)),
        record_made(s, name, args, fuel).0 == Ok::<TypeV, Seq<char>>(TypeV::Named(mangled(name, args))),
{
    let symbol = mangled(name, args);
    let (params, fields) = s.layouts.generic_records[name];
    let map = bound_arguments(params, args);
    let s1 = with_made_records(s, s.layouts.made_records.insert(symbol, Seq::empty()));
    let (r, s2) = expanded_list(s1, subst_all(field_types(fields), map), fuel);
    assert(r is Ok);
    let types = r->Ok_0;
    assert(first_holding(types, symbol, types.len()) is None);
}

proof fn lemma_enum_made_ok(s: ExpansionV, name: Seq<char>, args: Seq<TypeV>, fuel: nat)
    requires
        enum_made(s, name, args, fuel).0 is Ok,
    ensures
        enum_made(s, name, args, fuel).1.layouts.enums.contains_key(mangled(name, args)),
        enum_made(s, name, args, fuel).0 == Ok::<TypeV, Seq<char>>(TypeV::Named(mangled(name, args))),
{
    let symbol = mangled(name, args);
    let (params, variants) = s.layouts.generic_enums[name];
    let map = bound_arguments(params, args);
    let s1 = with_enums(s, s.layouts.enums.insert(symbol, Seq::empty()));
    let (r, s2) = payloads_expanded(s1, variants, map, fuel);
    assert(r is Ok);
    let ps = r->Ok_0;
    assert(first_unlaid_variant(s2.layouts, ps, ps.len()) is None);
    assert(first_carrying(ps, symbol, ps.len()) is None);
}

proof fn lemma_interface_made_ok(s: ExpansionV, name: Seq<char>, args: Seq<TypeV>, fuel: nat)
    requires
        interface_made(s, name, args, fuel).0 is Ok,
    ensures
        interface_made(s, name, args, fuel).1.interfaces_made.contains_key(mangled(name, args)),
        interface_made(s, name, args, fuel).0 == Ok::<TypeV, Seq<char>>(TypeV::Dyn(mangled(name, args))),
{
    let symbol = mangled(name, args);
    let (params, methods) = s.generic_interfaces[name];
    let map = bound_arguments(params, args);
    let s1 = with_interfaces_made(s, s.interfaces_made.insert(symbol, Seq::empty()));
    let (r, s2) = methods_expanded(s1, methods, map, fuel);
    assert(r is Ok);
}

proof fn lemma_interface_applied_keeps(s: ExpansionV, name: Seq<char>, arguments: Seq<TypeV>, fuel: nat)
    ensures
        keeps(s, interface_applied(s, name, arguments, fuel).1),
    decreases fuel, 0int, arguments, 1int,
{
    lemma_list_keeps(s, arguments, fuel);
    let (r, s1) = expanded_list(s, arguments, fuel);
    if r is Ok {
        let args = r->Ok_0;
        let symbol = mangled(name, args);
        if args.len() == s1.generic_interfaces[name].0.len() && !mentions_any(args)
            && first_unnamed(s1, args, args.len()) is None && !s1.interfaces_made.contains_key(symbol) && fuel > 0 {
            lemma_interface_made_keeps(s1, name, args, (fuel - 1) as nat);
        }
    }
}

proof fn lemma_list_keeps(s: ExpansionV, ts: Seq<TypeV>, fuel: nat)
    ensures
        keeps(s, expanded_list(s, ts, fuel).1),
    decreases fuel, 0int, ts, 0int,
{
    if ts.len() > 0 {
        lemma_list_keeps(s, ts.drop_last(), fuel);
        let (r, s1) = expanded_list(s, ts.drop_last(), fuel);
        if r is Ok {
            lemma_made_once(s1, ts.last(), fuel);
        }
    }
}

proof fn lemma_record_made_keeps(s: ExpansionV, name: Seq<char>, args: Seq<TypeV>, fuel: nat)
    requires
        !s.layouts.made_records.contains_key(mangled(name, args)),
    ensures
        keeps(s, record_made(s, name, args, fuel).1),
    decreases fuel, 2int, args, 0int,
{
    let symbol = mangled(name, args);
    let (params, fields) = s.layouts.generic_records[name];
    let map = bound_arguments(params, args);
    let s1 = with_made_records(s, s.layouts.made_records.insert(symbol, Seq::empty()));
    assert(keeps(s, s1));
    lemma_list_keeps(s1, subst_all(field_types(fields), map), fuel);
    let (r, s2) = expanded_list(s1, subst_all(field_types(fields), map), fuel);
    assert(keeps(s, s2));
    if r is Ok {
        let types = r->Ok_0;
        let s3 = with_made_records(s2, s2.layouts.made_records.remove(symbol));
        assert(keeps(s, s3));
        let s4 = ExpansionV {
            record_order: s2.record_order.push((symbol, types)),
            wanted: s2.wanted.push((name, args)),
            ..with_instance(with_made_records(s2, s2.layouts.made_records.insert(symbol,
                paired(field_names(fields), types))), symbol, name, args)
        };
        assert(keeps(s, s4));
    }
}

proof fn lemma_payloads_keeps(s: ExpansionV, vs: Seq<(Seq<char>, Seq<TypeV>)>, map: Map<Seq<char>, TypeV>, fuel: nat)
    ensures
        keeps(s, payloads_expanded(s, vs, map, fuel).1),
    decreases fuel, 1int, vs, 0int,
{
    if vs.len() > 0 {
        lemma_payloads_keeps(s, vs.drop_last(), map, fuel);
        let (r, s1) = payloads_expanded(s, vs.drop_last(), map, fuel);
        if r is Ok {
            lemma_list_keeps(s1, subst_all(vs.last().1, map), fuel);
        }
    }
}

proof fn lemma_enum_made_keeps(s: ExpansionV, name: Seq<char>, args: Seq<TypeV>, fuel: nat)
    requires
        !s.layouts.enums.contains_key(mangled(name, args)),
    ensures
        keeps(s, enum_made(s, name, args, fuel).1),
    decreases fuel, 2int, args, 0int,
{
    let symbol = mangled(name, args);
    let (params, variants) = s.layouts.generic_enums[name];
    let map = bound_arguments(params, args);
    let s1 = with_enums(s, s.layouts.enums.insert(symbol, Seq::empty()));
    assert(keeps(s, s1));
    lemma_payloads_keeps(s1, variants, map, fuel);
    let (r, s2) = payloads_expanded(s1, variants, map, fuel);
    assert(keeps(s, s2));
    if r is Ok {
        let ps = r->Ok_0;
        let s3 = with_enums(s2, s2.layouts.enums.remove(symbol));
        assert(keeps(s, s3));
        let s4 = ExpansionV {
            enum_order: s2.enum_order.push((symbol, ps)),
            ..with_instance(with_enums(s2, s2.layouts.enums.insert(symbol,
                paired(variant_names(variants), ps))), symbol, name, args)
        };
        assert(keeps(s, s4));
    }
}

proof fn lemma_methods_keeps(s: ExpansionV, ms: Seq<InterfaceSigV>, map: Map<Seq<char>, TypeV>, fuel: nat)
    ensures
        keeps(s, methods_expanded(s, ms, map, fuel).1),
    decreases fuel, 1int, ms, 0int,
{
    if ms.len() > 0 {
        lemma_methods_keeps(s, ms.drop_last(), map, fuel);
        let (r, s1) = methods_expanded(s, ms.drop_last(), map, fuel);
        if r is Ok {
            let m = ms.last();
            lemma_list_keeps(s1, subst_all(m.parameters, map), fuel);
            let (r2, s2) = expanded_list(s1, subst_all(m.parameters, map), fuel);
            if r2 is Ok {
                lemma_made_once(s2, subst(m.ret, map), fuel);
            }
        }
    }
}

proof fn lemma_interface_made_keeps(s: ExpansionV, name: Seq<char>, args: Seq<TypeV>, fuel: nat)
    requires
        !s.interfaces_made.contains_key(mangled(name, args)),
    ensures
        keeps(s, interface_made(s, name, args, fuel).1),
    decreases fuel, 2int, args, 0int,
{
    let symbol = mangled(name, args);
    let (params, methods) = s.generic_interfaces[name];
    let map = bound_arguments(params, args);
    let s1 = with_interfaces_made(s, s.interfaces_made.insert(symbol, Seq::empty()));
    assert(keeps(s, s1));
    lemma_methods_keeps(s1, methods, map, fuel);
    let (r, s2) = methods_expanded(s1, methods, map, fuel);
    assert(keeps(s, s2));
    if r is Ok {
        let made = r->Ok_0;
        let s3 = with_instance(with_interfaces_made(s2, s2.interfaces_made.insert(symbol, made)), symbol, name, args);
        assert(keeps(s, s3));
    }
}

/// The view of an outcome.
pub open spec fn outcome<T: View>(r: Result<T, String>) -> Result<T::V, Seq<char>> {
    match r {
        Ok(t) => Ok(t@),
        Err(e) => Err(e@),
    }
}

/// The view of an outcome that is a list of types.
pub open spec fn list_outcome(r: Result<Vec<Type>, String>) -> Result<Seq<TypeV>, Seq<char>> {
    match r {
        Ok(ts) => Ok(view_types(ts@)),
        Err(e) => Err(e@),
    }
}

/// What expansion only reads stays as it was.
pub open spec fn reads_only(a: ExpansionV, b: ExpansionV) -> bool {
    &&& b.layouts.records == a.layouts.records
    &&& b.layouts.generic_records == a.layouts.generic_records
    &&& b.layouts.generic_enums == a.layouts.generic_enums
    &&& b.declared == a.declared
    &&& b.interface_names == a.interface_names
    &&& b.generic_interfaces == a.generic_interfaces
}

/// A refusal met in a prefix of a list is the refusal of the whole list.
proof fn lemma_list_refused(s: ExpansionV, ts: Seq<TypeV>, k: int, fuel: nat)
    requires
        0 <= k <= ts.len(),
        expanded_list(s, ts.take(k), fuel).0 is Err,
    ensures
        expanded_list(s, ts, fuel) == expanded_list(s, ts.take(k), fuel),
    decreases ts.len() - k,
{
    if k < ts.len() {
        assert(ts.take(k + 1).drop_last() =~= ts.take(k));
        lemma_list_refused(s, ts, k + 1, fuel);
    } else {
        assert(ts.take(k) =~= ts);
    }
}

fn write_names(out: &mut String, names: &Vec<String>)
    ensures
        final(out)@ == old(out)@ + names_text(view_names(names@)),
{
    let ghost ns = view_names(names@);
    let mut i: usize = 0;
    while i < names.len()
        invariant
            0 <= i <= names@.len(),
            ns == view_names(names@),
            out@ == old(out)@ + names_text(ns.take(i as int)),
        decreases names.len() - i,
    {
        if i > 0 {
            append(out, ", ");
        }
        append(out, names[i].as_str());
        assert(ns.take(i + 1).drop_last() =~= ns.take(i as int));
        assert(out@ =~= old(out)@ + names_text(ns.take(i + 1)));
        i = i + 1;
    }
    assert(ns.take(i as int) =~= ns);
}

fn arity(name: &String, wanted: usize, given: usize) -> (r: String)
    ensures
        r@ == arity_text(name@, wanted as nat, given as nat),
{
    let mut out = String::new();
    append(&mut out, "`");
    append(&mut out, name.as_str());
    append(&mut out, "` takes ");
    write_u64(&mut out, wanted as u64);
    append(&mut out, " type argument(s), but ");
    write_u64(&mut out, given as u64);
    append(&mut out, " were given");
    assert(out@ =~= arity_text(name@, wanted as nat, given as nat));
    out
}

fn endless(symbol: &String) -> (r: String)
    ensures
        r@ == endless_text(symbol@),
{
    let mut out = String::new();
    append(&mut out, "`");
    append(&mut out, symbol.as_str());
    append(&mut out, "` is made inside its own making without end");
    out
}

impl Expansion {
    fn is_record_name(&self, n: &String) -> (r: bool)
        ensures
            r == is_record(self@.layouts, n@),
    {
        self.layouts.records.get(n).is_some() || self.layouts.made_records.get(n).is_some()
    }

    fn is_enum_name(&self, n: &String) -> (r: bool)
        ensures
            r == is_enum(self@.layouts, n@),
    {
        self.layouts.enums.get(n).is_some()
    }

    /// Each type of `ts` expanded in order, stopping at the first refusal.
    fn expand_list(&mut self, ts: &Vec<Type>, fuel: u64) -> (r: Result<Vec<Type>, String>)
        ensures
            (list_outcome(r), final(self)@) == expanded_list(old(self)@, view_types(ts@), fuel as nat),
            reads_only(old(self)@, final(self)@),
            r matches Ok(out) ==> out@.len() == ts@.len(),
        decreases fuel, 0int, ts, 0int,
    {
        let ghost xs = view_types(ts@);
        proof {
            lemma_view_types(ts@);
            assert(xs.take(0) =~= Seq::<TypeV>::empty());
        }
        let mut out: Vec<Type> = Vec::new();
        let mut i: usize = 0;
        while i < ts.len()
            invariant
                0 <= i <= ts@.len(),
                xs == view_types(ts@),
                xs.len() == ts@.len(),
                forall|k: int| 0 <= k < ts@.len() ==> #[trigger] xs[k] == ts@[k]@,
                (Ok::<Seq<TypeV>, Seq<char>>(view_types(out@)), self@) == expanded_list(old(self)@, xs.take(i as int), fuel as nat),
                reads_only(old(self)@, self@),
                out@.len() == i,
            decreases ts.len() - i,
        {
            proof {
                assert(decreases_to!(ts => ts@[i as int]));
                assert(xs.take(i + 1).drop_last() =~= xs.take(i as int));
            }
            match self.expand_within(&ts[i], fuel) {
                Ok(t) => {
                    let ghost before = out@;
                    out.push(t);
                    assert(out@.drop_last() =~= before);
                },
                Err(e) => {
                    proof {
                        lemma_list_refused(old(self)@, xs, i + 1, fuel as nat);
                    }
                    return Err(e);
                },
            }
            i = i + 1;
        }
        assert(xs.take(i as int) =~= xs);
        Ok(out)
    }

    /// [`expanded`], with at most `fuel` instantiations made inside one another.
    fn expand_within(&mut self, ty: &Type, fuel: u64) -> (r: Result<Type, String>)
        ensures
            (outcome(r), final(self)@) == expanded(old(self)@, ty@, fuel as nat),
            reads_only(old(self)@, final(self)@),
        decreases fuel, 0int, ty, 0int,
    {
        match ty {
            Type::Named(n) => {
                if has_name(&self.interface_names, n) {
                    return Ok(Type::Dyn(n.clone()));
                }
                match self.generic_interfaces.get(n) {
                    Some(g) => {
                        let mut out = String::new();
                        append(&mut out, "`");
                        append(&mut out, n.as_str());
                        append(&mut out, "` takes ");
                        write_u64(&mut out, g.parameters.len() as u64);
                        append(&mut out, " type argument(s), so write `");
                        append(&mut out, n.as_str());
                        append(&mut out, "<");
                        write_names(&mut out, &g.parameters);
                        append(&mut out, ">` rather than `");
                        append(&mut out, n.as_str());
                        append(&mut out, "` on its own.");
                        assert(out@ =~= bare_interface_text(n@, view_names(g.parameters@)));
                        Err(out)
                    },
                    None => Ok(ty.duplicate()),
                }
            },
            Type::Array { elem, len } => {
                match self.expand_within(elem, fuel) {
                    Ok(x) => Ok(Type::Array { elem: Box::new(x), len: *len }),
                    Err(e) => Err(e),
                }
            },
            Type::Slice(elem) => {
                match self.expand_within(elem, fuel) {
                    Ok(x) => Ok(Type::Slice(Box::new(x))),
                    Err(e) => Err(e),
                }
            },
            Type::DynGeneric { name, arguments } => {
                if self.generic_interfaces.get(name).is_none() {
                    let mut out = String::new();
                    append(&mut out, "unknown interface `");
                    append(&mut out, name.as_str());
                    append(&mut out, "` — declare it with `interface ");
                    append(&mut out, name.as_str());
                    append(&mut out, " { ... }`");
                    return Err(out);
                }
                self.apply_interface(name, arguments, fuel)
            },
            Type::Tuple(elements) => {
                let es = match self.expand_list(elements, fuel) {
                    Ok(es) => es,
                    Err(e) => return Err(e),
                };
                if mentions_param_list(&es) {
                    return Ok(Type::Tuple(es));
                }
                let symbol = tuple_symbol(&self.instances, &es);
                if self.is_record_name(&symbol) {
                    return Ok(Type::Named(symbol));
                }
                self.make_tuple(symbol, es)
            },
            Type::Generic { name, arguments } => {
                if self.generic_interfaces.get(name).is_some() {
                    return self.apply_interface(name, arguments, fuel);
                }
                if self.layouts.generic_records.get(name).is_some() {
                    return self.apply_record(name, arguments, fuel);
                }
                if self.layouts.generic_enums.get(name).is_none() {
                    let mut out = String::new();
                    if has_name(&self.declared_type_names, name) {
                        append(&mut out, "`");
                        append(&mut out, name.as_str());
                        append(&mut out, "` is not generic, so it takes no type arguments — write `");
                        append(&mut out, name.as_str());
                        append(&mut out, "` on its own.");
                    } else {
                        append(&mut out, "unknown generic type `");
                        append(&mut out, name.as_str());
                        append(&mut out, "`");
                    }
                    return Err(out);
                }
                self.apply_enum(name, arguments, fuel)
            },
            _ => Ok(ty.duplicate()),
        }
    }

    /// The record arm of [`expanded`]: generic class `name` applied to `arguments`.
    fn apply_record(&mut self, name: &String, arguments: &Vec<Type>, fuel: u64) -> (r: Result<Type, String>)
        requires
            old(self)@.layouts.generic_records.contains_key(name@),
            !old(self)@.generic_interfaces.contains_key(name@),
        ensures
            (outcome(r), final(self)@) == expanded(old(self)@, TypeV::Generic { name: name@, arguments: view_types(arguments@) }, fuel as nat),
            reads_only(old(self)@, final(self)@),
        decreases fuel, 0int, arguments, 1int,
    {
        let args = match self.expand_list(arguments, fuel) {
            Ok(a) => a,
            Err(e) => return Err(e),
        };
        proof {
            lemma_view_types(args@);
        }
        let wanted = match self.layouts.generic_records.get(name) {
            Some(g) => g.parameters.len(),
            None => 0,
        };
        if args.len() != wanted {
            return Err(arity(name, wanted, args.len()));
        }
        if mentions_param_list(&args) {
            return Ok(Type::Generic { name: name.clone(), arguments: args });
        }
        let symbol = mangle(name.as_str(), args.as_slice());
        if self.is_record_name(&symbol) {
            return Ok(Type::Named(symbol));
        }
        if fuel == 0 {
            return Err(endless(&symbol));
        }
        self.make_record(name, args, fuel - 1)
    }

    /// [`record_made`].
    #[verifier::loop_isolation(false)]
    fn make_record(&mut self, name: &String, args: Vec<Type>, fuel: u64) -> (r: Result<Type, String>)
        requires
            old(self)@.layouts.generic_records.contains_key(name@),
        ensures
            (outcome(r), final(self)@) == record_made(old(self)@, name@, view_types(args@), fuel as nat),
            reads_only(old(self)@, final(self)@),
        decreases fuel, 2int, args, 0int,
    {
        let ghost s = self@;
        let ghost xs = view_types(args@);
        let ghost fs = s.layouts.generic_records[name@].1;
        let symbol = mangle(name.as_str(), args.as_slice());
        let (map, names, types_in) = match self.layouts.generic_records.get(name) {
            Some(g) => {
                let map = argument_map(&g.parameters, &args);
                let mut names: Vec<String> = Vec::new();
                let mut types: Vec<Type> = Vec::new();
                assert(fs == view_fields(g.fields@));
                let mut i: usize = 0;
                while i < g.fields.len()
                    invariant
                        0 <= i <= g.fields@.len(),
                        fs == view_fields(g.fields@),
                        names@.len() == i,
                        types@.len() == i,
                        forall|k: int| 0 <= k < i ==> (#[trigger] names@[k])@ == fs[k].0,
                        forall|k: int| 0 <= k < i ==> (#[trigger] types@[k])@ == fs[k].1,
                    decreases g.fields.len() - i,
                {
                    names.push(g.fields[i].0.clone());
                    types.push(g.fields[i].1.duplicate());
                    i = i + 1;
                }
                proof {
                    lemma_view_types(types@);
                    assert(view_types(types@) =~= field_types(fs));
                    assert(view_names(names@) =~= field_names(fs));
                }
                (map, names, types)
            },
            None => {
                assert(false);
                (NameMap::new(), Vec::new(), Vec::new())
            },
        };
        assert(names@.len() == fs.len());
        assert(view_types(types_in@) == field_types(fs));
        let substituted = substitute_payload(&types_in, &map);
        proof {
            lemma_subst_all(field_types(fs), map@);
            lemma_view_types(substituted@);
            assert(substituted@.len() == fs.len());
        }
        self.layouts.made_records.insert(symbol.clone(), Fields { fields: Vec::new() });
        proof {
            assert(view_fields(Seq::<(String, Type)>::empty()) =~= Seq::<(Seq<char>, TypeV)>::empty());
            assert(self@ == with_made_records(s, s.layouts.made_records.insert(symbol@, Seq::empty())));
        }
        let types = match self.expand_list(&substituted, fuel) {
            Ok(t) => t,
            Err(e) => return Err(e),
        };
        let ghost tv = view_types(types@);
        proof {
            lemma_view_types(types@);
        }
        match first_holding_at(&types, &symbol) {
            Some(i) => {
                self.layouts.made_records.remove(&symbol);
                let mut out = String::new();
                append(&mut out, "`");
                append(&mut out, symbol.as_str());
                append(&mut out, "` cannot contain itself: `");
                append(&mut out, name.as_str());
                append(&mut out, ".");
                append(&mut out, names[i].as_str());
                append(&mut out, "` would have to be the same size as the whole class.");
                return Err(out);
            },
            None => {},
        }
        let mut made: Vec<(String, Type)> = Vec::new();
        let mut j: usize = 0;
        while j < types.len()
            invariant
                0 <= j <= types@.len(),
                names@.len() == types@.len(),
                made@.len() == j,
                forall|k: int| 0 <= k < j ==> (#[trigger] made@[k]).0@ == names@[k]@ && made@[k].1@ == types@[k]@,
            decreases types.len() - j,
        {
            made.push((names[j].clone(), types[j].duplicate()));
            j = j + 1;
        }
        proof {
            assert(view_fields(made@) =~= paired(field_names(fs), tv));
        }
        self.layouts.made_records.insert(symbol.clone(), Fields { fields: made });
        self.instances.insert(symbol.clone(), Instance { of: name.clone(), arguments: duplicate_list(&args) });
        let ghost order = self.record_order@;
        let ghost asked = self.wanted_records@;
        self.record_order.push(TypedStruct { name: symbol.clone(), fields: types });
        self.wanted_records.push((name.clone(), args));
        assert(Seq::new(self.record_order@.len(), |i: int| (self.record_order@[i].name@, view_types(self.record_order@[i].fields@)))
            =~= Seq::new(order.len(), |i: int| (order[i].name@, view_types(order[i].fields@))).push((symbol@, tv)));
        assert(Seq::new(self.wanted_records@.len(), |i: int| (self.wanted_records@[i].0@, view_types(self.wanted_records@[i].1@)))
            =~= Seq::new(asked.len(), |i: int| (asked[i].0@, view_types(asked[i].1@))).push((name@, xs)));
        Ok(Type::Named(symbol))
    }

    /// The class behind a tuple of elements `es`, named `symbol`, made.
    #[verifier::loop_isolation(false)]
    fn make_tuple(&mut self, symbol: String, es: Vec<Type>) -> (r: Result<Type, String>)
        ensures
            r matches Ok(t) && t@ == TypeV::Named(symbol@),
            final(self)@ == (ExpansionV {
                record_order: old(self)@.record_order.push((symbol@, view_types(es@))),
                tuples: old(self)@.tuples.insert(symbol@, view_types(es@)),
                ..with_made_records(old(self)@, old(self)@.layouts.made_records.insert(symbol@, tuple_fields(view_types(es@))))
            }),
    {
        proof {
            lemma_view_types(es@);
        }
        let mut fields: Vec<(String, Type)> = Vec::new();
        let mut i: usize = 0;
        while i < es.len()
            invariant
                0 <= i <= es@.len(),
                fields@.len() == i,
                forall|k: int| 0 <= k < i ==> (#[trigger] fields@[k]).0@ == nat_text(k as nat) && fields@[k].1@ == es@[k]@,
            decreases es.len() - i,
        {
            let mut position = String::new();
            write_u64(&mut position, i as u64);
            fields.push((position, es[i].duplicate()));
            i = i + 1;
        }
        proof {
            assert(view_fields(fields@) =~= tuple_fields(view_types(es@)));
        }
        self.layouts.made_records.insert(symbol.clone(), Fields { fields });
        self.tuples.insert(symbol.clone(), TypeList { types: duplicate_list(&es) });
        let ghost order = self.record_order@;
        let ghost ev = view_types(es@);
        self.record_order.push(TypedStruct { name: symbol.clone(), fields: es });
        assert(Seq::new(self.record_order@.len(), |i: int| (self.record_order@[i].name@, view_types(self.record_order@[i].fields@)))
            =~= Seq::new(order.len(), |i: int| (order[i].name@, view_types(order[i].fields@))).push((symbol@, ev)));
        Ok(Type::Named(symbol))
    }

    /// The enum arm of [`expanded`]: generic enum `name` applied to `arguments`.
    fn apply_enum(&mut self, name: &String, arguments: &Vec<Type>, fuel: u64) -> (r: Result<Type, String>)
        requires
            old(self)@.layouts.generic_enums.contains_key(name@),
            !old(self)@.layouts.generic_records.contains_key(name@),
            !old(self)@.generic_interfaces.contains_key(name@),
        ensures
            (outcome(r), final(self)@) == expanded(old(self)@, TypeV::Generic { name: name@, arguments: view_types(arguments@) }, fuel as nat),
            reads_only(old(self)@, final(self)@),
        decreases fuel, 0int, arguments, 1int,
    {
        let args = match self.expand_list(arguments, fuel) {
            Ok(a) => a,
            Err(e) => return Err(e),
        };
        proof {
            lemma_view_types(args@);
        }
        let wanted = match self.layouts.generic_enums.get(name) {
            Some(g) => g.parameters.len(),
            None => 0,
        };
        if args.len() != wanted {
            return Err(arity(name, wanted, args.len()));
        }
        if mentions_param_list(&args) {
            return Ok(Type::Generic { name: name.clone(), arguments: args });
        }
        let symbol = mangle(name.as_str(), args.as_slice());
        if self.is_enum_name(&symbol) {
            return Ok(Type::Named(symbol));
        }
        if fuel == 0 {
            return Err(endless(&symbol));
        }
        self.make_enum(name, args, fuel - 1)
    }

    /// [`enum_made`].
    #[verifier::loop_isolation(false)]
    fn make_enum(&mut self, name: &String, args: Vec<Type>, fuel: u64) -> (r: Result<Type, String>)
        requires
            old(self)@.layouts.generic_enums.contains_key(name@),
        ensures
            (outcome(r), final(self)@) == enum_made(old(self)@, name@, view_types(args@), fuel as nat),
            reads_only(old(self)@, final(self)@),
        decreases fuel, 2int, args, 0int,
    {
        let ghost s = self@;
        let ghost xs = view_types(args@);
        let symbol = mangle(name.as_str(), args.as_slice());
        let ghost vs = s.layouts.generic_enums[name@].1;
        let (map, names, payloads_in) = match self.layouts.generic_enums.get(name) {
            Some(g) => {
                let map = argument_map(&g.parameters, &args);
                let mut names: Vec<String> = Vec::new();
                let mut payloads: Vec<Vec<Type>> = Vec::new();
                let mut i: usize = 0;
                while i < g.variants.len()
                    invariant
                        0 <= i <= g.variants@.len(),
                        vs == view_variants(g.variants@),
                        names@.len() == i,
                        payloads@.len() == i,
                        forall|k: int| 0 <= k < i ==> (#[trigger] names@[k])@ == vs[k].0,
                        forall|k: int| 0 <= k < i ==> view_types((#[trigger] payloads@[k])@) == subst_all(vs[k].1, map@),
                    decreases g.variants.len() - i,
                {
                    names.push(g.variants[i].0.clone());
                    payloads.push(substitute_payload(&g.variants[i].1, &map));
                    i = i + 1;
                }
                (map, names, payloads)
            },
            None => {
                assert(false);
                (NameMap::new(), Vec::new(), Vec::new())
            },
        };
        let ghost m = map@;
        self.layouts.enums.insert(symbol.clone(), Variants { variants: Vec::new() });
        let ghost s1 = self@;
        proof {
            assert(view_variants(Seq::<(String, Vec<Type>)>::empty()) =~= Seq::<(Seq<char>, Seq<TypeV>)>::empty());
            assert(s1 == with_enums(s, s.layouts.enums.insert(symbol@, Seq::empty())));
            assert(vs.take(0) =~= Seq::<(Seq<char>, Seq<TypeV>)>::empty());
        }
        let mut ps: Vec<Vec<Type>> = Vec::new();
        let mut i: usize = 0;
        assert(Seq::new(ps@.len(), |k: int| view_types(ps@[k]@)) =~= Seq::<Seq<TypeV>>::empty());
        while i < payloads_in.len()
            invariant
                0 <= i <= payloads_in@.len(),
                ps@.len() == i,
                payloads_in@.len() == vs.len(),
                forall|k: int| 0 <= k < vs.len() ==> view_types((#[trigger] payloads_in@[k])@) == subst_all(vs[k].1, m),
                (Ok::<Seq<Seq<TypeV>>, Seq<char>>(Seq::new(ps@.len(), |k: int| view_types(ps@[k]@))), self@)
                    == payloads_expanded(s1, vs.take(i as int), m, fuel as nat),
                reads_only(s1, self@),
            decreases payloads_in.len() - i,
        {
            proof {
                assert(vs.take(i + 1).drop_last() =~= vs.take(i as int));
                assert(vs.take(i + 1).last() == vs[i as int]);
            }
            match self.expand_list(&payloads_in[i], fuel) {
                Ok(p) => {
                    let ghost before = ps@;
                    ps.push(p);
                    assert(Seq::new(ps@.len(), |k: int| view_types(ps@[k]@))
                        =~= Seq::new(before.len(), |k: int| view_types(before[k]@)).push(view_types(ps@[i as int]@)));
                },
                Err(e) => {
                    proof {
                        lemma_payloads_refused(s1, vs, i + 1, m, fuel as nat);
                    }
                    return Err(e);
                },
            }
            i = i + 1;
        }
        assert(vs.take(i as int) =~= vs);
        let ghost pv = payload_views(ps@);
        match self.first_unlaid_at(&ps) {
            Some((a, b)) => {
                let t = &ps[a][b];
                let shown = Type::Generic { name: name.clone(), arguments: duplicate_list(&args) };
                let mut out = String::new();
                append(&mut out, "`");
                shown.write_text(&mut out);
                append(&mut out, "` cannot be made: `");
                append(&mut out, name.as_str());
                append(&mut out, ".");
                append(&mut out, names[a].as_str());
                append(&mut out, "` would carry ");
                append(&mut out, article_of(t));
                append(&mut out, " ");
                t.write_text(&mut out);
                append(&mut out, ", which has no layout here. A variant carries a scalar, a String, a class or an array.");
                self.layouts.enums.remove(&symbol);
                return Err(out);
            },
            None => {},
        }
        match first_carrying_at(&ps, &symbol) {
            Some(c) => {
                self.layouts.enums.remove(&symbol);
                let mut out = String::new();
                append(&mut out, "`");
                append(&mut out, symbol.as_str());
                append(&mut out, "` cannot carry itself: `");
                append(&mut out, name.as_str());
                append(&mut out, ".");
                append(&mut out, names[c].as_str());
                append(&mut out, "` would have to hold a value the same size as the whole enum, plus a tag.");
                return Err(out);
            },
            None => {},
        }
        let mut made: Vec<(String, Vec<Type>)> = Vec::new();
        let mut j: usize = 0;
        while j < ps.len()
            invariant
                0 <= j <= ps@.len(),
                names@.len() == ps@.len(),
                made@.len() == j,
                forall|k: int| 0 <= k < j ==> (#[trigger] made@[k]).0@ == names@[k]@
                    && view_types(made@[k].1@) == view_types(ps@[k]@),
            decreases ps.len() - j,
        {
            made.push((names[j].clone(), duplicate_list(&ps[j])));
            j = j + 1;
        }
        proof {
            assert(view_variants(made@) =~= paired(variant_names(vs), pv));
        }
        self.layouts.enums.insert(symbol.clone(), Variants { variants: made });
        self.instances.insert(symbol.clone(), Instance { of: name.clone(), arguments: duplicate_list(&args) });
        let ghost order = self.enum_order@;
        self.enum_order.push(TypedEnum { name: symbol.clone(), variants: ps });
        assert(Seq::new(self.enum_order@.len(), |i: int| (self.enum_order@[i].name@, Seq::new(self.enum_order@[i].variants@.len(),
                |j: int| view_types(self.enum_order@[i].variants@[j]@))))
            =~= Seq::new(order.len(), |i: int| (order[i].name@, Seq::new(order[i].variants@.len(),
                |j: int| view_types(order[i].variants@[j]@)))).push((symbol@, pv)));
        Ok(Type::Named(symbol))
    }
}

impl Expansion {
    /// Expands a written type: see [`expanded`]. Instantiations are made inside one another to
    /// any depth a program can reach.
    pub fn expand(&mut self, ty: &Type) -> (r: Result<Type, String>)
        ensures
            (outcome(r), final(self)@) == expanded(old(self)@, ty@, u64::MAX as nat),
    {
        self.expand_within(ty, u64::MAX)
    }

    /// [`interface_applied`].
    #[verifier::loop_isolation(false)]
    fn apply_interface(&mut self, name: &String, arguments: &Vec<Type>, fuel: u64) -> (r: Result<Type, String>)
        requires
            old(self)@.generic_interfaces.contains_key(name@),
        ensures
            (outcome(r), final(self)@) == interface_applied(old(self)@, name@, view_types(arguments@), fuel as nat),
            reads_only(old(self)@, final(self)@),
        decreases fuel, 0int, arguments, 1int,
    {
        let args = match self.expand_list(arguments, fuel) {
            Ok(a) => a,
            Err(e) => return Err(e),
        };
        proof {
            lemma_view_types(args@);
        }
        let wanted = match self.generic_interfaces.get(name) {
            Some(g) => g.parameters.len(),
            None => 0,
        };
        if args.len() != wanted {
            return Err(arity(name, wanted, args.len()));
        }
        if mentions_param_list(&args) {
            return Ok(Type::DynGeneric { name: name.clone(), arguments: args });
        }
        let ghost av = view_types(args@);
        proof {
            lemma_view_types(args@);
        }
        let mut i: usize = 0;
        while i < args.len()
            invariant
                0 <= i <= args@.len(),
                av == view_types(args@),
                av.len() == args@.len(),
                forall|k: int| 0 <= k < args@.len() ==> #[trigger] av[k] == args@[k]@,
                first_unnamed(self@, av, i as nat) is None,
            decreases args.len() - i,
        {
            match &args[i] {
                Type::Named(a) => {
                    if !has_name(&self.declared_type_names, a) && !self.is_record_name(a) && !self.is_enum_name(a)
                        && !has_name(&self.interface_names, a) {
                        proof {
                            lemma_first_unnamed_stands(self@, av, (i + 1) as nat, av.len());
                        }
                        let mut out = String::new();
                        append(&mut out, "`");
                        append(&mut out, a.as_str());
                        append(&mut out, "` in `");
                        append(&mut out, name.as_str());
                        append(&mut out, "<...>` names no type. A method's type parameters come from its receiver — `function (self: List<T>) ...` declares `T` and nothing else.");
                        return Err(out);
                    }
                },
                _ => {},
            }
            i = i + 1;
        }
        let symbol = mangle(name.as_str(), args.as_slice());
        if self.interfaces_made.get(&symbol).is_some() {
            return Ok(Type::Dyn(symbol));
        }
        if fuel == 0 {
            return Err(endless(&symbol));
        }
        self.make_interface(name, args, fuel - 1)
    }

    /// [`interface_made`].
    #[verifier::loop_isolation(false)]
    fn make_interface(&mut self, name: &String, args: Vec<Type>, fuel: u64) -> (r: Result<Type, String>)
        requires
            old(self)@.generic_interfaces.contains_key(name@),
        ensures
            (outcome(r), final(self)@) == interface_made(old(self)@, name@, view_types(args@), fuel as nat),
            reads_only(old(self)@, final(self)@),
        decreases fuel, 2int, args, 0int,
    {
        let ghost s = self@;
        let symbol = mangle(name.as_str(), args.as_slice());
        let ghost ms = s.generic_interfaces[name@].1;
        let (map, sigs) = match self.generic_interfaces.get(name) {
            Some(g) => {
                let map = argument_map(&g.parameters, &args);
                let sigs = methods_for(&g.methods, &map);
                (map, sigs)
            },
            None => {
                assert(false);
                (NameMap::new(), Vec::new())
            },
        };
        let ghost m = map@;
        self.interfaces_made.insert(symbol.clone(), Signatures { sigs: Vec::new() });
        let ghost s1 = self@;
        proof {
            assert(Seq::new(Seq::<InterfaceSig>::empty().len(), |k: int| Seq::<InterfaceSig>::empty()[k]@)
                =~= Seq::<InterfaceSigV>::empty());
            assert(s1 == with_interfaces_made(s, s.interfaces_made.insert(symbol@, Seq::empty())));
            assert(ms.take(0) =~= Seq::<InterfaceSigV>::empty());
        }
        let mut made: Vec<InterfaceSig> = Vec::new();
        let mut i: usize = 0;
        while i < sigs.len()
            invariant
                0 <= i <= sigs@.len(),
                sigs@.len() == ms.len(),
                forall|k: int| 0 <= k < ms.len() ==> {
                    &&& (#[trigger] sigs@[k]).0@ == ms[k]
                    &&& view_types(sigs@[k].1@) == subst_all(ms[k].parameters, m)
                    &&& sigs@[k].2@ == subst(ms[k].ret, m)
                },
                made@.len() == i,
                (Ok::<Seq<InterfaceSigV>, Seq<char>>(Seq::new(made@.len(), |k: int| made@[k]@)), self@)
                    == methods_expanded(s1, ms.take(i as int), m, fuel as nat),
                reads_only(s1, self@),
            decreases sigs.len() - i,
        {
            proof {
                assert(ms.take(i + 1).drop_last() =~= ms.take(i as int));
                assert(ms.take(i + 1).last() == ms[i as int]);
            }
            let parameters = match self.expand_list(&sigs[i].1, fuel) {
                Ok(p) => p,
                Err(e) => {
                    proof {
                        lemma_methods_refused(s1, ms, i + 1, m, fuel as nat);
                    }
                    return Err(e);
                },
            };
            let ret = match self.expand_within(&sigs[i].2, fuel) {
                Ok(t) => t,
                Err(e) => {
                    proof {
                        lemma_methods_refused(s1, ms, i + 1, m, fuel as nat);
                    }
                    return Err(e);
                },
            };
            let original = &sigs[i].0;
            let sig = InterfaceSig {
                name: original.name.clone(),
                receiver_mut: original.receiver_mut,
                writable: copy_flags(&original.writable),
                parameters,
                ret,
            };
            let ghost before = made@;
            made.push(sig);
            assert(Seq::new(made@.len(), |k: int| made@[k]@)
                =~= Seq::new(before.len(), |k: int| before[k]@).push(made@[i as int]@));
            i = i + 1;
        }
        assert(ms.take(i as int) =~= ms);
        self.interfaces_made.insert(symbol.clone(), Signatures { sigs: made });
        self.instances.insert(symbol.clone(), Instance { of: name.clone(), arguments: duplicate_list(&args) });
        Ok(Type::Dyn(symbol))
    }
}

/// Each method of a generic interface, with its parameter types and return type substituted.
fn methods_for(methods: &Vec<InterfaceSig>, map: &NameMap<Type>) -> (r: Vec<(InterfaceSig, Vec<Type>, Type)>)
    ensures
        r@.len() == methods@.len(),
        forall|k: int| 0 <= k < methods@.len() ==> {
            &&& (#[trigger] r@[k]).0@ == methods@[k]@
            &&& view_types(r@[k].1@) == subst_all(methods@[k]@.parameters, map@)
            &&& r@[k].2@ == subst(methods@[k]@.ret, map@)
        },
{
    let mut sigs: Vec<(InterfaceSig, Vec<Type>, Type)> = Vec::new();
    let mut i: usize = 0;
    while i < methods.len()
        invariant
            0 <= i <= methods@.len(),
            sigs@.len() == i,
            forall|k: int| 0 <= k < i ==> {
                &&& (#[trigger] sigs@[k]).0@ == methods@[k]@
                &&& view_types(sigs@[k].1@) == subst_all(methods@[k]@.parameters, map@)
                &&& sigs@[k].2@ == subst(methods@[k]@.ret, map@)
            },
        decreases methods.len() - i,
    {
        let m = &methods[i];
        let copy = InterfaceSig {
            name: m.name.clone(),
            receiver_mut: m.receiver_mut,
            writable: copy_flags(&m.writable),
            parameters: duplicate_list(&m.parameters),
            ret: m.ret.duplicate(),
        };
        let params = substitute_payload(&m.parameters, map);
        let ret = substitute(&m.ret, map);
        sigs.push((copy, params, ret));
        i = i + 1;
    }
    sigs
}

fn copy_flags(v: &Vec<bool>) -> (r: Vec<bool>)
    ensures
        r@ == v@,
{
    let mut out: Vec<bool> = Vec::new();
    let mut i: usize = 0;
    while i < v.len()
        invariant
            0 <= i <= v@.len(),
            out@ == v@.take(i as int),
        decreases v.len() - i,
    {
        out.push(v[i]);
        assert(out@ =~= v@.take(i + 1));
        i = i + 1;
    }
    assert(v@.take(i as int) =~= v@);
    out
}

/// A name found unnamed among the first arguments stays the first found among more of them.
proof fn lemma_first_unnamed_stands(s: ExpansionV, args: Seq<TypeV>, m: nat, n: nat)
    requires
        m <= n,
        first_unnamed(s, args, m) is Some,
    ensures
        first_unnamed(s, args, n) == first_unnamed(s, args, m),
    decreases n - m,
{
    if m < n {
        lemma_first_unnamed_stands(s, args, m, (n - 1) as nat);
    }
}

/// A refusal met among the first methods is the refusal of them all.
proof fn lemma_methods_refused(s: ExpansionV, ms: Seq<InterfaceSigV>, k: int, m: Map<Seq<char>, TypeV>, fuel: nat)
    requires
        0 <= k <= ms.len(),
        methods_expanded(s, ms.take(k), m, fuel).0 is Err,
    ensures
        methods_expanded(s, ms, m, fuel) == methods_expanded(s, ms.take(k), m, fuel),
    decreases ms.len() - k,
{
    if k < ms.len() {
        assert(ms.take(k + 1).drop_last() =~= ms.take(k));
        lemma_methods_refused(s, ms, k + 1, m, fuel);
    } else {
        assert(ms.take(k) =~= ms);
    }
}

/// The view of a list of payload lists.
pub open spec fn payload_views(ps: Seq<Vec<Type>>) -> Seq<Seq<TypeV>> {
    Seq::new(ps.len(), |k: int| view_types(ps[k]@))
}

/// The first of the field types that is the class `symbol`, by [`first_holding`].
fn first_holding_at(types: &Vec<Type>, symbol: &String) -> (r: Option<usize>)
    ensures
        match first_holding(view_types(types@), symbol@, types@.len() as nat) {
            Some(i) => r == Some(i as usize) && 0 <= i < types@.len(),
            None => r is None,
        },
{
    let ghost tv = view_types(types@);
    proof {
        lemma_view_types(types@);
    }
    let mut i: usize = 0;
    while i < types.len()
        invariant
            0 <= i <= types@.len(),
            tv == view_types(types@),
            tv.len() == types@.len(),
            forall|k: int| 0 <= k < types@.len() ==> #[trigger] tv[k] == types@[k]@,
            first_holding(tv, symbol@, i as nat) is None,
        decreases types.len() - i,
    {
        let holds = match &types[i] {
            Type::Named(n) => *n == *symbol,
            _ => false,
        };
        if holds {
            proof {
                assert(first_holding(tv, symbol@, (i + 1) as nat) == Some(i as int));
                lemma_first_holding_stands(tv, symbol@, (i + 1) as nat, tv.len());
            }
            return Some(i);
        }
        i = i + 1;
    }
    None
}

proof fn lemma_first_holding_stands(ts: Seq<TypeV>, symbol: Seq<char>, m: nat, n: nat)
    requires
        m <= n,
        first_holding(ts, symbol, m) is Some,
    ensures
        first_holding(ts, symbol, n) == first_holding(ts, symbol, m),
    decreases n - m,
{
    if m < n {
        lemma_first_holding_stands(ts, symbol, m, (n - 1) as nat);
    }
}

/// The first variant whose payload holds the enum `symbol`, by [`first_carrying`].
fn first_carrying_at(ps: &Vec<Vec<Type>>, symbol: &String) -> (r: Option<usize>)
    ensures
        match first_carrying(payload_views(ps@), symbol@, ps@.len() as nat) {
            Some(i) => r == Some(i as usize) && 0 <= i < ps@.len(),
            None => r is None,
        },
{
    let ghost pv = payload_views(ps@);
    let mut c: usize = 0;
    while c < ps.len()
        invariant
            0 <= c <= ps@.len(),
            pv == payload_views(ps@),
            first_carrying(pv, symbol@, c as nat) is None,
        decreases ps.len() - c,
    {
        proof {
            lemma_view_types(ps@[c as int]@);
        }
        let mut d: usize = 0;
        while d < ps[c].len()
            invariant
                0 <= d <= ps@[c as int]@.len(),
                c < ps@.len(),
                pv == payload_views(ps@),
                pv[c as int].len() == ps@[c as int]@.len(),
                forall|k: int| 0 <= k < ps@[c as int]@.len() ==> #[trigger] pv[c as int][k] == ps@[c as int]@[k]@,
                forall|k: int| 0 <= k < d ==> pv[c as int][k] != TypeV::Named(symbol@),
                first_carrying(pv, symbol@, c as nat) is None,
            decreases ps[c as int]@.len() - d,
        {
            let holds = match &ps[c][d] {
                Type::Named(n) => *n == *symbol,
                _ => false,
            };
            if holds {
                proof {
                    assert(pv[c as int][d as int] == TypeV::Named(symbol@));
                    assert(pv[c as int].contains(TypeV::Named(symbol@)));
                    assert(first_carrying(pv, symbol@, (c + 1) as nat) == Some(c as int));
                    lemma_first_carrying_stands(pv, symbol@, (c + 1) as nat, pv.len());
                }
                return Some(c);
            }
            d = d + 1;
        }
        assert(!pv[c as int].contains(TypeV::Named(symbol@)));
        c = c + 1;
    }
    None
}

proof fn lemma_first_carrying_stands(ps: Seq<Seq<TypeV>>, symbol: Seq<char>, m: nat, n: nat)
    requires
        m <= n,
        first_carrying(ps, symbol, m) is Some,
    ensures
        first_carrying(ps, symbol, n) == first_carrying(ps, symbol, m),
    decreases n - m,
{
    if m < n {
        lemma_first_carrying_stands(ps, symbol, m, (n - 1) as nat);
    }
}

proof fn lemma_first_unlaid_stands(d: LayoutsV, ts: Seq<TypeV>, m: nat, n: nat)
    requires
        m <= n,
        first_unlaid(d, ts, m) is Some,
    ensures
        first_unlaid(d, ts, n) == first_unlaid(d, ts, m),
    decreases n - m,
{
    if m < n {
        lemma_first_unlaid_stands(d, ts, m, (n - 1) as nat);
    }
}

proof fn lemma_first_unlaid_variant_stands(d: LayoutsV, ps: Seq<Seq<TypeV>>, m: nat, n: nat)
    requires
        m <= n,
        first_unlaid_variant(d, ps, m) is Some,
    ensures
        first_unlaid_variant(d, ps, n) == first_unlaid_variant(d, ps, m),
    decreases n - m,
{
    if m < n {
        lemma_first_unlaid_variant_stands(d, ps, m, (n - 1) as nat);
    }
}

impl Expansion {
    /// The first payload type with no layout, by [`first_unlaid_variant`].
    fn first_unlaid_at(&self, ps: &Vec<Vec<Type>>) -> (r: Option<(usize, usize)>)
        ensures
            match first_unlaid_variant(self@.layouts, payload_views(ps@), ps@.len() as nat) {
                Some((a, b)) => r == Some((a as usize, b as usize)) && 0 <= a < ps@.len() && 0 <= b < ps@[a]@.len()
                    && payload_views(ps@)[a][b] == ps@[a]@[b]@,
                None => r is None,
            },
    {
        let ghost pv = payload_views(ps@);
        let ghost d = self@.layouts;
        let mut a: usize = 0;
        while a < ps.len()
            invariant
                0 <= a <= ps@.len(),
                pv == payload_views(ps@),
                d == self@.layouts,
                first_unlaid_variant(d, pv, a as nat) is None,
            decreases ps.len() - a,
        {
            proof {
                lemma_view_types(ps@[a as int]@);
            }
            let mut b: usize = 0;
            while b < ps[a].len()
                invariant
                    0 <= b <= ps@[a as int]@.len(),
                    a < ps@.len(),
                    pv == payload_views(ps@),
                    d == self@.layouts,
                    pv[a as int].len() == ps@[a as int]@.len(),
                    forall|k: int| 0 <= k < ps@[a as int]@.len() ==> #[trigger] pv[a as int][k] == ps@[a as int]@[k]@,
                    first_unlaid(d, pv[a as int], b as nat) is None,
                    first_unlaid_variant(d, pv, a as nat) is None,
                decreases ps[a as int]@.len() - b,
            {
                let laid = match &ps[a][b] {
                    Type::Int | Type::Bool | Type::String | Type::Decimal { .. } => true,
                    Type::Named(n) => !self.is_enum_name(n),
                    Type::Array { .. } | Type::Slice(_) => true,
                    _ => false,
                };
                if !laid {
                    proof {
                        assert(!laid_out(d, pv[a as int][b as int]));
                        assert(first_unlaid(d, pv[a as int], (b + 1) as nat) == Some(b as int));
                        lemma_first_unlaid_stands(d, pv[a as int], (b + 1) as nat, pv[a as int].len());
                        assert(first_unlaid_variant(d, pv, (a + 1) as nat) == Some((a as int, b as int)));
                        lemma_first_unlaid_variant_stands(d, pv, (a + 1) as nat, pv.len());
                    }
                    return Some((a, b));
                }
                b = b + 1;
            }
            a = a + 1;
        }
        None
    }
}

/// A refusal met among the first variants' payloads is the refusal of them all.
proof fn lemma_payloads_refused(s: ExpansionV, vs: Seq<(Seq<char>, Seq<TypeV>)>, k: int, m: Map<Seq<char>, TypeV>, fuel: nat)
    requires
        0 <= k <= vs.len(),
        payloads_expanded(s, vs.take(k), m, fuel).0 is Err,
    ensures
        payloads_expanded(s, vs, m, fuel) == payloads_expanded(s, vs.take(k), m, fuel),
    decreases vs.len() - k,
{
    if k < vs.len() {
        assert(vs.take(k + 1).drop_last() =~= vs.take(k));
        lemma_payloads_refused(s, vs, k + 1, m, fuel);
    } else {
        assert(vs.take(k) =~= vs);
    }
}

/// The indefinite article for a type: see [`article`].
pub(crate) fn article_of(t: &Type) -> (r: &'static str)
    ensures
        r@ == article(t@),
{
    let w = t.text();
    if w.unicode_len() > 0 {
        let c = w.get_char(0);
        if c == 'a' || c == 'e' || c == 'i' || c == 'o' || c == 'u' || c == 'A' || c == 'E' || c == 'I' || c == 'O' || c == 'U' {
            return "an";
        }
    }
    "a"
}

} // verus!
