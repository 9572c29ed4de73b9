//! Which types a program may write down, and which types satisfy a bound.
use vstd::prelude::*;
use crate::compare::Bound;
use crate::generics::{Instances, InstancesV, shown, show};
use crate::names::NameMap;
use crate::release::{listed, pair_listed, has_name, has_pair};
use crate::storage::{Layouts, LayoutsV};
use crate::text::same_text;
use crate::ty::{Type, TypeV, append, type_text};
use crate::ast::{Stmt, StmtKind};

verus! {

/// The package that declares a name it does not make `public`.
pub struct Owner {
    pub package: String,
}

impl View for Owner {
    type V = Seq<char>;

    open spec fn view(&self) -> Seq<char> {
        self.package@
    }
}

/// What the program's packages hide: each dependency's private names, by the package that owns
/// them, and the stretch of source each package's code occupies.
pub struct Packages {
    pub private: NameMap<Owner>,
    pub ranges: Vec<(usize, usize, String)>,
}

/// The package whose source holds position `at`: the first stretch that contains it, or `None`
/// for the root package.
pub open spec fn package_at(ranges: Seq<(usize, usize, String)>, at: usize) -> Option<Seq<char>>
    decreases ranges.len(),
{
    if ranges.len() == 0 {
        None
    } else if ranges[0].0 <= at && at <= ranges[0].1 {
        Some(ranges[0].2@)
    } else {
        package_at(ranges.skip(1), at)
    }
}

/// Which package the code at `at` is in: see [`package_at`].
pub fn package_here(packages: &Packages, at: usize) -> (r: Option<String>)
    ensures
        match r {
            Some(p) => package_at(packages.ranges@, at) == Some(p@),
            None => package_at(packages.ranges@, at) is None,
        },
{
    let s = &packages.ranges;
    assert(s@.skip(0) =~= s@);
    let mut i: usize = 0;
    while i < s.len()
        invariant
            0 <= i <= s@.len(),
            s@ == packages.ranges@,
            package_at(s@, at) == package_at(s@.skip(i as int), at),
        decreases s.len() - i,
    {
        proof {
            assert(s@.skip(i as int).skip(1) =~= s@.skip(i + 1));
            assert(s@.skip(i as int)[0] == s@[i as int]);
        }
        if s[i].0 <= at && at <= s[i].1 {
            return Some(s[i].2.clone());
        }
        i = i + 1;
    }
    None
}

/// The refusal of a dependency's private name used outside that dependency.
pub open spec fn private_text(name: Seq<char>, owner: Seq<char>) -> Seq<char> {
    "`"@ + name + "` is declared in the package `"@ + owner
        + "` but not `public`, so this package cannot reach it. A package exposes what it means to support — if `"@ + name
        + "` is meant to be part of that, the fix belongs in `"@ + owner + "`, by writing `public` in front of its declaration."@
}

/// The refusal of `name` at `at`, when a package declares it without `public` and the code at
/// `at` is not in that package.
pub open spec fn private_refusal(packages: Map<Seq<char>, Seq<char>>, ranges: Seq<(usize, usize, String)>, at: usize, name: Seq<char>) -> Option<Seq<char>> {
    if !packages.contains_key(name) {
        None
    } else if package_at(ranges, at) == Some(packages[name]) {
        None
    } else {
        Some(private_text(name, packages[name]))
    }
}

/// The refusal of a dependency's private name used outside it: see [`private_refusal`].
pub fn refuse_if_package_private(packages: &Packages, at: usize, name: &String) -> (r: Option<String>)
    ensures
        match r {
            Some(t) => private_refusal(packages.private@, packages.ranges@, at, name@) == Some(t@),
            None => private_refusal(packages.private@, packages.ranges@, at, name@) is None,
        },
{
    let owner = match packages.private.get(name) {
        Some(o) => o,
        None => return None,
    };
    match package_here(packages, at) {
        Some(here) => {
            if here == owner.package {
                return None;
            }
        },
        None => {},
    }
    let mut out = String::new();
    append(&mut out, "`");
    append(&mut out, name.as_str());
    append(&mut out, "` is declared in the package `");
    append(&mut out, owner.package.as_str());
    append(&mut out, "` but not `public`, so this package cannot reach it. A package exposes what it means to support — if `");
    append(&mut out, name.as_str());
    append(&mut out, "` is meant to be part of that, the fix belongs in `");
    append(&mut out, owner.package.as_str());
    append(&mut out, "`, by writing `public` in front of its declaration.");
    assert(out@ =~= private_text(name@, owner.package@));
    Some(out)
}

/// The declarations a written type is checked against: the classes and enums (and the
/// instantiations made so far), and the interfaces by name.
pub struct TypeNames {
    pub layouts: Layouts,
    pub interfaces: Vec<String>,
}

/// Whether `name` is a class or an instantiation of a generic one.
pub open spec fn is_record(d: LayoutsV, name: Seq<char>) -> bool {
    d.records.contains_key(name) || d.made_records.contains_key(name)
}

/// Whether `name` is an enum or an instantiation of a generic one.
pub open spec fn is_enum(d: LayoutsV, name: Seq<char>) -> bool {
    d.enums.contains_key(name)
}

/// The refusal of a C-boundary type used in Burxt code.
pub open spec fn boundary_text(shown_type: Seq<char>) -> Seq<char> {
    shown_type + " only exists at the C boundary (external function signatures) — use Int in Burxt code; values convert at the call."@
}

/// Whether a type a program writes down is one it may write: every name declared (and not a
/// dependency's private one), no C-boundary type, and no array inside an array or interface
/// object inside an array. `Ok` carries the interfaces used as `dynamic`, in the order met.
pub open spec fn type_validity(
    names: TypeNames,
    packages: Packages,
    at: usize,
    t: TypeV,
) -> Result<Seq<Seq<char>>, Seq<char>>
    decreases t,
{
    let named = match t {
        TypeV::Named(n) => Some(n),
        TypeV::Dyn(n) => Some(n),
        TypeV::Generic { name, .. } => Some(name),
        _ => None,
    };
    let refusal = match named {
        Some(n) => private_refusal(packages.private@, packages.ranges@, at, n),
        None => None,
    };
    if refusal is Some {
        Err(refusal->Some_0)
    } else {
        match t {
            TypeV::Dyn(n) => if listed(names.interfaces@, n) {
                Ok(seq![n])
            } else {
                Err("unknown interface `"@ + n + "` — declare it with `interface "@ + n + " { ... }`"@)
            },
            TypeV::Named(n) => if !is_record(names.layouts@, n) && !is_enum(names.layouts@, n) {
                Err("unknown type `"@ + n + "` — declare it with `class "@ + n + " { ... }` or `enum "@ + n + " { ... }`"@)
            } else {
                Ok(Seq::empty())
            },
            TypeV::CInt => Err(boundary_text("CInt"@)),
            TypeV::Width { .. } => Err(boundary_text("`"@ + type_text(t) + "`"@)),
            TypeV::Slice(elem) => match *elem {
                TypeV::Slice(_) => Err("a growable array cannot hold another array yet — its element would need its own region reasoning. Use a class element."@),
                TypeV::Array { .. } => Err("a growable array cannot hold another array yet — its element would need its own region reasoning. Use a class element."@),
                TypeV::Dyn(n) => Err("a growable array cannot hold `dynamic "@ + n + "` yet — region-allocated interface objects arrive in a later slice."@),
                TypeV::CInt => Err("CInt only exists at the C boundary — use Int for elements"@),
                _ => type_validity(names, packages, at, *elem),
            },
            TypeV::Array { elem, .. } => match *elem {
                TypeV::Array { .. } => Err("arrays of arrays are not available yet — `a[i][j]` cannot be written, since indexing applies to a binding rather than an expression. Use one array of a class instead."@),
                TypeV::Dyn(n) => Err("an array cannot hold `dynamic "@ + n + "` — an interface object borrows the value it refers to, and storing borrows needs tracking Burxt does not have yet."@),
                TypeV::CInt => Err("CInt only exists at the C boundary — use Int for array elements"@),
                _ => type_validity(names, packages, at, *elem),
            },
            _ => Ok(Seq::empty()),
        }
    }
}

/// Checks a type a program writes down: see [`type_validity`]. An interface used as `dynamic` is
/// added to `dyn_interfaces`, which then lists it.
pub fn validate_type(
    names: &TypeNames,
    packages: &Packages,
    at: usize,
    dyn_interfaces: &mut Vec<String>,
    ty: &Type,
) -> (r: Result<(), String>)
    ensures
        match r {
            Ok(()) => type_validity(*names, *packages, at, ty@) matches Ok(used)
                && forall|n: Seq<char>| #[trigger] listed(final(dyn_interfaces)@, n) == (listed(old(dyn_interfaces)@, n) || used.contains(n)),
            Err(e) => type_validity(*names, *packages, at, ty@) == Err::<Seq<Seq<char>>, Seq<char>>(e@),
        },
    decreases ty,
{
    let named: Option<&String> = match ty {
        Type::Named(n) => Some(n),
        Type::Dyn(n) => Some(n),
        Type::Generic { name, .. } => Some(name),
        _ => None,
    };
    match named {
        Some(n) => match refuse_if_package_private(packages, at, n) {
            Some(why) => return Err(why),
            None => {},
        },
        None => {},
    }
    match ty {
        Type::Dyn(n) => {
            if !has_name(&names.interfaces, n) {
                let mut out = String::new();
                append(&mut out, "unknown interface `");
                append(&mut out, n.as_str());
                append(&mut out, "` — declare it with `interface ");
                append(&mut out, n.as_str());
                append(&mut out, " { ... }`");
                assert(out@ =~= "unknown interface `"@ + n@ + "` — declare it with `interface "@ + n@ + " { ... }`"@);
                return Err(out);
            }
            let ghost before = dyn_interfaces@;
            dyn_interfaces.push(n.clone());
            proof {
                assert forall|m: Seq<char>| #[trigger] listed(dyn_interfaces@, m) == (listed(before, m) || seq![n@].contains(m)) by {
                    if listed(before, m) {
                        let i = choose|i: int| 0 <= i < before.len() && (#[trigger] before[i])@ == m;
                        assert(dyn_interfaces@[i] == before[i]);
                    }
                    if seq![n@].contains(m) {
                        assert(seq![n@][0] == m);
                        assert(dyn_interfaces@[before.len() as int]@ == m);
                    }
                    if listed(dyn_interfaces@, m) {
                        let i = choose|i: int| 0 <= i < dyn_interfaces@.len() && (#[trigger] dyn_interfaces@[i])@ == m;
                        if i < before.len() {
                            assert(before[i] == dyn_interfaces@[i]);
                        } else {
                            assert(seq![n@][0] == m);
                        }
                    }
                }
            }
            Ok(())
        },
        Type::Named(n) => {
            let known = match names.layouts.records.get(n) {
                Some(_) => true,
                None => match names.layouts.made_records.get(n) {
                    Some(_) => true,
                    None => match names.layouts.enums.get(n) {
                        Some(_) => true,
                        None => false,
                    },
                },
            };
            if !known {
                let mut out = String::new();
                append(&mut out, "unknown type `");
                append(&mut out, n.as_str());
                append(&mut out, "` — declare it with `class ");
                append(&mut out, n.as_str());
                append(&mut out, " { ... }` or `enum ");
                append(&mut out, n.as_str());
                append(&mut out, " { ... }`");
                assert(out@ =~= "unknown type `"@ + n@ + "` — declare it with `class "@ + n@ + " { ... }` or `enum "@ + n@ + " { ... }`"@);
                return Err(out);
            }
            proof {
                assert forall|m: Seq<char>| #[trigger] listed(dyn_interfaces@, m) == (listed(old(dyn_interfaces)@, m) || Seq::<Seq<char>>::empty().contains(m)) by {}
            }
            Ok(())
        },
        Type::CInt => {
            let mut out = String::new();
            append(&mut out, "CInt");
            append(&mut out, " only exists at the C boundary (external function signatures) — use Int in Burxt code; values convert at the call.");
            assert(out@ =~= boundary_text("CInt"@));
            Err(out)
        },
        Type::Width { .. } => {
            let mut out = String::new();
            append(&mut out, "`");
            ty.write_text(&mut out);
            append(&mut out, "`");
            append(&mut out, " only exists at the C boundary (external function signatures) — use Int in Burxt code; values convert at the call.");
            assert(out@ =~= boundary_text("`"@ + type_text(ty@) + "`"@));
            Err(out)
        },
        Type::Slice(elem) => match &**elem {
            Type::Slice(_) | Type::Array { .. } => {
                Err(String::from_str("a growable array cannot hold another array yet — its element would need its own region reasoning. Use a class element."))
            },
            Type::Dyn(t) => {
                let mut out = String::new();
                append(&mut out, "a growable array cannot hold `dynamic ");
                append(&mut out, t.as_str());
                append(&mut out, "` yet — region-allocated interface objects arrive in a later slice.");
                Err(out)
            },
            Type::CInt => Err(String::from_str("CInt only exists at the C boundary — use Int for elements")),
            other => validate_type(names, packages, at, dyn_interfaces, other),
        },
        Type::Array { elem, .. } => match &**elem {
            Type::Array { .. } => {
                Err(String::from_str("arrays of arrays are not available yet — `a[i][j]` cannot be written, since indexing applies to a binding rather than an expression. Use one array of a class instead."))
            },
            Type::Dyn(t) => {
                let mut out = String::new();
                append(&mut out, "an array cannot hold `dynamic ");
                append(&mut out, t.as_str());
                append(&mut out, "` — an interface object borrows the value it refers to, and storing borrows needs tracking Burxt does not have yet.");
                Err(out)
            },
            Type::CInt => Err(String::from_str("CInt only exists at the C boundary — use Int for array elements")),
            other => validate_type(names, packages, at, dyn_interfaces, other),
        },
        _ => {
            proof {
                assert forall|m: Seq<char>| #[trigger] listed(dyn_interfaces@, m) == (listed(old(dyn_interfaces)@, m) || Seq::<Seq<char>>::empty().contains(m)) by {}
            }
            Ok(())
        },
    }
}

/// What a bound is checked against: the bounds of the type parameters in scope, the interfaces
/// by name, which class implements which interface (interface first), and the instantiations, to
/// show a type the way its author wrote it.
pub struct BoundFacts {
    pub param_bounds: NameMap<Bound>,
    pub interfaces: Vec<String>,
    pub impls: Vec<(String, String)>,
    pub instances: Instances,
}

/// Whether `argument` satisfies `bound` where `callee` needs `param: bound`, or the refusal. A
/// type parameter satisfies it when its own declaration carries that bound; `Ordered` is Int,
/// Decimal and String; `Equatable` is Int, Bool, String and Decimal; an interface is satisfied by
/// a class or enum declared to implement it.
pub open spec fn satisfied(
    f: BoundFacts,
    argument: TypeV,
    bound: Seq<char>,
    callee: Seq<char>,
    param: Seq<char>,
) -> Result<(), Seq<char>> {
    let shown_arg = shown(argument, f.instances@, f.instances.count());
    match argument {
        TypeV::Param(n) => if f.param_bounds@.contains_key(n) && f.param_bounds@[n] == Some(bound) {
            Ok(())
        } else {
            Err("`"@ + callee + "` needs `"@ + param + ": "@ + bound + "`, and the type parameter `"@ + n
                + "` carries no such bound. Write `"@ + n + ": "@ + bound + "` where it is declared, so the promise travels with it."@)
        },
        _ => if bound == "Ordered"@ {
            match argument {
                TypeV::Int | TypeV::Decimal { .. } | TypeV::String => Ok(()),
                _ => Err("`"@ + callee + "` needs `"@ + param + ": Ordered`, and "@ + shown_arg
                    + " has no order. Ordered is Int, Decimal and String — the types `<` works on."@),
            }
        } else if bound == "Equatable"@ {
            match argument {
                TypeV::Int | TypeV::Bool | TypeV::String | TypeV::Decimal { .. } => Ok(()),
                _ => Err("`"@ + callee + "` needs `"@ + param + ": Equatable`, and two "@ + shown_arg
                    + " values cannot be compared. Equatable is Int, Bool, String and Decimal — the types `==` works on."@),
            }
        } else if !listed(f.interfaces@, bound) {
            Err("`"@ + callee + "` bounds `"@ + param + "` by `"@ + bound
                + "`, which is not an interface this program declares. A bound is `Ordered`, `Equatable`, or a declared interface."@)
        } else {
            match argument {
                TypeV::Named(concrete) => if pair_listed(f.impls@, bound, concrete) {
                    Ok(())
                } else {
                    Err("`"@ + callee + "` needs `"@ + param + ": "@ + bound + "`, and `"@ + shown_arg
                        + "` does not implement it. Write `implement "@ + bound + " for "@ + concrete
                        + " { ... }` — conformance is declared, never inferred from having the right method names."@)
                },
                _ => Err("`"@ + callee + "` needs `"@ + param + ": "@ + bound + "`, and "@ + shown_arg
                    + " is not a type that can implement an interface — only a class or an enum can."@),
            }
        },
    }
}

/// Whether a type argument satisfies a bound: see [`satisfied`].
pub fn satisfies(facts: &BoundFacts, argument: &Type, bound: &String, callee: &String, param: &String) -> (r: Result<(), String>)
    ensures
        match r {
            Ok(()) => satisfied(*facts, argument@, bound@, callee@, param@) is Ok,
            Err(e) => satisfied(*facts, argument@, bound@, callee@, param@) == Err::<(), Seq<char>>(e@),
        },
{
    proof {
        crate::ty::lemma_view_variant(*argument);
    }
    let shown_arg = show(argument, &facts.instances);
    if let Type::Param(n) = argument {
        let carried = match facts.param_bounds.get(n) {
            Some(b) => match &b.bound {
                Some(x) => *x == *bound,
                None => false,
            },
            None => false,
        };
        if carried {
            return Ok(());
        }
        let mut out = String::new();
        append(&mut out, "`");
        append(&mut out, callee.as_str());
        append(&mut out, "` needs `");
        append(&mut out, param.as_str());
        append(&mut out, ": ");
        append(&mut out, bound.as_str());
        append(&mut out, "`, and the type parameter `");
        append(&mut out, n.as_str());
        append(&mut out, "` carries no such bound. Write `");
        append(&mut out, n.as_str());
        append(&mut out, ": ");
        append(&mut out, bound.as_str());
        append(&mut out, "` where it is declared, so the promise travels with it.");
        assert(out@ =~= "`"@ + callee@ + "` needs `"@ + param@ + ": "@ + bound@ + "`, and the type parameter `"@ + n@
            + "` carries no such bound. Write `"@ + n@ + ": "@ + bound@ + "` where it is declared, so the promise travels with it."@);
        return Err(out);
    }
    if same_text(bound.as_str(), "Ordered") {
        return match argument {
            Type::Int | Type::Decimal { .. } | Type::String => Ok(()),
            _ => {
                let mut out = String::new();
                append(&mut out, "`");
                append(&mut out, callee.as_str());
                append(&mut out, "` needs `");
                append(&mut out, param.as_str());
                append(&mut out, ": Ordered`, and ");
                append(&mut out, shown_arg.as_str());
                append(&mut out, " has no order. Ordered is Int, Decimal and String — the types `<` works on.");
                assert(out@ =~= "`"@ + callee@ + "` needs `"@ + param@ + ": Ordered`, and "@ + shown_arg@
                    + " has no order. Ordered is Int, Decimal and String — the types `<` works on."@);
                Err(out)
            },
        };
    }
    if same_text(bound.as_str(), "Equatable") {
        return match argument {
            Type::Int | Type::Bool | Type::String | Type::Decimal { .. } => Ok(()),
            _ => {
                let mut out = String::new();
                append(&mut out, "`");
                append(&mut out, callee.as_str());
                append(&mut out, "` needs `");
                append(&mut out, param.as_str());
                append(&mut out, ": Equatable`, and two ");
                append(&mut out, shown_arg.as_str());
                append(&mut out, " values cannot be compared. Equatable is Int, Bool, String and Decimal — the types `==` works on.");
                assert(out@ =~= "`"@ + callee@ + "` needs `"@ + param@ + ": Equatable`, and two "@ + shown_arg@
                    + " values cannot be compared. Equatable is Int, Bool, String and Decimal — the types `==` works on."@);
                Err(out)
            },
        };
    }
    if !has_name(&facts.interfaces, bound) {
        let mut out = String::new();
        append(&mut out, "`");
        append(&mut out, callee.as_str());
        append(&mut out, "` bounds `");
        append(&mut out, param.as_str());
        append(&mut out, "` by `");
        append(&mut out, bound.as_str());
        append(&mut out, "`, which is not an interface this program declares. A bound is `Ordered`, `Equatable`, or a declared interface.");
        assert(out@ =~= "`"@ + callee@ + "` bounds `"@ + param@ + "` by `"@ + bound@
            + "`, which is not an interface this program declares. A bound is `Ordered`, `Equatable`, or a declared interface."@);
        return Err(out);
    }
    let concrete = match argument {
        Type::Named(n) => n,
        _ => {
            let mut out = String::new();
            append(&mut out, "`");
            append(&mut out, callee.as_str());
            append(&mut out, "` needs `");
            append(&mut out, param.as_str());
            append(&mut out, ": ");
            append(&mut out, bound.as_str());
            append(&mut out, "`, and ");
            append(&mut out, shown_arg.as_str());
            append(&mut out, " is not a type that can implement an interface — only a class or an enum can.");
            assert(out@ =~= "`"@ + callee@ + "` needs `"@ + param@ + ": "@ + bound@ + "`, and "@ + shown_arg@
                + " is not a type that can implement an interface — only a class or an enum can."@);
            return Err(out);
        },
    };
    if has_pair(&facts.impls, bound, concrete) {
        return Ok(());
    }
    let mut out = String::new();
    append(&mut out, "`");
    append(&mut out, callee.as_str());
    append(&mut out, "` needs `");
    append(&mut out, param.as_str());
    append(&mut out, ": ");
    append(&mut out, bound.as_str());
    append(&mut out, "`, and `");
    append(&mut out, shown_arg.as_str());
    append(&mut out, "` does not implement it. Write `implement ");
    append(&mut out, bound.as_str());
    append(&mut out, " for ");
    append(&mut out, concrete.as_str());
    append(&mut out, " { ... }` — conformance is declared, never inferred from having the right method names.");
    assert(out@ =~= "`"@ + callee@ + "` needs `"@ + param@ + ": "@ + bound@ + "`, and `"@ + shown_arg@
        + "` does not implement it. Write `implement "@ + bound@ + " for "@ + concrete@
        + " { ... }` — conformance is declared, never inferred from having the right method names."@);
    Err(out)
}

/// The binding a statement that failed to check still leaves behind: a `let` that declared a
/// valid type binds its name to that type (with its `mutable` flag), unless the name is bound
/// already; nothing else binds anything.
pub open spec fn recovered(
    names: TypeNames,
    packages: Packages,
    at: usize,
    env: Map<Seq<char>, (TypeV, bool)>,
    s: Stmt,
) -> Map<Seq<char>, (TypeV, bool)> {
    match s.kind {
        StmtKind::Let { name, mutable, declared: Some(d), .. } =>
            if type_validity(names, packages, at, d@) is Ok && !env.contains_key(name@) {
                env.insert(name@, (d@, mutable))
            } else {
                env
            },
        _ => env,
    }
}

/// After statement `s` failed to check, binds what it can still be trusted to bind, so that the
/// statements after it are checked against the names they expect: see [`recovered`]. A declared
/// type that is valid adds the interfaces it uses to `dyn_interfaces`, as checking it always does.
pub fn recover_from(
    names: &TypeNames,
    packages: &Packages,
    at: usize,
    dyn_interfaces: &mut Vec<String>,
    env: &mut NameMap<(Type, bool)>,
    s: &Stmt,
)
    ensures
        final(env)@ == recovered(*names, *packages, at, old(env)@, *s),
        s.kind matches StmtKind::Let { declared: Some(d), .. } ==> (type_validity(*names, *packages, at, d@) matches Ok(used)
            ==> forall|n: Seq<char>| #[trigger] listed(final(dyn_interfaces)@, n) == (listed(old(dyn_interfaces)@, n) || used.contains(n))),
        !(s.kind matches StmtKind::Let { declared: Some(_), .. }) ==> final(dyn_interfaces)@ == old(dyn_interfaces)@,
{
    match &s.kind {
        StmtKind::Let { name, mutable, declared: Some(declared), .. } => {
            if validate_type(names, packages, at, dyn_interfaces, declared).is_ok() && env.get(name).is_none() {
                env.insert(name.clone(), (declared.duplicate(), *mutable));
            }
        },
        _ => {},
    }
}

} // verus!
