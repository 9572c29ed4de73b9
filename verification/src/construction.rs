//! Building a class value from a literal: `Name { field: value, ... }`.
use vstd::prelude::*;
use crate::allocation::shown_type_name;
use crate::arith::{storable, storable_spec};
use crate::compare::view_fields;
use crate::generics::{Instances, InstancesV, show, shown};
use crate::expansion::{Expansion, expanded};
use crate::members::types_of;
use crate::messages::{field_list, field_list_text, is_tuple_symbol};
use crate::names::NameMap;
use crate::release::{has_name, listed};
use crate::storage::{Layouts, LayoutsV, fields_of, fields_of_name};
use crate::ty::{Type, TypeV, append, duplicate_list, lemma_view_types, type_text, view_types};
use crate::typed::{TypedExpr, TypedExprKind};

verus! {

/// The class a literal's fields are read under: the instantiation its type names, or a generic
/// class by its own name while that generic's body is checked.
pub open spec fn literal_class(written: Seq<char>, lit: TypeV) -> Result<Seq<char>, Seq<char>> {
    match lit {
        TypeV::Named(s) => Ok(s),
        TypeV::Generic { name, .. } => Ok(name),
        other => Err("codegen bug: `"@ + written + "` instantiated to "@ + type_text(other)),
    }
}

/// The first of the first `n` given fields that `hidden` lists.
pub open spec fn private_given(given: Seq<String>, hidden: Seq<String>, n: nat) -> Option<int>
    decreases n,
{
    if n == 0 {
        None
    } else {
        match private_given(given, hidden, (n - 1) as nat) {
            Some(k) => Some(k),
            None => if listed(hidden, given[n - 1]@) { Some(n - 1) } else { None },
        }
    }
}

/// Whether a class declares a field named `g`.
pub open spec fn declares(fs: Seq<(Seq<char>, TypeV)>, g: Seq<char>) -> bool {
    exists|i: int| 0 <= i < fs.len() && #[trigger] fs[i].0 == g
}

/// How many of the first `n` given fields are named `g`.
pub open spec fn occurrences(given: Seq<String>, g: Seq<char>, n: nat) -> nat
    decreases n,
{
    if n == 0 {
        0
    } else {
        occurrences(given, g, (n - 1) as nat) + if given[n - 1]@ == g { 1nat } else { 0nat }
    }
}

/// The refusal of the first of the first `n` given fields that the class does not declare, or
/// that is given more than once.
pub open spec fn given_refusal(
    d: LayoutsV,
    inst: InstancesV,
    depth: nat,
    name: Seq<char>,
    fs: Seq<(Seq<char>, TypeV)>,
    given: Seq<String>,
    n: nat,
) -> Option<Seq<char>>
    decreases n,
{
    if n == 0 {
        None
    } else {
        match given_refusal(d, inst, depth, name, fs, given, (n - 1) as nat) {
            Some(m) => Some(m),
            None => {
                let g = given[n - 1]@;
                if !declares(fs, g) {
                    Some("`"@ + shown(TypeV::Named(name), inst, depth) + "` has no field named `"@ + g + "`. Its fields are: "@
                        + field_list_text(d, inst, depth, name) + "."@)
                } else if occurrences(given, g, given.len()) > 1 {
                    Some("in `"@ + shown(TypeV::Named(name), inst, depth) + " { ... }`, the field `"@ + g + "` is given twice"@)
                } else {
                    None
                }
            },
        }
    }
}

/// The first given field named `f`.
pub open spec fn first_given(given: Seq<String>, f: Seq<char>) -> Option<int> {
    if exists|j: int| 0 <= j < given.len() && #[trigger] given[j]@ == f {
        Some(choose|j: int| 0 <= j < given.len() && #[trigger] given[j]@ == f && forall|k: int| 0 <= k < j ==> #[trigger] given[k]@ != f)
    } else {
        None
    }
}

/// The refusal of a literal of class `name` that does not give field `fname` of type `fty`.
pub open spec fn missing_field_text(name: Seq<char>, fname: Seq<char>, fty: TypeV) -> Seq<char> {
    "`"@ + name + " { ... }` is missing the field `"@ + fname + ": "@ + type_text(fty)
        + "`. Every field must be given a value — Burxt does not invent defaults."@
}

/// The refusal of a value of type `have` given for field `fname` of type `fty`.
pub open spec fn field_value_text(inst: InstancesV, depth: nat, name: Seq<char>, fname: Seq<char>, fty: TypeV, have: TypeV) -> Seq<char> {
    "in `"@ + shown(TypeV::Named(name), inst, depth) + " { ... }`, the field `"@ + fname + "` must be "@
        + shown(fty, inst, depth) + ", but its value has type "@ + shown(have, inst, depth)
}

fn missing_field(name: &String, fname: &String, fty: &Type) -> (r: String)
    ensures
        r@ == missing_field_text(name@, fname@, fty@),
{
    let mut out = String::new();
    append(&mut out, "`");
    append(&mut out, name.as_str());
    append(&mut out, " { ... }` is missing the field `");
    append(&mut out, fname.as_str());
    append(&mut out, ": ");
    fty.write_text(&mut out);
    append(&mut out, "`. Every field must be given a value — Burxt does not invent defaults.");
    assert(out@ =~= missing_field_text(name@, fname@, fty@));
    out
}

fn field_value(instances: &Instances, name: &String, fname: &String, fty: &Type, have: &Type) -> (r: String)
    ensures
        r@ == field_value_text(instances@, instances.count(), name@, fname@, fty@, have@),
{
    let mut out = String::new();
    append(&mut out, "in `");
    let shown_name = shown_type_name(name, instances);
    append(&mut out, shown_name.as_str());
    append(&mut out, " { ... }`, the field `");
    append(&mut out, fname.as_str());
    append(&mut out, "` must be ");
    let want = show(fty, instances);
    append(&mut out, want.as_str());
    append(&mut out, ", but its value has type ");
    let shown_have = show(have, instances);
    append(&mut out, shown_have.as_str());
    assert(out@ =~= field_value_text(instances@, instances.count(), name@, fname@, fty@, have@));
    out
}

/// The values of the first `n` declared fields, in declaration order, `values` holding for each
/// declared field the outcome of checking the value given for it; or the refusal of the first
/// declared field that is not given, whose value failed to check, or whose value cannot be stored
/// in it.
pub open spec fn typed_fields(
    inst: InstancesV,
    depth: nat,
    name: Seq<char>,
    fs: Seq<(Seq<char>, TypeV)>,
    given: Seq<String>,
    values: Seq<Result<TypedExpr, String>>,
    n: nat,
) -> Result<Seq<TypedExpr>, Seq<char>>
    decreases n,
{
    if n == 0 {
        Ok(Seq::empty())
    } else {
        match typed_fields(inst, depth, name, fs, given, values, (n - 1) as nat) {
            Err(m) => Err(m),
            Ok(ts) => {
                let fname = fs[n - 1].0;
                let fty = fs[n - 1].1;
                match first_given(given, fname) {
                    None => Err(missing_field_text(name, fname, fty)),
                    Some(_) => match values[n - 1] {
                        Err(m) => Err(m@),
                        Ok(t) => if !storable_spec(t.ty@, fty) {
                            Err(field_value_text(inst, depth, name, fname, fty, t.ty@))
                        } else {
                            Ok(ts.push(t))
                        },
                    },
                }
            },
        }
    }
}

/// The refusal of a literal that sets private field `field` of class `name` from outside it.
pub open spec fn private_literal_text(name: Seq<char>, field: Seq<char>) -> Seq<char> {
    "`"@ + name + "."@ + field + "` is private, so `"@ + name + "` cannot be built here: a literal may set a private field only inside `"@
        + name + "`. Give the class a constructor — `function open(...) -> "@ + name + "` in its body, called as `"@ + name
        + ".open(...)` — which is the point of making the field private."@
}

/// What `written { given... }` builds, its type already worked out as `lit`: the class the
/// fields are read under and the field values in declaration order; or the refusal.
pub open spec fn struct_rule(
    d: LayoutsV,
    inst: InstancesV,
    depth: nat,
    private: Map<Seq<char>, Seq<String>>,
    receiver: Option<Seq<char>>,
    written: Seq<char>,
    lit: TypeV,
    given: Seq<String>,
    values: Seq<Result<TypedExpr, String>>,
) -> Result<(Seq<char>, Seq<TypedExpr>), Seq<char>> {
    match literal_class(written, lit) {
        Err(m) => Err(m),
        Ok(name) => match fields_of(d, name) {
            None => Err("unknown type `"@ + name + "` — declare it with `class "@ + name + " { ... }`"@),
            Some(fs) => {
                let hidden = if receiver != Some(name) && private.contains_key(name) {
                    private_given(given, private[name], given.len())
                } else {
                    None
                };
                match hidden {
                    Some(k) => Err(private_literal_text(name, given[k]@)),
                    None => match given_refusal(d, inst, depth, name, fs, given, given.len()) {
                        Some(m) => Err(m),
                        None => match typed_fields(inst, depth, name, fs, given, values, fs.len()) {
                            Ok(ts) => Ok((name, ts)),
                            Err(m) => Err(m),
                        },
                    },
                }
            },
        },
    }
}

proof fn lemma_private_bounds(given: Seq<String>, hidden: Seq<String>, n: nat)
    ensures
        private_given(given, hidden, n) matches Some(k) ==> 0 <= k < n,
    decreases n,
{
    if n > 0 {
        lemma_private_bounds(given, hidden, (n - 1) as nat);
    }
}

fn first_private(given: &Vec<String>, hidden: &Vec<String>) -> (r: Option<usize>)
    ensures
        match private_given(given@, hidden@, given@.len()) {
            Some(k) => r matches Some(j) && j as int == k,
            None => r is None,
        },
        r matches Some(k) ==> k < given@.len(),
        private_given(given@, hidden@, given@.len()) matches Some(k) ==> 0 <= k < given@.len(),
{
    proof {
        lemma_private_bounds(given@, hidden@, given@.len());
    }
    let mut i: usize = 0;
    while i < given.len()
        invariant
            0 <= i <= given@.len(),
            private_given(given@, hidden@, i as nat) is None,
        decreases given.len() - i,
    {
        if has_name(hidden, &given[i]) {
            proof {
                lemma_private_found(given@, hidden@, (i + 1) as nat);
                lemma_private_bounds(given@, hidden@, given@.len());
            }
            return Some(i);
        }
        i = i + 1;
    }
    None
}

proof fn lemma_private_found(given: Seq<String>, hidden: Seq<String>, n: nat)
    requires
        0 < n <= given.len(),
        private_given(given, hidden, (n - 1) as nat) is None,
        listed(hidden, given[n - 1]@),
    ensures
        private_given(given, hidden, given.len()) == Some(n - 1),
    decreases given.len() - n,
{
    if n < given.len() {
        lemma_private_stays(given, hidden, n, given.len());
    }
}

proof fn lemma_private_stays(given: Seq<String>, hidden: Seq<String>, n: nat, m: nat)
    requires
        n <= m <= given.len(),
        private_given(given, hidden, n) is Some,
    ensures
        private_given(given, hidden, m) == private_given(given, hidden, n),
    decreases m - n,
{
    if m > n {
        lemma_private_stays(given, hidden, n, (m - 1) as nat);
    }
}

fn count_given(given: &Vec<String>, g: &String) -> (r: usize)
    ensures
        r == occurrences(given@, g@, given@.len()),
{
    let mut i: usize = 0;
    let mut c: usize = 0;
    while i < given.len()
        invariant
            0 <= i <= given@.len(),
            c == occurrences(given@, g@, i as nat),
            c <= i,
        decreases given.len() - i,
    {
        if given[i] == *g {
            c = c + 1;
        }
        i = i + 1;
    }
    c
}

fn has_field(fields: &Vec<(String, Type)>, g: &String) -> (r: bool)
    ensures
        r == declares(view_fields(fields@), g@),
{
    let ghost fs = view_fields(fields@);
    let mut i: usize = 0;
    while i < fields.len()
        invariant
            0 <= i <= fields@.len(),
            fs == view_fields(fields@),
            forall|j: int| 0 <= j < i ==> #[trigger] fs[j].0 != g@,
        decreases fields.len() - i,
    {
        if fields[i].0 == *g {
            assert(fs[i as int].0 == g@);
            return true;
        }
        i = i + 1;
    }
    false
}

proof fn lemma_refusal_stays(
    d: LayoutsV,
    inst: InstancesV,
    depth: nat,
    name: Seq<char>,
    fs: Seq<(Seq<char>, TypeV)>,
    given: Seq<String>,
    n: nat,
    m: nat,
)
    requires
        n <= m,
        given_refusal(d, inst, depth, name, fs, given, n) is Some,
    ensures
        given_refusal(d, inst, depth, name, fs, given, m) == given_refusal(d, inst, depth, name, fs, given, n),
    decreases m - n,
{
    if m > n {
        lemma_refusal_stays(d, inst, depth, name, fs, given, n, (m - 1) as nat);
    }
}

proof fn lemma_typed_stays(
    inst: InstancesV,
    depth: nat,
    name: Seq<char>,
    fs: Seq<(Seq<char>, TypeV)>,
    given: Seq<String>,
    values: Seq<Result<TypedExpr, String>>,
    n: nat,
    m: nat,
)
    requires
        n <= m,
        typed_fields(inst, depth, name, fs, given, values, n) is Err,
    ensures
        typed_fields(inst, depth, name, fs, given, values, m) == typed_fields(inst, depth, name, fs, given, values, n),
    decreases m - n,
{
    if m > n {
        lemma_typed_stays(inst, depth, name, fs, given, values, n, (m - 1) as nat);
    }
}

fn private_refusal(private: &NameMap<Vec<String>>, receiver: &Option<String>, name: &String, given: &Vec<String>) -> (r: Option<String>)
    ensures
        match (if match receiver { Some(c) => Some(c@), None => None::<Seq<char>> } != Some(name@) && private@.contains_key(name@) {
            private_given(given@, private@[name@], given@.len())
        } else {
            None
        }) {
            Some(k) => r matches Some(m) && m@ == private_literal_text(name@, given@[k]@),
            None => r is None,
        },
{
    let inside = match receiver {
        Some(c) => *c == *name,
        None => false,
    };
    if inside {
        return None;
    }
    let hidden = match private.get(name) {
        Some(h) => h,
        None => return None,
    };
    let k = match first_private(given, hidden) {
        Some(k) => k,
        None => return None,
    };
    let mut out = String::new();
    append(&mut out, "`");
    append(&mut out, name.as_str());
    append(&mut out, ".");
    append(&mut out, given[k].as_str());
    append(&mut out, "` is private, so `");
    append(&mut out, name.as_str());
    append(&mut out, "` cannot be built here: a literal may set a private field only inside `");
    append(&mut out, name.as_str());
    append(&mut out, "`. Give the class a constructor — `function open(...) -> ");
    append(&mut out, name.as_str());
    append(&mut out, "` in its body, called as `");
    append(&mut out, name.as_str());
    append(&mut out, ".open(...)` — which is the point of making the field private.");
    assert(out@ =~= private_literal_text(name@, given@[k as int]@));
    Some(out)
}

fn given_check(layouts: &Layouts, instances: &Instances, name: &String, declared: &Vec<(String, Type)>, given: &Vec<String>)
    -> (r: Option<String>)
    ensures
        match given_refusal(layouts@, instances@, instances.count(), name@, view_fields(declared@), given@, given@.len()) {
            Some(m) => r matches Some(e) && e@ == m,
            None => r is None,
        },
{
    let ghost fs = view_fields(declared@);
    let mut i: usize = 0;
    while i < given.len()
        invariant
            0 <= i <= given@.len(),
            fs == view_fields(declared@),
            given_refusal(layouts@, instances@, instances.count(), name@, fs, given@, i as nat) is None,
        decreases given.len() - i,
    {
        let g = &given[i];
        if !has_field(declared, g) {
            let mut out = String::new();
            append(&mut out, "`");
            let shown_name = shown_type_name(name, instances);
            append(&mut out, shown_name.as_str());
            append(&mut out, "` has no field named `");
            append(&mut out, g.as_str());
            append(&mut out, "`. Its fields are: ");
            let list = field_list(layouts, instances, name);
            append(&mut out, list.as_str());
            append(&mut out, ".");
            proof {
                lemma_refusal_stays(layouts@, instances@, instances.count(), name@, fs, given@, (i + 1) as nat, given@.len());
            }
            return Some(out);
        }
        if count_given(given, g) > 1 {
            let mut out = String::new();
            append(&mut out, "in `");
            let shown_name = shown_type_name(name, instances);
            append(&mut out, shown_name.as_str());
            append(&mut out, " { ... }`, the field `");
            append(&mut out, g.as_str());
            append(&mut out, "` is given twice");
            proof {
                lemma_refusal_stays(layouts@, instances@, instances.count(), name@, fs, given@, (i + 1) as nat, given@.len());
            }
            return Some(out);
        }
        i = i + 1;
    }
    None
}

fn given_position(given: &Vec<String>, f: &String) -> (r: Option<usize>)
    ensures
        match first_given(given@, f@) {
            Some(j) => r == Some(j as usize),
            None => r is None,
        },
{
    let mut j: usize = 0;
    while j < given.len()
        invariant
            0 <= j <= given@.len(),
            forall|q: int| 0 <= q < j ==> #[trigger] given@[q]@ != f@,
        decreases given.len() - j,
    {
        if given[j] == *f {
            assert(first_given(given@, f@) == Some(j as int)) by {
                let c = choose|q: int| 0 <= q < given@.len() && #[trigger] given@[q]@ == f@
                    && forall|k: int| 0 <= k < q ==> #[trigger] given@[k]@ != f@;
                if c < j {
                } else if c > j {
                    assert(given@[j as int]@ != f@);
                }
            }
            return Some(j);
        }
        j = j + 1;
    }
    None
}

#[verifier::rlimit(40)]
fn fields_in_order(
    instances: &Instances,
    name: &String,
    declared: &Vec<(String, Type)>,
    given: &Vec<String>,
    values: Vec<Result<TypedExpr, String>>,
) -> (r: Result<Vec<TypedExpr>, String>)
    requires
        values@.len() == declared@.len(),
    ensures
        match typed_fields(instances@, instances.count(), name@, view_fields(declared@), given@, values@, declared@.len() as nat) {
            Ok(ts) => r matches Ok(v) && v@ == ts,
            Err(m) => r matches Err(e) && e@ == m,
        },
{
    let ghost fs = view_fields(declared@);
    let ghost vals = values@;
    let mut rest = values;
    let mut typed: Vec<TypedExpr> = Vec::new();
    let mut f: usize = 0;
    while f < declared.len()
        invariant
            0 <= f <= declared@.len(),
            fs == view_fields(declared@),
            vals == values@,
            vals.len() == fs.len(),
            rest@ == vals.skip(f as int),
            typed_fields(instances@, instances.count(), name@, fs, given@, vals, f as nat) == Ok::<Seq<TypedExpr>, Seq<char>>(typed@),
        decreases declared.len() - f,
    {
        let fname = &declared[f].0;
        let fty = &declared[f].1;
        assert(fs[f as int].0 == fname@ && fs[f as int].1 == fty@);
        let v = rest.remove(0);
        proof {
            assert(v == vals[f as int]);
            assert(rest@ =~= vals.skip(f + 1));
        }
        if given_position(given, fname).is_none() {
            let out = missing_field(name, fname, fty);
            proof {
                lemma_typed_stays(instances@, instances.count(), name@, fs, given@, vals, (f + 1) as nat, fs.len());
            }
            return Err(out);
        }
        let t = match v {
            Ok(t) => t,
            Err(m) => {
                proof {
                    lemma_typed_stays(instances@, instances.count(), name@, fs, given@, vals, (f + 1) as nat, fs.len());
                }
                return Err(m);
            },
        };
        if !storable(&t.ty, fty) {
            let out = field_value(instances, name, fname, fty, &t.ty);
            proof {
                lemma_typed_stays(instances@, instances.count(), name@, fs, given@, vals, (f + 1) as nat, fs.len());
            }
            return Err(out);
        }
        typed.push(t);
        f = f + 1;
    }
    Ok(typed)
}

/// Builds the class value `written { given... }`, its type already worked out as `literal_ty`
/// (the instantiation the context or the values chose), from the names of the fields as given
/// and, for each field the class declares in declaration order, the outcome of checking the
/// value given for it against its type (anything, for a field that is not given).
/// The literal is read under the class its type names; a field of it that is `private` (listed
/// in `private`) may be set only inside the class itself (`receiver`); every given field must be
/// declared and given once; every declared field must be given, with a value that can be stored
/// in it. The values come out in declaration order.
pub fn check_struct_lit(
    layouts: &Layouts,
    instances: &Instances,
    private: &NameMap<Vec<String>>,
    receiver: &Option<String>,
    written: &String,
    literal_ty: Type,
    given: &Vec<String>,
    values: Vec<Result<TypedExpr, String>>,
) -> (r: Result<TypedExpr, String>)
    requires
        match literal_class(written@, literal_ty@) {
            Ok(n) => match fields_of(layouts@, n) {
                Some(fs) => values@.len() == fs.len(),
                None => true,
            },
            Err(_) => true,
        },
    ensures
        match struct_rule(layouts@, instances@, instances.count(), private@,
            match receiver { Some(c) => Some(c@), None => None }, written@, literal_ty@, given@, values@) {
            Ok((name, ts)) => r matches Ok(u) && u.ty@ == literal_ty@
                && (u.kind matches TypedExprKind::StructLit { name: n, fields: f } && n@ == name && f@ == ts),
            Err(m) => r matches Err(e) && e@ == m,
        },
{
    let name = match &literal_ty {
        Type::Named(s) => s.clone(),
        Type::Generic { name, .. } => name.clone(),
        _ => {
            proof {
                crate::ty::lemma_view_variant(literal_ty);
            }
            let mut out = String::new();
            append(&mut out, "codegen bug: `");
            append(&mut out, written.as_str());
            append(&mut out, "` instantiated to ");
            literal_ty.write_text(&mut out);
            return Err(out);
        },
    };
    assert(literal_class(written@, literal_ty@) == Ok::<Seq<char>, Seq<char>>(name@));
    let declared = match fields_of_name(layouts, &name) {
        Some(fs) => fs,
        None => {
            let mut out = String::new();
            append(&mut out, "unknown type `");
            append(&mut out, name.as_str());
            append(&mut out, "` — declare it with `class ");
            append(&mut out, name.as_str());
            append(&mut out, " { ... }`");
            return Err(out);
        },
    };
    if let Some(m) = private_refusal(private, receiver, &name, given) {
        return Err(m);
    }
    if let Some(m) = given_check(layouts, instances, &name, declared, given) {
        return Err(m);
    }
    let typed = match fields_in_order(instances, &name, declared, given, values) {
        Ok(v) => v,
        Err(m) => return Err(m),
    };
    Ok(TypedExpr { ty: literal_ty, kind: TypedExprKind::StructLit { name, fields: typed } })
}

/// The types a tuple literal of `n` elements checks its elements against: those of the tuple
/// expected here when it has `n` elements, written as a tuple type or, once expanded, as the
/// class behind one; none otherwise.
pub open spec fn tuple_expectations(d: LayoutsV, expected: Option<TypeV>, n: nat) -> Seq<TypeV> {
    match expected {
        Some(TypeV::Tuple(want)) => if want.len() == n { want } else { Seq::empty() },
        Some(TypeV::Named(symbol)) => if symbol.len() > 0 && symbol[0] == '(' {
            match fields_of(d, symbol) {
                Some(fs) => if fs.len() == n { Seq::new(fs.len(), |i: int| fs[i].1) } else { Seq::empty() },
                None => Seq::empty(),
            }
        } else {
            Seq::empty()
        },
        _ => Seq::empty(),
    }
}

/// The types the elements of a tuple literal of `n` elements are checked against, element `i`
/// against the `i`-th when there is one: see [`tuple_expectations`].
pub fn tuple_expected_types(layouts: &Layouts, expected: Option<&Type>, n: usize) -> (r: Vec<Type>)
    ensures
        view_types(r@) == tuple_expectations(layouts@, match expected { Some(t) => Some(t@), None => None }, n as nat),
{
    match expected {
        Some(Type::Tuple(want)) => {
            proof {
                lemma_view_types(want@);
            }
            if want.len() == n {
                return duplicate_list(want);
            }
            assert(view_types(Seq::<Type>::empty()) =~= Seq::<TypeV>::empty());
            Vec::new()
        },
        Some(Type::Named(symbol)) => {
            if !is_tuple_symbol(symbol.as_str()) {
                assert(view_types(Seq::<Type>::empty()) =~= Seq::<TypeV>::empty());
                return Vec::new();
            }
            let fields = match fields_of_name(layouts, symbol) {
                Some(fs) => fs,
                None => {
                    assert(view_types(Seq::<Type>::empty()) =~= Seq::<TypeV>::empty());
                    return Vec::new();
                },
            };
            if fields.len() != n {
                assert(view_types(Seq::<Type>::empty()) =~= Seq::<TypeV>::empty());
                return Vec::new();
            }
            let ghost fs = view_fields(fields@);
            let mut out: Vec<Type> = Vec::new();
            let mut i: usize = 0;
            while i < fields.len()
                invariant
                    0 <= i <= fields@.len(),
                    fs == view_fields(fields@),
                    view_types(out@) == Seq::new(i as nat, |k: int| fs[k].1),
                decreases fields.len() - i,
            {
                let t = fields[i].1.duplicate();
                let ghost before = out@;
                out.push(t);
                proof {
                    assert(out@.drop_last() =~= before);
                    assert(Seq::new((i + 1) as nat, |k: int| fs[k].1) =~= Seq::new(i as nat, |k: int| fs[k].1).push(fs[i as int].1));
                }
                i = i + 1;
            }
            out
        },
        _ => {
            proof {
                if let Some(t) = expected {
                    crate::ty::lemma_view_variant(*t);
                }
            }
            assert(view_types(Seq::<Type>::empty()) =~= Seq::<TypeV>::empty());
            Vec::new()
        },
    }
}

/// The checked elements, or the first failure among them.
pub open spec fn all_checked(es: Seq<Result<TypedExpr, String>>) -> Result<Seq<TypedExpr>, Seq<char>>
    decreases es.len(),
{
    if es.len() == 0 {
        Ok(Seq::empty())
    } else {
        match all_checked(es.drop_last()) {
            Err(m) => Err(m),
            Ok(ts) => match es.last() {
                Err(m) => Err(m@),
                Ok(t) => Ok(ts.push(t)),
            },
        }
    }
}

proof fn lemma_checked_refused(all: Seq<Result<TypedExpr, String>>, k: int)
    requires
        0 <= k <= all.len(),
        all_checked(all.take(k)) is Err,
    ensures
        all_checked(all) == all_checked(all.take(k)),
    decreases all.len() - k,
{
    if k < all.len() {
        assert(all.take(k + 1).drop_last() =~= all.take(k));
        lemma_checked_refused(all, k + 1);
    } else {
        assert(all.take(k) =~= all);
    }
}

/// The name a tuple literal's value is built under: the class behind its type, or, inside a
/// generic where the tuple's type is not yet concrete, the type as written.
pub open spec fn tuple_class(t: TypeV) -> Seq<char> {
    match t {
        TypeV::Named(s) => s,
        other => type_text(other),
    }
}

/// Types a tuple literal from its elements, each already checked (against the type
/// [`tuple_expected_types`] gives for its position, where there is one): the first element that
/// failed to check is the answer; otherwise the tuple type of the elements' types is expanded,
/// which makes the class behind it the first time it is needed, and the value is that class
/// built from the elements in order.
pub fn check_tuple_lit(expansion: &mut Expansion, elements: Vec<Result<TypedExpr, String>>) -> (r: Result<TypedExpr, String>)
    ensures
        match all_checked(elements@) {
            Err(m) => (r matches Err(e) && e@ == m) && final(expansion)@ == old(expansion)@,
            Ok(ts) => {
                let (o, after) = expanded(old(expansion)@, TypeV::Tuple(types_of(ts)), u64::MAX as nat);
                &&& final(expansion)@ == after
                &&& match o {
                    Err(m) => r matches Err(e) && e@ == m,
                    Ok(ty) => r matches Ok(u) && u.ty@ == ty
                        && (u.kind matches TypedExprKind::StructLit { name: n, fields: f } && n@ == tuple_class(ty) && f@ == ts),
                }
            },
        },
{
    let ghost all = elements@;
    let count = elements.len();
    let mut rest = elements;
    let mut typed: Vec<TypedExpr> = Vec::new();
    let mut types: Vec<Type> = Vec::new();
    let mut i: usize = 0;
    proof {
        assert(all.take(0) =~= Seq::<Result<TypedExpr, String>>::empty());
    }
    while rest.len() > 0
        invariant
            all == elements@,
            all.len() == count,
            i + rest@.len() == all.len(),
            rest@ == all.skip(i as int),
            all_checked(all.take(i as int)) == Ok::<Seq<TypedExpr>, Seq<char>>(typed@),
            view_types(types@) == types_of(typed@),
            expansion@ == old(expansion)@,
        decreases rest.len(),
    {
        let e = rest.remove(0);
        proof {
            assert(e == all[i as int]);
            assert(all.take(i + 1).drop_last() =~= all.take(i as int));
            assert(rest@ =~= all.skip(i + 1));
        }
        let t = match e {
            Ok(t) => t,
            Err(m) => {
                proof {
                    lemma_checked_refused(all, i + 1);
                }
                return Err(m);
            },
        };
        let ghost before = types@;
        types.push(t.ty.duplicate());
        typed.push(t);
        proof {
            assert(types@.drop_last() =~= before);
            assert(types_of(typed@) =~= types_of(typed@.drop_last()).push(typed@.last().ty@));
            assert(typed@.drop_last() =~= all_checked(all.take(i as int))->Ok_0);
        }
        i = i + 1;
    }
    assert(all.take(i as int) =~= all);
    let ty = match expansion.expand(&Type::Tuple(types)) {
        Ok(t) => t,
        Err(e) => return Err(e),
    };
    let name = match &ty {
        Type::Named(s) => s.clone(),
        _ => {
            proof {
                crate::ty::lemma_view_variant(ty);
            }
            ty.text()
        },
    };
    Ok(TypedExpr { ty, kind: TypedExprKind::StructLit { name, fields: typed } })
}

proof fn lemma_typed_fields_fit(
    inst: InstancesV,
    depth: nat,
    name: Seq<char>,
    fs: Seq<(Seq<char>, TypeV)>,
    given: Seq<String>,
    values: Seq<Result<TypedExpr, String>>,
    n: nat,
)
    requires
        typed_fields(inst, depth, name, fs, given, values, n) is Ok,
    ensures
        typed_fields(inst, depth, name, fs, given, values, n)->Ok_0.len() == n,
        forall|i: int| 0 <= i < n ==> storable_spec((#[trigger] typed_fields(inst, depth, name, fs, given, values, n)->Ok_0[i]).ty@, fs[i].1),
        forall|i: int| 0 <= i < n ==> (#[trigger] first_given(given, fs[i].0)) is Some,
    decreases n,
{
    if n > 0 {
        lemma_typed_fields_fit(inst, depth, name, fs, given, values, (n - 1) as nat);
    }
}

/// A class value built from a literal has one value for each field the class declares, in
/// declaration order, each one storable in its field and each one given in the literal.
pub proof fn lemma_struct_values_fit(
    d: LayoutsV,
    inst: InstancesV,
    depth: nat,
    private: Map<Seq<char>, Seq<String>>,
    receiver: Option<Seq<char>>,
    written: Seq<char>,
    lit: TypeV,
    given: Seq<String>,
    values: Seq<Result<TypedExpr, String>>,
)
    requires
        struct_rule(d, inst, depth, private, receiver, written, lit, given, values) is Ok,
    ensures
        ({
            let (name, ts) = struct_rule(d, inst, depth, private, receiver, written, lit, given, values)->Ok_0;
            &&& fields_of(d, name) is Some
            &&& ts.len() == fields_of(d, name)->Some_0.len()
            &&& forall|i: int| 0 <= i < ts.len() ==> storable_spec((#[trigger] ts[i]).ty@, fields_of(d, name)->Some_0[i].1)
            &&& forall|i: int| 0 <= i < ts.len() ==> (#[trigger] first_given(given, fields_of(d, name)->Some_0[i].0)) is Some
        }),
{
    let name = literal_class(written, lit)->Ok_0;
    let fs = fields_of(d, name)->Some_0;
    lemma_typed_fields_fit(inst, depth, name, fs, given, values, fs.len());
}

} // verus!
