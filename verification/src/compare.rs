//! The comparison rules: which types `==` and the orderings apply to.
//!
//! Comparisons are exact, and both sides must have the same type. A class compares field by
//! field, and only for equality; an enum, a growable array, a fixed array and an interface object
//! cannot be compared yet; a type parameter compares as its bound allows.
use vstd::prelude::*;
use crate::arith::{matched, matching_decimal};
use crate::names::NameMap;
use crate::ops::{CmpOp, comparison_text, write_comparison};
use crate::text::same_text;
use crate::ty::{Type, TypeV, type_text, append};

verus! {

/// A class's fields: each name with its type, in declaration order.
pub struct Fields {
    pub fields: Vec<(String, Type)>,
}

/// The view of a list of fields.
pub open spec fn view_fields(s: Seq<(String, Type)>) -> Seq<(Seq<char>, TypeV)> {
    Seq::new(s.len(), |i: int| (s[i].0@, s[i].1@))
}

impl View for Fields {
    type V = Seq<(Seq<char>, TypeV)>;

    open spec fn view(&self) -> Seq<(Seq<char>, TypeV)> {
        view_fields(self.fields@)
    }
}

/// The bound a type parameter was declared with, if any: `Ordered`, `Equatable`, or an
/// interface's name.
pub struct Bound {
    pub bound: Option<String>,
}

impl View for Bound {
    type V = Option<Seq<char>>;

    open spec fn view(&self) -> Option<Seq<char>> {
        match self.bound {
            Some(b) => Some(b@),
            None => None,
        }
    }
}

/// What the comparison rules need to know about the program: its classes with their fields, the
/// names of its enums, and the bounds of the type parameters in scope.
pub struct Declarations {
    pub classes: NameMap<Fields>,
    pub enums: NameMap<Fields>,
    pub bounds: NameMap<Bound>,
}

/// The view of the declarations the comparison rules read.
pub ghost struct DeclarationsV {
    pub classes: Map<Seq<char>, Seq<(Seq<char>, TypeV)>>,
    pub enums: Map<Seq<char>, Seq<(Seq<char>, TypeV)>>,
    pub bounds: Map<Seq<char>, Option<Seq<char>>>,
}

impl View for Declarations {
    type V = DeclarationsV;

    open spec fn view(&self) -> DeclarationsV {
        DeclarationsV { classes: self.classes@, enums: self.enums@, bounds: self.bounds@ }
    }
}

/// Why a field's type cannot be compared, or `None` when it compares by itself without a walk.
pub open spec fn field_refusal(t: TypeV, enums: Map<Seq<char>, Seq<(Seq<char>, TypeV)>>) -> Option<Seq<char>> {
    match t {
        TypeV::Int => None,
        TypeV::Bool => None,
        TypeV::String => None,
        TypeV::Decimal { .. } => None,
        TypeV::Named(inner) => if enums.contains_key(inner) {
            Some("the enum `"@ + inner + "`, and `==` on an enum is not available yet"@)
        } else {
            None
        },
        TypeV::Slice(_) => Some(
            "a growable array, and `==` on one is a separate question — two arrays with equal contents and different capacity would have to be equal, and nothing has decided that"@,
        ),
        TypeV::Array { .. } => Some("a fixed array, and element-wise `==` on one is not available yet"@),
        TypeV::Dyn(n) => Some(
            "a `dynamic "@ + n + "`, which is a pointer pair — comparing it would compare addresses, not values"@,
        ),
        _ => Some(type_text(t) + ", which cannot be compared"@),
    }
}

/// The refusal of `==` on a class because one of its fields cannot be compared.
pub open spec fn field_refusal_text(class: Seq<char>, field: Seq<char>, why: Seq<char>) -> Seq<char> {
    "`==` on `"@ + class + "` needs every field to be comparable, and `"@ + class + "."@ + field + "` is "@
        + why + "."@
}

/// Whether every field of class `name` can be compared, walking into classes it holds. `seen`
/// lists the classes already walked, so each is walked once; `Ok` answers the classes walked
/// afterwards. At most `depth` classes are walked inside one another, which is never a limit
/// when `depth` exceeds the number of classes.
pub open spec fn comparable(
    name: Seq<char>,
    d: DeclarationsV,
    seen: Seq<Seq<char>>,
    depth: nat,
) -> Result<Seq<Seq<char>>, Seq<char>>
    decreases depth, 0int,
{
    if seen.contains(name) {
        Ok(seen)
    } else if !d.classes.contains_key(name) {
        Err("unknown type `"@ + name + "`"@)
    } else if depth == 0 {
        Ok(seen.push(name))
    } else {
        fields_comparable(name, d.classes[name], d, seen.push(name), (depth - 1) as nat)
    }
}

/// [`comparable`] for the fields of class `name`, in order, stopping at the first refusal.
pub open spec fn fields_comparable(
    name: Seq<char>,
    fields: Seq<(Seq<char>, TypeV)>,
    d: DeclarationsV,
    seen: Seq<Seq<char>>,
    depth: nat,
) -> Result<Seq<Seq<char>>, Seq<char>>
    decreases depth, fields.len() + 1,
{
    if fields.len() == 0 {
        Ok(seen)
    } else {
        let (field, t) = fields[0];
        match field_refusal(t, d.enums) {
            Some(why) => Err(field_refusal_text(name, field, why)),
            None => match t {
                TypeV::Named(inner) => match comparable(inner, d, seen, depth) {
                    Ok(s2) => fields_comparable(name, fields.skip(1), d, s2, depth),
                    Err(e) => Err(e),
                },
                _ => fields_comparable(name, fields.skip(1), d, seen, depth),
            },
        }
    }
}

/// The message for an unbounded type parameter asked to do more than be stored, copied, passed
/// and returned.
pub open spec fn unbounded_text(param: Seq<char>, what: Seq<char>) -> Seq<char> {
    "`"@ + param + "` is a type parameter with no bound, so a value of it can be stored, copied, passed and returned — not "@
        + what + ", which needs to know what the value IS. Say so in the signature with a bound on `"@ + param + "`."@
}

/// What an unbounded type parameter cannot do, said the same way everywhere: it can be stored,
/// copied, passed and returned, and nothing else.
pub fn unbounded(param: &str, what: &str) -> (r: String)
    ensures
        r@ == unbounded_text(param@, what@),
{
    let mut out = String::new();
    append(&mut out, "`");
    append(&mut out, param);
    append(&mut out, "` is a type parameter with no bound, so a value of it can be stored, copied, passed and returned — not ");
    append(&mut out, what);
    append(&mut out, ", which needs to know what the value IS. Say so in the signature with a bound on `");
    append(&mut out, param);
    append(&mut out, "`.");
    assert(out@ =~= unbounded_text(param@, what@));
    out
}

/// The bound a comparison needs: `Equatable` for `==` and `!=`, `Ordered` for the orderings.
pub open spec fn needed_bound(op: CmpOp) -> Seq<char> {
    if op == CmpOp::Eq || op == CmpOp::Ne { "Equatable"@ } else { "Ordered"@ }
}

/// The message for comparing two values of an unbounded type parameter.
pub open spec fn unbounded_compare_text(param: Seq<char>, op: CmpOp) -> Seq<char> {
    "`"@ + param + "` is a type parameter with no bound, so two values of it cannot be compared — `"@ + comparison_text(op)
        + "` needs to know what the values ARE. Write `<"@ + param + ": "@ + needed_bound(op)
        + ">` and the signature says so, which is what makes the body's rules the same for every caller."@
}

/// Comparing two values of an unbounded type parameter: the same shape as [`unbounded`], said in
/// terms of the operator, and naming the bound that would allow it.
pub fn unbounded_compare(param: &str, op: CmpOp) -> (r: String)
    ensures
        r@ == unbounded_compare_text(param@, op),
{
    let mut out = String::new();
    append(&mut out, "`");
    append(&mut out, param);
    append(&mut out, "` is a type parameter with no bound, so two values of it cannot be compared — `");
    write_comparison(&mut out, op);
    append(&mut out, "` needs to know what the values ARE. Write `<");
    append(&mut out, param);
    append(&mut out, ": ");
    if op == CmpOp::Eq || op == CmpOp::Ne {
        append(&mut out, "Equatable");
    } else {
        append(&mut out, "Ordered");
    }
    append(&mut out, ">` and the signature says so, which is what makes the body's rules the same for every caller.");
    assert(out@ =~= unbounded_compare_text(param@, op));
    out
}

/// Whether `==` applies to two values of type `lhs` and `rhs` compared with `op`, or the
/// message that refuses it. `depth` bounds the walk into classes, as in [`comparable`].
pub open spec fn compare_rule(op: CmpOp, l: TypeV, r: TypeV, d: DeclarationsV, depth: nat) -> Result<(), Seq<char>> {
    match (l, r) {
        (TypeV::Int, TypeV::Int) => Ok(()),
        (TypeV::Named(a), TypeV::Named(b)) => if a == b {
            if !(op == CmpOp::Eq || op == CmpOp::Ne) {
                Err("`"@ + comparison_text(op) + "` on `"@ + a
                    + "` would have to decide which field comes first, and nothing says which. Compare the field you mean, or give `"@
                    + a + "` a method that answers the question you are really asking."@)
            } else if d.enums.contains_key(a) {
                Err("`==` on the enum `"@ + a
                    + "` is not available yet: two variants can carry different payloads, so equality has to compare the TAG first and then only the payload that variant holds. Use `match`."@)
            } else {
                match comparable(a, d, Seq::empty(), depth) {
                    Ok(_) => Ok(()),
                    Err(e) => Err(e),
                }
            }
        } else {
            Err("cannot compare `"@ + a + "` with `"@ + b
                + "`: one equality, no coercion. Both sides of `==` must be the same type."@)
        },
        (TypeV::String, TypeV::String) => Ok(()),
        (TypeV::CPointer, _) => Err(cpointer_text(op)),
        (_, TypeV::CPointer) => Err(cpointer_text(op)),
        (TypeV::Bool, TypeV::Bool) => if op == CmpOp::Eq || op == CmpOp::Ne {
            Ok(())
        } else {
            Err("Bools have no order: `"@ + comparison_text(op) + "` does not apply; only `==` and `!=` do"@)
        },
        (TypeV::Decimal { .. }, TypeV::Decimal { .. }) => if l == r {
            Ok(())
        } else {
            match matched("compare ("@ + comparison_text(op) + ")"@, l, r) {
                Ok(_) => Ok(()),
                Err(e) => Err(e),
            }
        },
        (TypeV::Param(a), TypeV::Param(b)) => if a == b {
            let bound = if d.bounds.contains_key(a) { d.bounds[a] } else { None };
            match bound {
                Some(n) => if n == "Ordered"@ {
                    Ok(())
                } else if n == "Equatable"@ {
                    if op == CmpOp::Eq || op == CmpOp::Ne {
                        Ok(())
                    } else {
                        Err("`"@ + a + ": Equatable` says two values of it can be compared for equality, not ordered — `"@
                            + comparison_text(op) + "` needs `"@ + a + ": Ordered`."@)
                    }
                } else {
                    Err("`"@ + a + ": "@ + n + "` says a value of it has "@ + n
                        + "'s methods, not an order. Comparing with `"@ + comparison_text(op) + "` needs `"@ + a
                        + ": Ordered`, or `"@ + a + ": Equatable` for `==` and `!=`."@)
                },
                None => Err(unbounded_compare_text(a, op)),
            }
        } else {
            Err(mismatch_compare_text(l, r))
        },
        _ => Err(mismatch_compare_text(l, r)),
    }
}

/// Comparisons are exact: an accepted comparison has the same type on both sides; `<` and the
/// other orderings never apply to a class; and `==` on a class or enum needs it to be a class.
pub proof fn lemma_compare_same_type(op: CmpOp, l: TypeV, r: TypeV, d: DeclarationsV, depth: nat)
    ensures
        compare_rule(op, l, r, d, depth) is Ok ==> l == r,
        l is Named && compare_rule(op, l, r, d, depth) is Ok
            ==> (op == CmpOp::Eq || op == CmpOp::Ne) && !d.enums.contains_key(l->Named_0),
        l is Bool && compare_rule(op, l, r, d, depth) is Ok ==> op == CmpOp::Eq || op == CmpOp::Ne,
        l is CPointer || r is CPointer ==> compare_rule(op, l, r, d, depth) is Err,
{
}

/// A field that cannot be compared makes its class refused, wherever it stands among the fields.
pub proof fn lemma_uncomparable_field_refuses(
    name: Seq<char>,
    fields: Seq<(Seq<char>, TypeV)>,
    d: DeclarationsV,
    seen: Seq<Seq<char>>,
    depth: nat,
    j: int,
)
    requires
        0 <= j < fields.len(),
        field_refusal(fields[j].1, d.enums) is Some,
    ensures
        fields_comparable(name, fields, d, seen, depth) is Err,
    decreases j,
{
    if j > 0 && field_refusal(fields[0].1, d.enums) is None {
        assert(fields.skip(1)[j - 1] == fields[j]);
        match fields[0].1 {
            TypeV::Named(inner) => match comparable(inner, d, seen, depth) {
                Ok(s2) => lemma_uncomparable_field_refuses(name, fields.skip(1), d, s2, depth, j - 1),
                Err(_) => {},
            },
            _ => lemma_uncomparable_field_refuses(name, fields.skip(1), d, seen, depth, j - 1),
        }
    }
}

/// A class compares field by field all the way down: when the fields of a class are accepted,
/// every field of class type was itself walked and accepted, from the classes walked by the
/// fields before it.
pub proof fn lemma_class_fields_walked(
    name: Seq<char>,
    fields: Seq<(Seq<char>, TypeV)>,
    d: DeclarationsV,
    seen: Seq<Seq<char>>,
    depth: nat,
    i: int,
)
    requires
        fields_comparable(name, fields, d, seen, depth) is Ok,
        0 <= i < fields.len(),
        fields[i].1 is Named,
        !d.enums.contains_key(fields[i].1->Named_0),
    ensures
        fields_comparable(name, fields.take(i), d, seen, depth) is Ok,
        comparable(fields[i].1->Named_0, d, fields_comparable(name, fields.take(i), d, seen, depth)->Ok_0, depth) is Ok,
    decreases i,
{
    if i == 0 {
        assert(fields.take(0).len() == 0);
    } else {
        let rest = fields.skip(1);
        assert(rest[i - 1] == fields[i]);
        assert(fields.take(i)[0] == fields[0]);
        assert(fields.take(i).skip(1) =~= rest.take(i - 1));
        match fields[0].1 {
            TypeV::Named(inner) => {
                let s1 = comparable(inner, d, seen, depth)->Ok_0;
                lemma_class_fields_walked(name, rest, d, s1, depth, i - 1);
            },
            _ => {
                lemma_class_fields_walked(name, rest, d, seen, depth, i - 1);
            },
        }
    }
}

/// When a class's fields are accepted, a field of class type whose class had not been walked yet
/// names a declared class every one of whose fields can be compared.
pub proof fn lemma_nested_class_comparable(
    name: Seq<char>,
    fields: Seq<(Seq<char>, TypeV)>,
    d: DeclarationsV,
    seen: Seq<Seq<char>>,
    depth: nat,
    i: int,
)
    requires
        fields_comparable(name, fields, d, seen, depth) is Ok,
        0 <= i < fields.len(),
        fields[i].1 is Named,
        !d.enums.contains_key(fields[i].1->Named_0),
        depth > 0,
        !fields_comparable(name, fields.take(i), d, seen, depth)->Ok_0.contains(fields[i].1->Named_0),
    ensures
        d.classes.contains_key(fields[i].1->Named_0),
        forall|j: int| 0 <= j < d.classes[fields[i].1->Named_0].len()
            ==> field_refusal((#[trigger] d.classes[fields[i].1->Named_0][j]).1, d.enums) is None,
{
    lemma_class_fields_walked(name, fields, d, seen, depth, i);
    let inner = fields[i].1->Named_0;
    let s = fields_comparable(name, fields.take(i), d, seen, depth)->Ok_0;
    assert forall|j: int| 0 <= j < d.classes[inner].len()
        implies field_refusal((#[trigger] d.classes[inner][j]).1, d.enums) is None by {
        if field_refusal(d.classes[inner][j].1, d.enums) is Some {
            lemma_uncomparable_field_refuses(inner, d.classes[inner], d, s.push(inner), (depth - 1) as nat, j);
        }
    }
}

/// `==` on a class whose first field holds another class refuses it when that other class has
/// a field that cannot be compared, such as a growable array: the walk goes all the way down.
pub proof fn lemma_nested_refusal_reaches_compare(c: Seq<char>, inner: Seq<char>, d: DeclarationsV, depth: nat, j: int)
    requires
        d.classes.contains_key(c),
        !d.enums.contains_key(c),
        d.classes[c].len() > 0,
        d.classes[c][0].1 == TypeV::Named(inner),
        inner != c,
        !d.enums.contains_key(inner),
        d.classes.contains_key(inner),
        0 <= j < d.classes[inner].len(),
        field_refusal(d.classes[inner][j].1, d.enums) is Some,
        depth >= 2,
    ensures
        compare_rule(CmpOp::Eq, TypeV::Named(c), TypeV::Named(c), d, depth) is Err,
{
    let fields = d.classes[c];
    let seen = Seq::empty().push(c);
    if fields_comparable(c, fields, d, seen, (depth - 1) as nat) is Ok {
        assert(fields.take(0).len() == 0);
        assert(!seen.contains(inner)) by {
            if seen.contains(inner) {
                let k = choose|k: int| 0 <= k < seen.len() && seen[k] == inner;
                assert(seen[k] == c);
            }
        }
        lemma_nested_class_comparable(c, fields, d, seen, (depth - 1) as nat, 0);
        assert(field_refusal(d.classes[inner][j].1, d.enums) is None);
    }
    assert(!Seq::<Seq<char>>::empty().contains(c));
}

/// The refusal of any ordering or equality on a C pointer.
pub open spec fn cpointer_text(op: CmpOp) -> Seq<char> {
    "a CPointer has no `"@ + comparison_text(op)
        + "`: it is a token to hand back to C, not a value to compare. To test whether the call failed, use `c_is_null(p)`; to read what it points at, `c_string_at(p)`, which copies."@
}

/// The refusal of a comparison between two types that are not the same.
pub open spec fn mismatch_compare_text(l: TypeV, r: TypeV) -> Seq<char> {
    "type error: cannot compare "@ + type_text(l) + " and "@ + type_text(r) + " — the types must match exactly"@
}

/// The view of a list of names.
pub open spec fn view_names(s: Seq<String>) -> Seq<Seq<char>> {
    Seq::new(s.len(), |i: int| s[i]@)
}

pub(crate) fn seen_contains(seen: &Vec<String>, name: &String) -> (r: bool)
    ensures
        r == view_names(seen@).contains(name@),
{
    let mut i: usize = 0;
    while i < seen.len()
        invariant
            0 <= i <= seen@.len(),
            forall|k: int| 0 <= k < i ==> seen@[k]@ != name@,
        decreases seen.len() - i,
    {
        if seen[i] == *name {
            assert(view_names(seen@)[i as int] == name@);
            return true;
        }
        i = i + 1;
    }
    assert forall|k: int| 0 <= k < view_names(seen@).len() implies view_names(seen@)[k] != name@ by {
        assert(view_names(seen@)[k] == seen@[k]@);
    }
    false
}

fn write_field_refusal(out: &mut String, class: &String, field: &String)
    ensures
        final(out)@ == old(out)@ + "`==` on `"@ + class@ + "` needs every field to be comparable, and `"@ + class@ + "."@
            + field@ + "` is "@,
{
    let ghost start = out@;
    append(out, "`==` on `");
    append(out, class.as_str());
    append(out, "` needs every field to be comparable, and `");
    append(out, class.as_str());
    append(out, ".");
    append(out, field.as_str());
    append(out, "` is ");
    assert(out@ =~= start + "`==` on `"@ + class@ + "` needs every field to be comparable, and `"@ + class@ + "."@
        + field@ + "` is "@);
}

/// Whether every field of class `name` can be compared: see [`comparable`].
pub fn class_is_comparable(name: &String, decls: &Declarations, seen: &mut Vec<String>, depth: usize) -> (r: Result<(), String>)
    ensures
        match r {
            Ok(()) => comparable(name@, decls@, view_names(old(seen)@), depth as nat)
                == Ok::<Seq<Seq<char>>, Seq<char>>(view_names(final(seen)@)),
            Err(e) => comparable(name@, decls@, view_names(old(seen)@), depth as nat)
                == Err::<Seq<Seq<char>>, Seq<char>>(e@),
        },
    decreases depth, 0int,
{
    if seen_contains(seen, name) {
        return Ok(());
    }
    let ghost before = seen@;
    seen.push(name.clone());
    assert(view_names(seen@) =~= view_names(before).push(name@));
    let fields = match decls.classes.get(name) {
        Some(f) => f,
        None => {
            let mut out = String::new();
            append(&mut out, "unknown type `");
            append(&mut out, name.as_str());
            append(&mut out, "`");
            assert(out@ =~= "unknown type `"@ + name@ + "`"@);
            return Err(out);
        },
    };
    if depth == 0 {
        return Ok(());
    }
    assert(view_fields(fields.fields@).skip(0) =~= view_fields(fields.fields@));
    fields_are_comparable(name, &fields.fields, 0, decls, seen, depth - 1)
}

fn fields_are_comparable(
    name: &String,
    fields: &Vec<(String, Type)>,
    from: usize,
    decls: &Declarations,
    seen: &mut Vec<String>,
    depth: usize,
) -> (r: Result<(), String>)
    requires
        from <= fields@.len(),
    ensures
        match r {
            Ok(()) => fields_comparable(name@, view_fields(fields@).skip(from as int), decls@, view_names(old(seen)@), depth as nat)
                == Ok::<Seq<Seq<char>>, Seq<char>>(view_names(final(seen)@)),
            Err(e) => fields_comparable(name@, view_fields(fields@).skip(from as int), decls@, view_names(old(seen)@), depth as nat)
                == Err::<Seq<Seq<char>>, Seq<char>>(e@),
        },
    decreases depth, fields@.len() - from + 1,
{
    let ghost rest = view_fields(fields@).skip(from as int);
    if from == fields.len() {
        return Ok(());
    }
    proof {
        assert(rest[0] == (fields@[from as int].0@, fields@[from as int].1@));
        assert(rest.skip(1) =~= view_fields(fields@).skip(from + 1));
        crate::ty::lemma_view_variant(fields@[from as int].1);
    }
    let field = &fields[from].0;
    let t = &fields[from].1;
    let mut out = String::new();
    match t {
        Type::Int | Type::Bool | Type::String | Type::Decimal { .. } => {
            return fields_are_comparable(name, fields, from + 1, decls, seen, depth);
        },
        Type::Named(inner) => {
            if decls.enums.get(inner).is_some() {
                write_field_refusal(&mut out, name, field);
                append(&mut out, "the enum `");
                append(&mut out, inner.as_str());
                append(&mut out, "`, and `==` on an enum is not available yet");
            } else {
                match class_is_comparable(inner, decls, seen, depth) {
                    Ok(()) => {},
                    Err(e) => return Err(e),
                }
                return fields_are_comparable(name, fields, from + 1, decls, seen, depth);
            }
        },
        Type::Slice(_) => {
            write_field_refusal(&mut out, name, field);
            append(&mut out, "a growable array, and `==` on one is a separate question — two arrays with equal contents and different capacity would have to be equal, and nothing has decided that");
        },
        Type::Array { .. } => {
            write_field_refusal(&mut out, name, field);
            append(&mut out, "a fixed array, and element-wise `==` on one is not available yet");
        },
        Type::Dyn(n) => {
            write_field_refusal(&mut out, name, field);
            append(&mut out, "a `dynamic ");
            append(&mut out, n.as_str());
            append(&mut out, "`, which is a pointer pair — comparing it would compare addresses, not values");
        },
        _ => {
            write_field_refusal(&mut out, name, field);
            t.write_text(&mut out);
            append(&mut out, ", which cannot be compared");
        },
    }
    append(&mut out, ".");
    assert(out@ =~= fields_comparable(name@, rest, decls@, view_names(old(seen)@), depth as nat)->Err_0);
    Err(out)
}

/// Whether `lhs op rhs` may be compared, or the message that refuses it: see [`compare_rule`].
/// The walk into classes is bounded by one more than the number of classes declared.
pub fn check_compare(op: CmpOp, lhs: &Type, rhs: &Type, decls: &Declarations) -> (r: Result<(), String>)
    requires
        decls.classes.count() < usize::MAX,
    ensures
        match r {
            Ok(()) => compare_rule(op, lhs@, rhs@, decls@, decls.classes.count() + 1) == Ok::<(), Seq<char>>(()),
            Err(e) => compare_rule(op, lhs@, rhs@, decls@, decls.classes.count() + 1) == Err::<(), Seq<char>>(e@),
        },
{
    proof {
        crate::ty::lemma_view_variant(*lhs);
        crate::ty::lemma_view_variant(*rhs);
    }
    let depth = decls.classes.len() + 1;
    let eq_like = op == CmpOp::Eq || op == CmpOp::Ne;
    let mut out = String::new();
    match (lhs, rhs) {
        (Type::Int, Type::Int) => return Ok(()),
        (Type::Named(a), Type::Named(b)) => {
            if *a == *b {
                if !eq_like {
                    append(&mut out, "`");
                    write_comparison(&mut out, op);
                    append(&mut out, "` on `");
                    append(&mut out, a.as_str());
                    append(&mut out, "` would have to decide which field comes first, and nothing says which. Compare the field you mean, or give `");
                    append(&mut out, a.as_str());
                    append(&mut out, "` a method that answers the question you are really asking.");
                } else if decls.enums.get(a).is_some() {
                    append(&mut out, "`==` on the enum `");
                    append(&mut out, a.as_str());
                    append(&mut out, "` is not available yet: two variants can carry different payloads, so equality has to compare the TAG first and then only the payload that variant holds. Use `match`.");
                } else {
                    let mut seen: Vec<String> = Vec::new();
                    assert(view_names(seen@) =~= Seq::<Seq<char>>::empty());
                    return class_is_comparable(a, decls, &mut seen, depth);
                }
            } else {
                append(&mut out, "cannot compare `");
                append(&mut out, a.as_str());
                append(&mut out, "` with `");
                append(&mut out, b.as_str());
                append(&mut out, "`: one equality, no coercion. Both sides of `==` must be the same type.");
            }
        },
        (Type::String, Type::String) => return Ok(()),
        (Type::CPointer, _) | (_, Type::CPointer) => {
            append(&mut out, "a CPointer has no `");
            write_comparison(&mut out, op);
            append(&mut out, "`: it is a token to hand back to C, not a value to compare. To test whether the call failed, use `c_is_null(p)`; to read what it points at, `c_string_at(p)`, which copies.");
        },
        (Type::Bool, Type::Bool) => {
            if eq_like {
                return Ok(());
            }
            append(&mut out, "Bools have no order: `");
            write_comparison(&mut out, op);
            append(&mut out, "` does not apply; only `==` and `!=` do");
        },
        (Type::Decimal { .. }, Type::Decimal { .. }) => {
            if lhs.same(rhs) {
                return Ok(());
            }
            let mut what = String::new();
            append(&mut what, "compare (");
            write_comparison(&mut what, op);
            append(&mut what, ")");
            return match matching_decimal(what.as_str(), lhs, rhs) {
                Ok(_) => Ok(()),
                Err(e) => Err(e),
            };
        },
        (Type::Param(a), Type::Param(b)) if *a == *b => {
            match decls.bounds.get(a) {
                Some(Bound { bound: Some(n) }) => {
                    if same_text(n.as_str(), "Ordered") {
                        return Ok(());
                    }
                    if same_text(n.as_str(), "Equatable") {
                        if eq_like {
                            return Ok(());
                        }
                        append(&mut out, "`");
                        append(&mut out, a.as_str());
                        append(&mut out, ": Equatable` says two values of it can be compared for equality, not ordered — `");
                        write_comparison(&mut out, op);
                        append(&mut out, "` needs `");
                        append(&mut out, a.as_str());
                        append(&mut out, ": Ordered`.");
                    } else {
                        append(&mut out, "`");
                        append(&mut out, a.as_str());
                        append(&mut out, ": ");
                        append(&mut out, n.as_str());
                        append(&mut out, "` says a value of it has ");
                        append(&mut out, n.as_str());
                        append(&mut out, "'s methods, not an order. Comparing with `");
                        write_comparison(&mut out, op);
                        append(&mut out, "` needs `");
                        append(&mut out, a.as_str());
                        append(&mut out, ": Ordered`, or `");
                        append(&mut out, a.as_str());
                        append(&mut out, ": Equatable` for `==` and `!=`.");
                    }
                },
                _ => {
                    return Err(unbounded_compare(a.as_str(), op));
                },
            }
        },
        _ => {
            append(&mut out, "type error: cannot compare ");
            lhs.write_text(&mut out);
            append(&mut out, " and ");
            rhs.write_text(&mut out);
            append(&mut out, " — the types must match exactly");
        },
    }
    assert(out@ =~= compare_rule(op, lhs@, rhs@, decls@, (decls.classes.count() + 1) as nat)->Err_0);
    Err(out)
}

} // verus!
