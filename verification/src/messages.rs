//! Sentences the checker refuses with, each written once so that one rule always reads the same.
use vstd::prelude::*;
use crate::allocation::{shown_fn, shown_fn_name};
use crate::compare::view_fields;
use crate::generics::{Instances, InstancesV, shown, shown_list, write_shown, write_shown_list};
use crate::names::NameMap;
use crate::storage::{Layouts, LayoutsV, fields_of, fields_of_name};
use crate::text::push_char;
use crate::ty::{Type, TypeV, append, list_text, type_text, view_types, write_list};
use crate::typed::TypedExprKind;

verus! {

/// The sentence that tells a reader how to get a region.
pub open spec fn needs_region_text(what: Seq<char>) -> Seq<char> {
    crate::arith::needs_region_text(what)
}

/// The sentence that tells a reader how to get a region, after `what` says what allocates.
pub fn needs_region(what: &str) -> (r: String)
    ensures
        r@ == needs_region_text(what@),
{
    let mut out = String::new();
    append(&mut out, what);
    append(&mut out, ", so it needs a region: there is none open here. Wrap it in `region name { ... }`, or declare the enclosing function `-> ... allocates` to build in the caller's region.");
    assert(out@ =~= needs_region_text(what@));
    out
}

/// The refusal of a call that grows a binding declared outside the open region.
pub open spec fn growing_text(name: Seq<char>, open: Seq<char>, callee: Seq<char>) -> Seq<char> {
    "`"@ + name + "` was declared outside `region "@ + open + "`, so it cannot grow inside it — `"@ + callee
        + "` grows it, and the bytes are released at the closing brace, leaving `"@ + name
        + "` reading whatever the region hands out next. Declare `"@ + name + "` inside the region, or grow it outside it."@
}

/// The refusal of a call that grows a binding declared outside the open region: the call is
/// named as the cause, because that is what the reader is looking at.
pub fn growing_an_outer_binding(name: &str, open: &str, callee: &str) -> (r: String)
    ensures
        r@ == growing_text(name@, open@, callee@),
{
    let mut out = String::new();
    append(&mut out, "`");
    append(&mut out, name);
    append(&mut out, "` was declared outside `region ");
    append(&mut out, open);
    append(&mut out, "`, so it cannot grow inside it — `");
    append(&mut out, callee);
    append(&mut out, "` grows it, and the bytes are released at the closing brace, leaving `");
    append(&mut out, name);
    append(&mut out, "` reading whatever the region hands out next. Declare `");
    append(&mut out, name);
    append(&mut out, "` inside the region, or grow it outside it.");
    assert(out@ =~= growing_text(name@, open@, callee@));
    out
}

/// The refusal of a value built inside a region landing in a field or an element of a binding
/// declared outside it.
pub open spec fn outer_region_text(name: Seq<char>, open: Seq<char>, part: Seq<char>) -> Seq<char> {
    "`"@ + name + "` was declared outside `region "@ + open + "`, so its "@ + part
        + " cannot be assigned a value built inside it — the bytes are released at the closing brace and `"@ + name
        + "` would read whatever the region hands out next. Declare `"@ + name + "` inside the region, or build the value outside it."@
}

/// The refusal of a value built inside a region landing in an outer binding's `part` ("field"
/// or "element").
pub fn assigning_into_outer_region(name: &str, open: &str, part: &str) -> (r: String)
    ensures
        r@ == outer_region_text(name@, open@, part@),
{
    let mut out = String::new();
    append(&mut out, "`");
    append(&mut out, name);
    append(&mut out, "` was declared outside `region ");
    append(&mut out, open);
    append(&mut out, "`, so its ");
    append(&mut out, part);
    append(&mut out, " cannot be assigned a value built inside it — the bytes are released at the closing brace and `");
    append(&mut out, name);
    append(&mut out, "` would read whatever the region hands out next. Declare `");
    append(&mut out, name);
    append(&mut out, "` inside the region, or build the value outside it.");
    assert(out@ =~= outer_region_text(name@, open@, part@));
    out
}

/// The refusal of something a `pure` function may not do, naming the promise and what would break
/// it; `None` outside a pure function. `in_pure` is the pure function being checked, and
/// `in_contract` says whether a contract clause of it is.
pub open spec fn impure_text(in_pure: Option<Seq<char>>, in_contract: bool, what: Seq<char>) -> Option<Seq<char>> {
    match in_pure {
        None => None,
        Some(name) => Some(if in_contract {
            "a contract clause on `"@ + name + "` may not "@ + what
                + ": a clause that can change the program is not a check, it is a second program that runs only when someone is looking."@
        } else {
            "`pure function "@ + shown_fn(name) + "` may not "@ + what
                + ": a pure function's result must depend only on its arguments, which is the whole of what `pure` promises. Pass the value in as a parameter instead."@
        }),
    }
}

/// The refusal of something a `pure` function may not do: see [`impure_text`].
pub fn impure(in_pure: &Option<String>, in_contract: bool, what: &str) -> (r: Option<String>)
    ensures
        match r {
            Some(t) => impure_text(match in_pure { Some(n) => Some(n@), None => None }, in_contract, what@) == Some(t@),
            None => impure_text(match in_pure { Some(n) => Some(n@), None => None }, in_contract, what@) is None,
        },
{
    match in_pure {
        None => None,
        Some(name) => {
            let mut out = String::new();
            if in_contract {
                append(&mut out, "a contract clause on `");
                append(&mut out, name.as_str());
                append(&mut out, "` may not ");
                append(&mut out, what);
                append(&mut out, ": a clause that can change the program is not a check, it is a second program that runs only when someone is looking.");
                assert(out@ =~= "a contract clause on `"@ + name@ + "` may not "@ + what@
                    + ": a clause that can change the program is not a check, it is a second program that runs only when someone is looking."@);
            } else {
                let shown_name = shown_fn_name(name);
                append(&mut out, "`pure function ");
                append(&mut out, shown_name.as_str());
                append(&mut out, "` may not ");
                append(&mut out, what);
                append(&mut out, ": a pure function's result must depend only on its arguments, which is the whole of what `pure` promises. Pass the value in as a parameter instead.");
                assert(out@ =~= "`pure function "@ + shown_fn(name@) + "` may not "@ + what@
                    + ": a pure function's result must depend only on its arguments, which is the whole of what `pure` promises. Pass the value in as a parameter instead."@);
            }
            Some(out)
        },
    }
}

/// The open region's name when `name` was declared outside it, or `None`: no region open, or the
/// name declared inside the open one. `region_scope` lists the names declared inside it.
pub fn declared_outside_open_region(current_region: &Option<String>, region_scope: &Vec<String>, name: &String) -> (r: Option<String>)
    ensures
        r == match current_region {
            Some(open) => if crate::release::listed(region_scope@, name@) { None::<String> } else { Some(*open) },
            None => None::<String>,
        },
{
    match current_region {
        Some(open) => {
            if crate::release::has_name(region_scope, name) {
                None
            } else {
                Some(open.clone())
            }
        },
        None => None,
    }
}

/// The refusal of a name nothing declares: when some enum (searched in the order given) has a
/// variant of that name, it says how to write the variant.
pub open spec fn unknown_name_text(enums: Seq<(String, Vec<String>)>, name: Seq<char>) -> Seq<char>
    decreases enums.len(),
{
    if enums.len() == 0 {
        "unknown variable: "@ + name
    } else if exists|j: int| 0 <= j < enums[0].1@.len() && (#[trigger] enums[0].1@[j])@ == name {
        "unknown variable: "@ + name + " — did you mean `"@ + enums[0].0@ + "."@ + name
            + "`? Enum variants are always written with their enum."@
    } else {
        unknown_name_text(enums.skip(1), name)
    }
}

/// The refusal of a name nothing declares: see [`unknown_name_text`]. `enums` lists each enum's
/// name with the names of its variants.
pub fn unknown_name(enums: &Vec<(String, Vec<String>)>, name: &String) -> (r: String)
    ensures
        r@ == unknown_name_text(enums@, name@),
{
    assert(enums@.skip(0) =~= enums@);
    let mut i: usize = 0;
    while i < enums.len()
        invariant
            0 <= i <= enums@.len(),
            unknown_name_text(enums@, name@) == unknown_name_text(enums@.skip(i as int), name@),
        decreases enums.len() - i,
    {
        proof {
            assert(enums@.skip(i as int).skip(1) =~= enums@.skip(i + 1));
            assert(enums@.skip(i as int)[0] == enums@[i as int]);
        }
        if crate::release::has_name(&enums[i].1, name) {
            let mut out = String::new();
            append(&mut out, "unknown variable: ");
            append(&mut out, name.as_str());
            append(&mut out, " — did you mean `");
            append(&mut out, enums[i].0.as_str());
            append(&mut out, ".");
            append(&mut out, name.as_str());
            append(&mut out, "`? Enum variants are always written with their enum.");
            assert(out@ =~= "unknown variable: "@ + name@ + " — did you mean `"@ + enums@[i as int].0@ + "."@ + name@
                + "`? Enum variants are always written with their enum."@);
            return out;
        }
        i = i + 1;
    }
    let mut out = String::new();
    append(&mut out, "unknown variable: ");
    append(&mut out, name.as_str());
    assert(out@ =~= "unknown variable: "@ + name@);
    out
}

/// A class's fields written `name: Type, ...`, each type the way its author wrote it; empty for
/// a name with no fields.
pub open spec fn field_list_text(d: LayoutsV, inst: InstancesV, depth: nat, name: Seq<char>) -> Seq<char> {
    match fields_of(d, name) {
        Some(fs) => fields_text(fs, inst, depth),
        None => Seq::empty(),
    }
}

/// Fields written `name: Type`, separated by `, `.
pub open spec fn fields_text(fs: Seq<(Seq<char>, TypeV)>, inst: InstancesV, depth: nat) -> Seq<char>
    decreases fs.len(),
{
    if fs.len() == 0 {
        Seq::empty()
    } else if fs.len() == 1 {
        fs[0].0 + ": "@ + shown(fs[0].1, inst, depth)
    } else {
        fields_text(fs.drop_last(), inst, depth) + ", "@ + fs.last().0 + ": "@ + shown(fs.last().1, inst, depth)
    }
}

/// A class's fields, for a message about a field it does not have: see [`field_list_text`].
pub fn field_list(layouts: &Layouts, instances: &Instances, name: &String) -> (r: String)
    ensures
        r@ == field_list_text(layouts@, instances@, instances.count(), name@),
{
    let mut out = String::new();
    match fields_of_name(layouts, name) {
        Some(fields) => {
            let ghost fs = view_fields(fields@);
            let mut i: usize = 0;
            proof {
                assert(fs.take(0) =~= Seq::<(Seq<char>, TypeV)>::empty());
            }
            while i < fields.len()
                invariant
                    0 <= i <= fields@.len(),
                    fs == view_fields(fields@),
                    out@ == fields_text(fs.take(i as int), instances@, instances.count()),
                decreases fields.len() - i,
            {
                proof {
                    let t = fs.take(i + 1);
                    assert(t.drop_last() =~= fs.take(i as int));
                    assert(t.last() == (fields@[i as int].0@, fields@[i as int].1@));
                }
                if i > 0 {
                    append(&mut out, ", ");
                }
                append(&mut out, fields[i].0.as_str());
                append(&mut out, ": ");
                write_shown(&fields[i].1, instances, instances.len(), &mut out);
                assert(out@ =~= fields_text(fs.take(i + 1), instances@, instances.count()));
                i = i + 1;
            }
            assert(fs.take(i as int) =~= fs);
        },
        None => {},
    }
    out
}

/// The name the anonymous class behind a tuple is filed under: the tuple as it was written,
/// `(Int, String)`, each element the way its author wrote it.
pub fn tuple_symbol(instances: &Instances, elements: &Vec<Type>) -> (r: String)
    ensures
        r@ == "("@ + shown_list(view_types(elements@), instances@, instances.count()) + ")"@,
{
    let mut out = String::new();
    append(&mut out, "(");
    write_shown_list(elements, instances, instances.len(), &mut out);
    append(&mut out, ")");
    assert(out@ =~= "("@ + shown_list(view_types(elements@), instances@, instances.count()) + ")"@);
    out
}

/// Whether a class is the anonymous one behind a tuple rather than one the reader wrote.
pub fn is_tuple_symbol(name: &str) -> (r: bool)
    ensures
        r == (name@.len() > 0 && name@[0] == '('),
{
    if name.unicode_len() == 0 {
        false
    } else {
        name.get_char(0) == '('
    }
}

/// Types written one after another, separated by `, `.
pub fn type_list(types: &Vec<Type>) -> (r: String)
    ensures
        r@ == list_text(view_types(types@)),
{
    let mut out = String::new();
    write_list(types, &mut out);
    assert(out@ =~= list_text(view_types(types@)));
    out
}

/// The refusal of a constant that overflows while it is folded, named after the operation.
pub open spec fn const_overflow_text(doing: Seq<char>) -> Seq<char> {
    "this `const` overflows an Int while "@ + doing
        + " — a constant is folded at compile time, and folding cannot wrap: by the time the program runs there is no arithmetic left to trap on. An Int holds -9223372036854775808 to 9223372036854775807."@
}

/// The refusal of a constant that overflows while `doing` ("adding", "negating", ...).
pub fn const_overflow(doing: &str) -> (r: String)
    ensures
        r@ == const_overflow_text(doing@),
{
    let mut out = String::new();
    append(&mut out, "this `const` overflows an Int while ");
    append(&mut out, doing);
    append(&mut out, " — a constant is folded at compile time, and folding cannot wrap: by the time the program runs there is no arithmetic left to trap on. An Int holds -9223372036854775808 to 9223372036854775807.");
    assert(out@ =~= const_overflow_text(doing@));
    out
}

/// What a folded constant is, in words, for a message: which literal the author wrote.
pub open spec fn const_kind_text(value: TypedExprKind) -> Seq<char> {
    match value {
        TypedExprKind::IntLit(_) => "an Int"@,
        TypedExprKind::DecimalLit { .. } => "a Decimal"@,
        TypedExprKind::BoolLit(_) => "a Bool"@,
        TypedExprKind::StrLit(_) => "a String"@,
        _ => "not a literal"@,
    }
}

/// What a folded constant is, in words: see [`const_kind_text`].
pub fn const_kind_name(value: &TypedExprKind) -> (r: &'static str)
    ensures
        r@ == const_kind_text(*value),
{
    match value {
        TypedExprKind::IntLit(_) => "an Int",
        TypedExprKind::DecimalLit { .. } => "a Decimal",
        TypedExprKind::BoolLit(_) => "a Bool",
        TypedExprKind::StrLit(_) => "a String",
        _ => "not a literal",
    }
}

/// The type a folded constant has: the type of its literal, and for a decimal the declared type,
/// whose scale the folding normalized it to.
pub fn type_of_const_value(value: &TypedExprKind, declared: &Type) -> (r: Type)
    ensures
        r@ == match *value {
            TypedExprKind::IntLit(_) => TypeV::Int,
            TypedExprKind::BoolLit(_) => TypeV::Bool,
            TypedExprKind::StrLit(_) => TypeV::String,
            _ => declared@,
        },
{
    match value {
        TypedExprKind::IntLit(_) => Type::Int,
        TypedExprKind::BoolLit(_) => Type::Bool,
        TypedExprKind::StrLit(_) => Type::String,
        _ => declared.duplicate(),
    }
}

/// The refusal of a name a `const` already owns: a parameter or a `let` may not reuse it.
pub open spec fn shadows_text(name: Seq<char>, ty: TypeV) -> Seq<char> {
    "`"@ + name + "` is already declared as a `const "@ + name + ": "@ + type_text(ty)
        + "` — Burxt does not shadow, and a const is in scope in every function. Use a different name here."@
}

/// The refusal of a name a `const` already owns, or `None` when it is free. `consts` gives each
/// constant's declared type.
pub fn shadows_a_const(consts: &NameMap<Type>, name: &String) -> (r: Option<String>)
    ensures
        match r {
            Some(t) => consts@.contains_key(name@) && t@ == shadows_text(name@, consts@[name@]),
            None => !consts@.contains_key(name@),
        },
{
    match consts.get(name) {
        Some(ty) => {
            let mut out = String::new();
            append(&mut out, "`");
            append(&mut out, name.as_str());
            append(&mut out, "` is already declared as a `const ");
            append(&mut out, name.as_str());
            append(&mut out, ": ");
            ty.write_text(&mut out);
            append(&mut out, "` — Burxt does not shadow, and a const is in scope in every function. Use a different name here.");
            assert(out@ =~= shadows_text(name@, consts@[name@]));
            Some(out)
        },
        None => None,
    }
}

} // verus!
