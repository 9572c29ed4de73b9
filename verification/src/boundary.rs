//! The C boundary: what an `external function` may take and give back.
//!
//! Int and String cross as parameters (a String as a borrowed, read-only `const char*`), as do
//! the C-side integer types. C has no decimal, so a `Decimal` crosses only through a declared
//! encoding that cannot lose it. Returns stay with what needs no owner on the Burxt side.
use vstd::prelude::*;
use crate::ast::{ExternFn, Marshal, Param};
use crate::names::NameMap;
use crate::release::{has_name, listed};
use crate::text::{nat_text, same_text, write_u64};
use crate::ty::{Type, TypeV, append, lemma_view_types, same_list, type_text, view_types};

verus! {

/// The names the language keeps for its built-ins.
pub open spec fn builtin_name(n: Seq<char>) -> bool {
    ||| n == "len"@
    ||| n == "byte_at"@
    ||| n == "push"@
    ||| n == "read_file"@
    ||| n == "to_string"@
    ||| n == "old"@
    ||| n == "substring"@
    ||| n == "truncate"@
    ||| n == "write_file"@
    ||| n == "argument"@
    ||| n == "argument_count"@
    ||| n == "divide_floor"@
    ||| n == "divide_toward_zero"@
    ||| n == "remainder"@
    ||| n == "write_bytes"@
    ||| n == "hash"@
    ||| n == "byte_as_string"@
}

/// The C symbols the runtime itself uses.
pub open spec fn runtime_symbol(n: Seq<char>) -> bool {
    ||| n == "printf"@
    ||| n == "fprintf"@
    ||| n == "fputs"@
    ||| n == "exit"@
    ||| n == "stderr"@
    ||| n == "main"@
}

/// The type a Burxt caller sees for a C-side type: the C integers and widths are `Int` to it,
/// because the conversion happens at the call.
pub open spec fn crossing(t: TypeV) -> TypeV {
    match t {
        TypeV::CInt | TypeV::CDouble | TypeV::Width { .. } => TypeV::Int,
        _ => t,
    }
}

/// The parameter types of an external function as a Burxt caller sees them.
pub open spec fn crossing_all(ps: Seq<Param>) -> Seq<TypeV> {
    Seq::new(ps.len(), |i: int| crossing(ps[i].ty@))
}

/// The word an encoding is written with.
pub open spec fn marshal_text(m: Marshal) -> Seq<char> {
    match m {
        Marshal::Scaled => "scaled"@,
    }
}

/// The refusal of one parameter of external function `f`, if it may not cross.
pub open spec fn param_refusal(f: Seq<char>, p: Param) -> Option<Seq<char>> {
    let pn = p.name@;
    let shown = type_text(p.ty@);
    match p.ty@ {
        TypeV::Decimal { scale, .. } => match p.marshal {
            Some(Marshal::Scaled) => None,
            None => Some("in external function `"@ + f + "`, parameter `"@ + pn + "` is "@ + shown
                + " and C has no decimal type, so the crossing has to say how the value is encoded. Declare `"@
                + pn + ": "@ + shown + " as scaled` to pass the exact unscaled integer (C receives it scaled by 10^"@
                + nat_text(scale as nat) + "), or take a String and pass `to_string("@ + pn + ")` as text."@),
        },
        _ => match p.marshal {
            Some(m) => Some("in external function `"@ + f + "`, parameter `"@ + pn + "` is "@ + shown
                + ", which C holds directly — `as "@ + marshal_text(m)
                + "` only means something for a Decimal, whose scale C has no way to carry."@),
            None => match p.ty@ {
                TypeV::Int | TypeV::String | TypeV::CInt | TypeV::CDouble | TypeV::CPointer | TypeV::Width { .. } => None,
                _ => Some("in external function `"@ + f + "`, parameter `"@ + pn + "` has type "@ + shown
                    + ", but only Int, CInt, a sized width (i32, u8, u32, u64), CDouble, String and a marshalled Decimal may cross the C boundary for now — C has no "@
                    + shown + ", and the raw value would silently lose its meaning."@),
            },
        },
    }
}

/// The refusal of the first parameter, in order, that may not cross.
pub open spec fn first_param_refusal(f: Seq<char>, ps: Seq<Param>) -> Option<Seq<char>>
    decreases ps.len(),
{
    if ps.len() == 0 {
        None
    } else {
        match first_param_refusal(f, ps.drop_last()) {
            Some(m) => Some(m),
            None => param_refusal(f, ps.last()),
        }
    }
}

/// The refusal of a return type, if it may not cross. Returns stay Int-only: Burxt cannot yet
/// track who owns memory a C function returns.
pub open spec fn return_refusal(f: Seq<char>, ret: TypeV) -> Option<Seq<char>> {
    match ret {
        TypeV::CDouble => Some("external function `"@ + f
            + "` returns CDouble, but Burxt has no float type to receive it exactly — a double cannot hold most decimal amounts. Have the C function return the scaled integer (declare `-> Int`), or return it as text."@),
        TypeV::Int => None,
        _ => Some("external function `"@ + f + "` returns "@ + type_text(ret)
            + ", but only Int may cross the C boundary as a return: Burxt cannot yet track who owns what a C function hands back. Have the C function return an integer, declared `-> Int`."@),
    }
}

/// What the checker answers for an external function declaration, given the signatures already
/// declared (`fns`) and which of those are external (`extern_names`).
pub open spec fn extern_verdict(
    fns: Map<Seq<char>, (Seq<Type>, TypeV)>,
    extern_names: Seq<String>,
    e: ExternFn,
) -> Result<(), Seq<char>> {
    let n = e.name@;
    if builtin_name(n) {
        Err("the name `"@ + n + "` is reserved for a built-in"@)
    } else if runtime_symbol(n) {
        Err("external function `"@ + n
            + "`: this symbol is used by the Burxt runtime itself. Call it through a differently-named C wrapper."@)
    } else if fns.contains_key(n) {
        if !listed(extern_names, n) {
            Err("function `"@ + n + "` is defined twice"@)
        } else if view_types(fns[n].0) != crossing_all(e.parameters@) || fns[n].1 != crossing(e.ret@) {
            Err("external function `"@ + n
                + "` is declared twice with different signatures — one symbol cannot be two functions, and a program holding both beliefs would call whichever the linker picked"@)
        } else {
            Ok(())
        }
    } else {
        match first_param_refusal(n, e.parameters@) {
            Some(m) => Err(m),
            None => match return_refusal(n, e.ret@) {
                Some(m) => Err(m),
                None => Ok(()),
            },
        }
    }
}

fn is_builtin(n: &str) -> (r: bool)
    ensures
        r == builtin_name(n@),
{
    same_text(n, "len") || same_text(n, "byte_at") || same_text(n, "push") || same_text(n, "read_file")
        || same_text(n, "to_string") || same_text(n, "old") || same_text(n, "substring")
        || same_text(n, "truncate") || same_text(n, "write_file") || same_text(n, "argument")
        || same_text(n, "argument_count") || same_text(n, "divide_floor")
        || same_text(n, "divide_toward_zero") || same_text(n, "remainder")
        || same_text(n, "write_bytes") || same_text(n, "hash") || same_text(n, "byte_as_string")
}

fn is_runtime_symbol(n: &str) -> (r: bool)
    ensures
        r == runtime_symbol(n@),
{
    same_text(n, "printf") || same_text(n, "fprintf") || same_text(n, "fputs") || same_text(n, "exit")
        || same_text(n, "stderr") || same_text(n, "main")
}

fn crossing_type(t: &Type) -> (r: Type)
    ensures
        r@ == crossing(t@),
{
    match t {
        Type::CInt | Type::CDouble | Type::Width { .. } => Type::Int,
        _ => t.duplicate(),
    }
}

fn check_param(f: &String, p: &Param) -> (r: Option<String>)
    ensures
        match r {
            Some(m) => param_refusal(f@, *p) == Some(m@),
            None => param_refusal(f@, *p) is None,
        },
{
    match &p.ty {
        Type::Decimal { scale, .. } => match p.marshal {
            Some(Marshal::Scaled) => None,
            None => {
                let mut out = String::new();
                append(&mut out, "in external function `");
                append(&mut out, f.as_str());
                append(&mut out, "`, parameter `");
                append(&mut out, p.name.as_str());
                append(&mut out, "` is ");
                p.ty.write_text(&mut out);
                append(&mut out, " and C has no decimal type, so the crossing has to say how the value is encoded. Declare `");
                append(&mut out, p.name.as_str());
                append(&mut out, ": ");
                p.ty.write_text(&mut out);
                append(&mut out, " as scaled` to pass the exact unscaled integer (C receives it scaled by 10^");
                write_u64(&mut out, *scale as u64);
                append(&mut out, "), or take a String and pass `to_string(");
                append(&mut out, p.name.as_str());
                append(&mut out, ")` as text.");
                assert(Some(out@) == param_refusal(f@, *p));
                Some(out)
            },
        },
        _ => match p.marshal {
            Some(Marshal::Scaled) => {
                let mut out = String::new();
                append(&mut out, "in external function `");
                append(&mut out, f.as_str());
                append(&mut out, "`, parameter `");
                append(&mut out, p.name.as_str());
                append(&mut out, "` is ");
                p.ty.write_text(&mut out);
                append(&mut out, ", which C holds directly — `as ");
                append(&mut out, "scaled");
                append(&mut out, "` only means something for a Decimal, whose scale C has no way to carry.");
                assert(out@ =~= "in external function `"@ + f@ + "`, parameter `"@ + p.name@ + "` is "@ + type_text(p.ty@)
                    + ", which C holds directly — `as "@ + marshal_text(Marshal::Scaled)
                    + "` only means something for a Decimal, whose scale C has no way to carry."@);
                Some(out)
            },
            None => match &p.ty {
                Type::Int | Type::String | Type::CInt | Type::CDouble | Type::CPointer | Type::Width { .. } => None,
                _ => {
                    let mut out = String::new();
                    append(&mut out, "in external function `");
                    append(&mut out, f.as_str());
                    append(&mut out, "`, parameter `");
                    append(&mut out, p.name.as_str());
                    append(&mut out, "` has type ");
                    p.ty.write_text(&mut out);
                    append(&mut out, ", but only Int, CInt, a sized width (i32, u8, u32, u64), CDouble, String and a marshalled Decimal may cross the C boundary for now — C has no ");
                    p.ty.write_text(&mut out);
                    append(&mut out, ", and the raw value would silently lose its meaning.");
                    let ghost shown = type_text(p.ty@);
                    assert(out@ =~= "in external function `"@ + f@ + "`, parameter `"@ + p.name@ + "` has type "@ + shown
                        + ", but only Int, CInt, a sized width (i32, u8, u32, u64), CDouble, String and a marshalled Decimal may cross the C boundary for now — C has no "@
                        + shown + ", and the raw value would silently lose its meaning."@);
                    Some(out)
                },
            },
        },
    }
}

/// A refusal met among the first parameters is the refusal of them all.
proof fn lemma_first_refusal_stands(f: Seq<char>, ps: Seq<Param>, k: int)
    requires
        0 <= k <= ps.len(),
        first_param_refusal(f, ps.take(k)) is Some,
    ensures
        first_param_refusal(f, ps) == first_param_refusal(f, ps.take(k)),
    decreases ps.len() - k,
{
    if k < ps.len() {
        assert(ps.take(k + 1).drop_last() =~= ps.take(k));
        lemma_first_refusal_stands(f, ps, k + 1);
    } else {
        assert(ps.take(k) =~= ps);
    }
}

/// Checks an `external function` declaration against the rules of the C boundary: a name kept
/// for a built-in or used by the runtime is refused; a name already declared is accepted again
/// only when the earlier declaration was external too and its signature, as a Burxt caller sees
/// it, is the same; otherwise each parameter, in order, and then the return type must be able to
/// cross. See [`extern_verdict`] for every sentence.
pub fn check_extern(
    fns: &NameMap<(Vec<Type>, Type)>,
    extern_names: &Vec<String>,
    e: &ExternFn,
) -> (r: Result<(), String>)
    ensures
        match r {
            Ok(()) => extern_verdict(fns@, extern_names@, *e) == Ok::<(), Seq<char>>(()),
            Err(m) => extern_verdict(fns@, extern_names@, *e) == Err::<(), Seq<char>>(m@),
        },
{
    let n = &e.name;
    if is_builtin(n.as_str()) {
        let mut out = String::new();
        append(&mut out, "the name `");
        append(&mut out, n.as_str());
        append(&mut out, "` is reserved for a built-in");
        return Err(out);
    }
    if is_runtime_symbol(n.as_str()) {
        let mut out = String::new();
        append(&mut out, "external function `");
        append(&mut out, n.as_str());
        append(&mut out, "`: this symbol is used by the Burxt runtime itself. Call it through a differently-named C wrapper.");
        return Err(out);
    }
    match fns.get(n) {
        Some(declared) => {
            let mut mine: Vec<Type> = Vec::new();
            let mut i: usize = 0;
            while i < e.parameters.len()
                invariant
                    0 <= i <= e.parameters@.len(),
                    mine@.len() == i,
                    forall|k: int| 0 <= k < i ==> (#[trigger] mine@[k])@ == crossing(e.parameters@[k].ty@),
                decreases e.parameters.len() - i,
            {
                mine.push(crossing_type(&e.parameters[i].ty));
                i = i + 1;
            }
            proof {
                lemma_view_types(mine@);
                assert(view_types(mine@) =~= crossing_all(e.parameters@));
            }
            if !has_name(extern_names, n) {
                let mut out = String::new();
                append(&mut out, "function `");
                append(&mut out, n.as_str());
                append(&mut out, "` is defined twice");
                return Err(out);
            }
            let ret = crossing_type(&e.ret);
            if !same_list(&declared.0, &mine) || !declared.1.same(&ret) {
                let mut out = String::new();
                append(&mut out, "external function `");
                append(&mut out, n.as_str());
                append(&mut out, "` is declared twice with different signatures — one symbol cannot be two functions, and a program holding both beliefs would call whichever the linker picked");
                return Err(out);
            }
            Ok(())
        },
        None => {
            let mut i: usize = 0;
            while i < e.parameters.len()
                invariant
                    0 <= i <= e.parameters@.len(),
                    first_param_refusal(n@, e.parameters@.take(i as int)) is None,
                    n == &e.name,
                    !builtin_name(n@),
                    !runtime_symbol(n@),
                    !fns@.contains_key(n@),
                decreases e.parameters.len() - i,
            {
                match check_param(n, &e.parameters[i]) {
                    Some(m) => {
                        proof {
                            assert(e.parameters@.take(i + 1).drop_last() =~= e.parameters@.take(i as int));
                            lemma_first_refusal_stands(n@, e.parameters@, i + 1);
                        }
                        return Err(m);
                    },
                    None => {},
                }
                assert(e.parameters@.take(i + 1).drop_last() =~= e.parameters@.take(i as int));
                i = i + 1;
            }
            assert(e.parameters@.take(i as int) =~= e.parameters@);
            match &e.ret {
                Type::CDouble => {
                    let mut out = String::new();
                    append(&mut out, "external function `");
                    append(&mut out, n.as_str());
                    append(&mut out, "` returns CDouble, but Burxt has no float type to receive it exactly — a double cannot hold most decimal amounts. Have the C function return the scaled integer (declare `-> Int`), or return it as text.");
                    Err(out)
                },
                Type::Int => Ok(()),
                _ => {
                    let mut out = String::new();
                    append(&mut out, "external function `");
                    append(&mut out, n.as_str());
                    append(&mut out, "` returns ");
                    e.ret.write_text(&mut out);
                    append(&mut out, ", but only Int may cross the C boundary as a return: Burxt cannot yet track who owns what a C function hands back. Have the C function return an integer, declared `-> Int`.");
                    assert(Some(out@) == return_refusal(n@, e.ret@));
                    Err(out)
                },
            }
        },
    }
}

} // verus!
