//! The heads of `for` loops: the name they bind, and what they walk.
use vstd::prelude::*;
use crate::expansion::{article, article_of};
use crate::messages::{shadows_a_const, shadows_text};
use crate::names::NameMap;
use crate::text::{int_text, write_i64};
use crate::ty::{Type, TypeV, append, type_text};
use crate::typed::{TypedExpr, TypedExprKind};

verus! {

/// The refusal of a `for` binding named like something already in scope.
pub open spec fn loop_name_refusal(consts: Map<Seq<char>, TypeV>, env: Map<Seq<char>, (TypeV, bool)>, name: Seq<char>) -> Option<Seq<char>> {
    if consts.contains_key(name) {
        Some(shadows_text(name, consts[name]))
    } else if env.contains_key(name) {
        Some("`"@ + name + "` is already declared — Burxt does not allow shadowing, and a `for` binding is a binding. Use a different name."@)
    } else {
        None
    }
}

fn loop_name(consts: &NameMap<Type>, env: &NameMap<(Type, bool)>, name: &String) -> (r: Option<String>)
    ensures
        match loop_name_refusal(consts@, env@, name@) {
            Some(m) => r matches Some(e) && e@ == m,
            None => r is None,
        },
{
    if let Some(m) = shadows_a_const(consts, name) {
        return Some(m);
    }
    if env.get(name).is_some() {
        let mut out = String::new();
        append(&mut out, "`");
        append(&mut out, name.as_str());
        append(&mut out, "` is already declared — Burxt does not allow shadowing, and a `for` binding is a binding. Use a different name.");
        return Some(out);
    }
    None
}

/// What `for name in iterable` walks, from the outcome of checking `iterable` on its own: the
/// elements of an array or a growable array, whose type the name takes. The name must be free; a
/// String is refused with the advice to read its bytes.
pub open spec fn for_rule(
    consts: Map<Seq<char>, TypeV>,
    env: Map<Seq<char>, (TypeV, bool)>,
    name: Seq<char>,
    iterable: Result<TypedExpr, String>,
) -> Result<(TypedExpr, TypeV), Seq<char>> {
    match loop_name_refusal(consts, env, name) {
        Some(m) => Err(m),
        None => match iterable {
            Err(m) => Err(m@),
            Ok(it) => match it.ty@ {
                TypeV::Array { elem, .. } => Ok((it, *elem)),
                TypeV::Slice(elem) => Ok((it, *elem)),
                TypeV::String => Err("`for` iterates an array, and a String is bytes: use `byte_at(s, i)`, which says BYTE so the byte-versus-character question cannot hide."@),
                other => Err("`for` iterates an array, and this is "@ + article(other) + " "@ + type_text(other)),
            },
        },
    }
}

/// Checks the head of `for name in iterable`: see [`for_rule`]. The answer is the checked
/// iterable and the element type the name is bound at inside the body.
pub fn check_for_head(
    consts: &NameMap<Type>,
    env: &NameMap<(Type, bool)>,
    name: &String,
    iterable: Result<TypedExpr, String>,
) -> (r: Result<(TypedExpr, Type), String>)
    ensures
        match for_rule(consts@, env@, name@, iterable) {
            Ok((it, elem)) => r matches Ok((i, e)) && i == it && e@ == elem,
            Err(m) => r matches Err(x) && x@ == m,
        },
{
    if let Some(m) = loop_name(consts, env, name) {
        return Err(m);
    }
    let it = match iterable {
        Ok(it) => it,
        Err(m) => return Err(m),
    };
    proof {
        crate::ty::lemma_view_variant(it.ty);
    }
    let elem = match &it.ty {
        Type::Array { elem, .. } => (**elem).duplicate(),
        Type::Slice(elem) => (**elem).duplicate(),
        Type::String => {
            return Err(String::from_str("`for` iterates an array, and a String is bytes: use `byte_at(s, i)`, which says BYTE so the byte-versus-character question cannot hide."));
        },
        _ => {
            let mut out = String::new();
            append(&mut out, "`for` iterates an array, and this is ");
            append(&mut out, article_of(&it.ty));
            append(&mut out, " ");
            it.ty.write_text(&mut out);
            return Err(out);
        },
    };
    Ok((it, elem))
}

/// The refusal of a range bound that is not an Int.
pub open spec fn bound_text(is_start: bool, t: TypeV) -> Seq<char> {
    "a `for` range counts, so its "@ + (if is_start { "start"@ } else { "end"@ }) + " must be an Int, and this is "@ + article(t) + " "@
        + type_text(t) + ". Ranges are Int-only on purpose: a Decimal range would have to invent a step, and a String range an order."@
}

/// What `for name in start..end` counts over, from the outcomes of checking both bounds against
/// Int: the name must be free, both bounds Ints (the start is checked first), and two literal
/// bounds may not count down.
pub open spec fn range_rule(
    consts: Map<Seq<char>, TypeV>,
    env: Map<Seq<char>, (TypeV, bool)>,
    name: Seq<char>,
    start: Result<TypedExpr, String>,
    end: Result<TypedExpr, String>,
) -> Result<(TypedExpr, TypedExpr), Seq<char>> {
    match loop_name_refusal(consts, env, name) {
        Some(m) => Err(m),
        None => match start {
            Err(m) => Err(m@),
            Ok(s) => match end {
                Err(m) => Err(m@),
                Ok(e) => if s.ty@ != TypeV::Int {
                    Err(bound_text(true, s.ty@))
                } else if e.ty@ != TypeV::Int {
                    Err(bound_text(false, e.ty@))
                } else {
                    match (s.kind, e.kind) {
                        (TypedExprKind::IntLit(a), TypedExprKind::IntLit(b)) => if a > b {
                            Err("`"@ + int_text(a as int) + ".."@ + int_text(b as int)
                                + "` counts down, and a `for` range only counts up — it would run zero times. Both bounds are literals here, so this cannot be anything but a mistake. To walk backwards, count up and subtract: `for k in 0.."@
                                + int_text(a - b) + " { let i = "@ + int_text(a as int) + " - 1 - k; ... }`."@)
                        } else {
                            Ok((s, e))
                        },
                        _ => Ok((s, e)),
                    }
                },
            },
        },
    }
}

fn bound_refusal(is_start: bool, t: &Type) -> (r: String)
    ensures
        r@ == bound_text(is_start, t@),
{
    let mut out = String::new();
    append(&mut out, "a `for` range counts, so its ");
    if is_start {
        append(&mut out, "start");
    } else {
        append(&mut out, "end");
    }
    append(&mut out, " must be an Int, and this is ");
    append(&mut out, article_of(t));
    append(&mut out, " ");
    t.write_text(&mut out);
    append(&mut out, ". Ranges are Int-only on purpose: a Decimal range would have to invent a step, and a String range an order.");
    assert(out@ =~= bound_text(is_start, t@));
    out
}

/// Checks the head of `for name in start..end`: see [`range_rule`]. Two literal bounds that count
/// down are refused with the distance written out, which must fit an Int.
pub fn check_range_head(
    consts: &NameMap<Type>,
    env: &NameMap<(Type, bool)>,
    name: &String,
    start: Result<TypedExpr, String>,
    end: Result<TypedExpr, String>,
) -> (r: Result<(TypedExpr, TypedExpr), String>)
    requires
        (start matches Ok(s) && end matches Ok(e) && s.kind matches TypedExprKind::IntLit(a)
            && e.kind matches TypedExprKind::IntLit(b)) ==> (start->Ok_0.kind->IntLit_0 - end->Ok_0.kind->IntLit_0 <= i64::MAX),
    ensures
        match range_rule(consts@, env@, name@, start, end) {
            Ok(p) => r == Ok::<(TypedExpr, TypedExpr), String>(p),
            Err(m) => r matches Err(x) && x@ == m,
        },
{
    if let Some(m) = loop_name(consts, env, name) {
        return Err(m);
    }
    let s = match start {
        Ok(s) => s,
        Err(m) => return Err(m),
    };
    let e = match end {
        Ok(e) => e,
        Err(m) => return Err(m),
    };
    proof {
        crate::ty::lemma_view_variant(s.ty);
        crate::ty::lemma_view_variant(e.ty);
    }
    if !matches!(s.ty, Type::Int) {
        return Err(bound_refusal(true, &s.ty));
    }
    if !matches!(e.ty, Type::Int) {
        return Err(bound_refusal(false, &e.ty));
    }
    if let (TypedExprKind::IntLit(a), TypedExprKind::IntLit(b)) = (&s.kind, &e.kind) {
        if *a > *b {
            let mut out = String::new();
            append(&mut out, "`");
            write_i64(&mut out, *a);
            append(&mut out, "..");
            write_i64(&mut out, *b);
            append(&mut out, "` counts down, and a `for` range only counts up — it would run zero times. Both bounds are literals here, so this cannot be anything but a mistake. To walk backwards, count up and subtract: `for k in 0..");
            write_i64(&mut out, *a - *b);
            append(&mut out, " { let i = ");
            write_i64(&mut out, *a);
            append(&mut out, " - 1 - k; ... }`.");
            return Err(out);
        }
    }
    Ok((s, e))
}

} // verus!
