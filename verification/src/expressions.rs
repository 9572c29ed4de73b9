//! The rules that type one expression once its parts are typed: `?`, negation, `!`, `&&` and
//! `||`, arithmetic, comparison, interpolation and a variable's use.
use vstd::prelude::*;
use crate::expansion::{article, article_of};
use crate::generics::{Instances, InstancesV, show, shown};
use crate::messages::type_list;
use crate::names::NameMap;
use crate::storage::{Variants, view_variants};
use crate::text::{nat_text, write_u64};
use crate::ty::{Type, TypeV, append, lemma_view_types, lemma_view_variant, list_text, same_list, type_text, view_types};
use crate::arith::{binop_rule, check_binop, scales_fit, storable, storable_spec};
use crate::members::{check_index, field_answer, index_refusal, resolve_field};
use crate::storage::Layouts;
use crate::compare::{Declarations, check_compare, compare_rule};
use crate::ast::{Expr, ExprKind};
use crate::messages::{needs_region, needs_region_text, unknown_name, unknown_name_text};
use crate::ops::{BinOp, CmpOp, LogicalOp};
use crate::typed::{TypedExpr, TypedExprKind};

verus! {

/// Whether a variant's name marks it as the failure: `Error` or `None`.
pub open spec fn is_failure_name(n: Seq<char>) -> bool {
    n == "Error"@ || n == "None"@
}

/// The failure variant of a two-variant enum: the first one named `Error` or `None`.
pub open spec fn failure_at(vs: Seq<(Seq<char>, Seq<TypeV>)>) -> Option<int> {
    if is_failure_name(vs[0].0) {
        Some(0)
    } else if is_failure_name(vs[1].0) {
        Some(1)
    } else {
        None
    }
}

/// The first variant named `n`, if there is one.
pub open spec fn first_named(vs: Seq<(Seq<char>, Seq<TypeV>)>, n: Seq<char>) -> Option<int> {
    if exists|i: int| 0 <= i < vs.len() && #[trigger] vs[i].0 == n {
        Some(choose|i: int| 0 <= i < vs.len() && #[trigger] vs[i].0 == n && forall|j: int| 0 <= j < i ==> #[trigger] vs[j].0 != n)
    } else {
        None
    }
}

/// What `e?` gives when `e` has type `v` inside a function answering `ret` (`None` at the top
/// level): the success payload's type, the failure's and the success's tags, the enclosing
/// function's enum and the tag of its variant of the same name; or the refusal.
pub open spec fn try_rule(
    enums: Map<Seq<char>, Seq<(Seq<char>, Seq<TypeV>)>>,
    inst: InstancesV,
    depth: nat,
    v: TypeV,
    ret: Option<TypeV>,
) -> Result<(TypeV, int, int, Seq<char>, int), Seq<char>> {
    let shown_v = shown(v, inst, depth);
    match v {
        TypeV::Named(name) => if !enums.contains_key(name) {
            Err("`?` needs an enum with two variants, and "@ + shown_v + " is not an enum."@)
        } else {
            let vs = enums[name];
            if vs.len() != 2 {
                Err("`?` needs an enum with exactly two variants — a success and a failure — and "@ + shown_v + " has "@
                    + nat_text(vs.len()) + ". Use `match`."@)
            } else {
                match failure_at(vs) {
                    None => Err("`?` recognises a failure by the variant's NAME — `Error` or `None` — and "@ + shown_v
                        + " has neither. Rename the failing variant, or use `match`."@),
                    Some(fail) => {
                        let ok = 1 - fail;
                        let fail_name = vs[fail].0;
                        if vs[ok].1.len() != 1 {
                            Err("`?` yields the success variant's value, and `"@ + shown_v + "."@ + vs[ok].0 + "` carries "@
                                + nat_text(vs[ok].1.len()) + ". It must carry exactly one."@)
                        } else {
                            match ret {
                                None => Err("`?` returns the failure from the enclosing function, and a top-level statement has none to return from. Put it in a `function` that answers with a failure of its own, or use `match`."@),
                                Some(rt) => {
                                    let shown_r = shown(rt, inst, depth);
                                    match rt {
                                        TypeV::Named(rn) if enums.contains_key(rn) => {
                                            let rvs = enums[rn];
                                            match first_named(rvs, fail_name) {
                                                None => Err("`?` returns `"@ + fail_name + "` from the enclosing function, and "@
                                                    + shown_r + " has no `"@ + fail_name + "` variant. Make the two agree, or use `match`."@),
                                                Some(rf) => if rvs[rf].1 != vs[fail].1 {
                                                    Err("`?` does not convert between failures: this one carries "@ + list_text(vs[fail].1)
                                                        + ", and the enclosing function's `"@ + fail_name + "` carries "@
                                                        + list_text(rvs[rf].1) + ". Write the `match`, or make the two agree."@)
                                                } else {
                                                    Ok((vs[ok].1[0], fail, ok, rn, rf))
                                                },
                                            }
                                        },
                                        _ => Err("`?` returns the failure from the enclosing function, which answers with "@ + shown_r
                                            + " — not something that can carry a failure. Give it a return type with an `"@ + fail_name
                                            + "` variant, or use `match`."@),
                                    }
                                },
                            }
                        }
                    },
                }
            }
        },
        _ => Err("`?` needs a value that is either a success or a failure, and this is "@ + article(v) + " "@ + shown_v
            + ". It works on an enum with two variants, one of them `Error` or `None`."@),
    }
}

fn is_failure(n: &String) -> (r: bool)
    ensures
        r == is_failure_name(n@),
{
    proof {
        reveal_strlit("Error");
        reveal_strlit("None");
    }
    let e = String::from_str("Error");
    let o = String::from_str("None");
    *n == e || *n == o
}

/// Types `value?`, where `value` is already checked, inside a function that answers
/// `current_ret` (`None` at the top level). `?` gives the success payload, or returns the failure
/// from the enclosing function unchanged: so the value must be a two-variant enum with a variant
/// named `Error` or `None`, the success must carry exactly one value, and the enclosing function
/// must answer an enum whose variant of the failure's name carries the same payload types. Each
/// way of breaking this is refused with its own sentence (see [`try_rule`]).
#[verifier::loop_isolation(false)]
pub fn check_try(
    enums: &NameMap<Variants>,
    instances: &Instances,
    value: TypedExpr,
    current_ret: &Option<Type>,
) -> (r: Result<TypedExpr, String>)
    ensures
        match try_rule(enums@, instances@, instances.count(), value.ty@,
            match current_ret { Some(t) => Some(t@), None => None }) {
            Ok((ty, fail, ok, ret_enum, ret_fail)) => r matches Ok(t) && t.ty@ == ty
                && (t.kind matches TypedExprKind::Try { value: v, fail_tag: f, ok_tag: k, ret_enum: e, ret_fail_tag: rf }
                && *v == value && f == fail as u32 && k == ok as u32 && e@ == ret_enum && rf == ret_fail as u32),
            Err(m) => r matches Err(e) && e@ == m,
        },
{
    let ghost ret_v = match current_ret { Some(t) => Some(t@), None => None::<TypeV> };
    let shown_v = show(&value.ty, instances);
    let name = match &value.ty {
        Type::Named(n) => n,
        _ => {
            let mut out = String::new();
            append(&mut out, "`?` needs a value that is either a success or a failure, and this is ");
            append(&mut out, article_of(&value.ty));
            append(&mut out, " ");
            append(&mut out, shown_v.as_str());
            append(&mut out, ". It works on an enum with two variants, one of them `Error` or `None`.");
            return Err(out);
        },
    };
    let variants = match enums.get(name) {
        Some(v) => v,
        None => {
            let mut out = String::new();
            append(&mut out, "`?` needs an enum with two variants, and ");
            append(&mut out, shown_v.as_str());
            append(&mut out, " is not an enum.");
            return Err(out);
        },
    };
    let vs = &variants.variants;
    let ghost vv = view_variants(vs@);
    assert(vv == enums@[name@]);
    if vs.len() != 2 {
        let mut out = String::new();
        append(&mut out, "`?` needs an enum with exactly two variants — a success and a failure — and ");
        append(&mut out, shown_v.as_str());
        append(&mut out, " has ");
        write_u64(&mut out, vs.len() as u64);
        append(&mut out, ". Use `match`.");
        return Err(out);
    }
    let fail: usize = if is_failure(&vs[0].0) {
        0
    } else if is_failure(&vs[1].0) {
        1
    } else {
        let mut out = String::new();
        append(&mut out, "`?` recognises a failure by the variant's NAME — `Error` or `None` — and ");
        append(&mut out, shown_v.as_str());
        append(&mut out, " has neither. Rename the failing variant, or use `match`.");
        return Err(out);
    };
    assert(failure_at(vv) == Some(fail as int));
    let ok: usize = 1 - fail;
    let fail_name = &vs[fail].0;
    proof {
        lemma_view_types(vs@[ok as int].1@);
        lemma_view_types(vs@[fail as int].1@);
        assert(vv[ok as int].1 == view_types(vs@[ok as int].1@));
    }
    if vs[ok].1.len() != 1 {
        let mut out = String::new();
        append(&mut out, "`?` yields the success variant's value, and `");
        append(&mut out, shown_v.as_str());
        append(&mut out, ".");
        append(&mut out, vs[ok].0.as_str());
        append(&mut out, "` carries ");
        write_u64(&mut out, vs[ok].1.len() as u64);
        append(&mut out, ". It must carry exactly one.");
        return Err(out);
    }
    let ret = match current_ret {
        Some(t) => t,
        None => {
            return Err(String::from_str("`?` returns the failure from the enclosing function, and a top-level statement has none to return from. Put it in a `function` that answers with a failure of its own, or use `match`."));
        },
    };
    let shown_r = show(ret, instances);
    let found = match ret {
        Type::Named(rn) => match enums.get(rn) {
            Some(rv) => Some((rn, rv)),
            None => None,
        },
        _ => None,
    };
    let (ret_name, ret_variants) = match found {
        Some(p) => p,
        None => {
            let mut out = String::new();
            append(&mut out, "`?` returns the failure from the enclosing function, which answers with ");
            append(&mut out, shown_r.as_str());
            append(&mut out, " — not something that can carry a failure. Give it a return type with an `");
            append(&mut out, fail_name.as_str());
            append(&mut out, "` variant, or use `match`.");
            return Err(out);
        },
    };
    let rvs = &ret_variants.variants;
    let ghost rvv = view_variants(rvs@);
    assert(rvv == enums@[ret_name@]);
    let mut at: usize = 0;
    while at < rvs.len()
        invariant
            0 <= at <= rvs@.len(),
            rvv == view_variants(rvs@),
            forall|j: int| 0 <= j < at ==> #[trigger] rvv[j].0 != fail_name@,
        decreases rvs.len() - at,
    {
        if rvs[at].0 == *fail_name {
            break;
        }
        at = at + 1;
    }
    if at == rvs.len() {
        assert(first_named(rvv, fail_name@) is None);
        let mut out = String::new();
        append(&mut out, "`?` returns `");
        append(&mut out, fail_name.as_str());
        append(&mut out, "` from the enclosing function, and ");
        append(&mut out, shown_r.as_str());
        append(&mut out, " has no `");
        append(&mut out, fail_name.as_str());
        append(&mut out, "` variant. Make the two agree, or use `match`.");
        return Err(out);
    }
    assert(rvv[at as int].0 == fail_name@);
    assert(first_named(rvv, fail_name@) == Some(at as int)) by {
        let c = choose|i: int| 0 <= i < rvv.len() && #[trigger] rvv[i].0 == fail_name@
            && forall|j: int| 0 <= j < i ==> #[trigger] rvv[j].0 != fail_name@;
        if c < at {
        } else if c > at {
            assert(rvv[at as int].0 != fail_name@);
        }
    }
    if !same_list(&rvs[at].1, &vs[fail].1) {
        let mut out = String::new();
        append(&mut out, "`?` does not convert between failures: this one carries ");
        let mine = type_list(&vs[fail].1);
        append(&mut out, mine.as_str());
        append(&mut out, ", and the enclosing function's `");
        append(&mut out, fail_name.as_str());
        append(&mut out, "` carries ");
        let theirs = type_list(&rvs[at].1);
        append(&mut out, theirs.as_str());
        append(&mut out, ". Write the `match`, or make the two agree.");
        return Err(out);
    }
    let yielded = vs[ok].1[0].duplicate();
    let ret_enum = ret_name.clone();
    Ok(TypedExpr {
        ty: yielded,
        kind: TypedExprKind::Try {
            value: Box::new(value),
            fail_tag: fail as u32,
            ok_tag: ok as u32,
            ret_enum,
            ret_fail_tag: at as u32,
        },
    })
}

/// How a short-circuiting operator is written.
pub open spec fn logical_text(op: LogicalOp) -> Seq<char> {
    match op {
        LogicalOp::And => "&&"@,
        LogicalOp::Or => "||"@,
    }
}

fn logical_str(op: LogicalOp) -> (r: &'static str)
    ensures
        r@ == logical_text(op),
{
    match op {
        LogicalOp::And => "&&",
        LogicalOp::Or => "||",
    }
}

/// What `-e` gives for a checked `e`: a negated literal folds to the literal of the opposite
/// sign, anything else is wrapped; only an Int or a Decimal can be negated, and a literal with
/// no opposite (the smallest `i64`) is refused.
pub open spec fn negation(t: TypedExpr) -> Result<TypedExpr, Seq<char>> {
    match t.ty@ {
        TypeV::Int | TypeV::Decimal { .. } => match t.kind {
            TypedExprKind::IntLit(n) => if n == i64::MIN {
                Err("integer literal too small"@)
            } else {
                Ok(TypedExpr { ty: t.ty, kind: TypedExprKind::IntLit((-n) as i64) })
            },
            TypedExprKind::DecimalLit { unscaled } => if unscaled == i64::MIN {
                Err("decimal literal too small"@)
            } else {
                Ok(TypedExpr { ty: t.ty, kind: TypedExprKind::DecimalLit { unscaled: (-unscaled) as i64 } })
            },
            _ => Ok(TypedExpr { ty: t.ty, kind: TypedExprKind::Neg(Box::new(t)) }),
        },
        other => Err("`-` needs a number, but this has type "@ + type_text(other)),
    }
}

/// Types `-e` from the checked `e`: see [`negation`].
pub fn check_neg(t: TypedExpr) -> (r: Result<TypedExpr, String>)
    ensures
        match negation(t) {
            Ok(v) => r matches Ok(u) && u.ty@ == v.ty@ && u.kind == v.kind,
            Err(m) => r matches Err(e) && e@ == m,
        },
{
    proof {
        lemma_view_variant(t.ty);
    }
    match &t.ty {
        Type::Int | Type::Decimal { .. } => {},
        _ => {
            let mut out = String::new();
            append(&mut out, "`-` needs a number, but this has type ");
            t.ty.write_text(&mut out);
            return Err(out);
        },
    }
    let ty = t.ty.duplicate();
    match t.kind {
        TypedExprKind::IntLit(n) => if n == i64::MIN {
            Err(String::from_str("integer literal too small"))
        } else {
            Ok(TypedExpr { ty, kind: TypedExprKind::IntLit(-n) })
        },
        TypedExprKind::DecimalLit { unscaled } => if unscaled == i64::MIN {
            Err(String::from_str("decimal literal too small"))
        } else {
            Ok(TypedExpr { ty, kind: TypedExprKind::DecimalLit { unscaled: -unscaled } })
        },
        _ => Ok(TypedExpr { ty, kind: TypedExprKind::Neg(Box::new(t)) }),
    }
}

/// The refusal of `!` on a value of type `t`.
pub open spec fn not_text(t: TypeV) -> Seq<char> {
    "`!` needs a Bool, but this has type "@ + type_text(t) + " — Burxt has no truthiness, so there is nothing to negate."@
}

/// Types `!e` from the checked `e`: a Bool, or refused with [`not_text`].
pub fn check_not(t: TypedExpr) -> (r: Result<TypedExpr, String>)
    ensures
        t.ty@ == TypeV::Bool ==> (r matches Ok(u) && u.ty@ == TypeV::Bool && u.kind == TypedExprKind::Not(Box::new(t))),
        t.ty@ != TypeV::Bool ==> (r matches Err(e) && e@ == not_text(t.ty@)),
{
    proof {
        lemma_view_variant(t.ty);
    }
    if !matches!(t.ty, Type::Bool) {
        let mut out = String::new();
        append(&mut out, "`!` needs a Bool, but this has type ");
        t.ty.write_text(&mut out);
        append(&mut out, " — Burxt has no truthiness, so there is nothing to negate.");
        return Err(out);
    }
    Ok(TypedExpr { ty: Type::Bool, kind: TypedExprKind::Not(Box::new(t)) })
}

/// The refusal of a side of `&&` or `||` that is not a Bool.
pub open spec fn side_text(left: bool, op: LogicalOp, t: TypeV) -> Seq<char> {
    (if left { "the left side of `"@ } else { "the right side of `"@ }) + logical_text(op) + "` must be a Bool, but it has type "@ + type_text(t)
        + " — Burxt has no truthiness."@
}

/// Types `l && r` or `l || r` from the checked left side and the outcome of checking the right
/// side (which is checked only after the left one passed): both must be Bool. The left side is
/// refused first, then a failure to check the right side is passed on, then the right side is
/// refused.
pub fn check_logical(op: LogicalOp, l: TypedExpr, r: Result<TypedExpr, String>) -> (res: Result<TypedExpr, String>)
    ensures
        l.ty@ != TypeV::Bool ==> (res matches Err(e) && e@ == side_text(true, op, l.ty@)),
        l.ty@ == TypeV::Bool ==> match r {
            Err(m) => res matches Err(e) && e@ == m@,
            Ok(rv) => if rv.ty@ != TypeV::Bool {
                res matches Err(e) && e@ == side_text(false, op, rv.ty@)
            } else {
                res matches Ok(u) && u.ty@ == TypeV::Bool
                    && u.kind == TypedExprKind::Logical { op, lhs: Box::new(l), rhs: Box::new(rv) }
            },
        },
{
    proof {
        lemma_view_variant(l.ty);
    }
    if !matches!(l.ty, Type::Bool) {
        let mut out = String::new();
        append(&mut out, "the left side of `");
        append(&mut out, logical_str(op));
        append(&mut out, "` must be a Bool, but it has type ");
        l.ty.write_text(&mut out);
        append(&mut out, " — Burxt has no truthiness.");
        return Err(out);
    }
    let rv = match r {
        Ok(v) => v,
        Err(m) => return Err(m),
    };
    proof {
        lemma_view_variant(rv.ty);
    }
    if !matches!(rv.ty, Type::Bool) {
        let mut out = String::new();
        append(&mut out, "the right side of `");
        append(&mut out, logical_str(op));
        append(&mut out, "` must be a Bool, but it has type ");
        rv.ty.write_text(&mut out);
        append(&mut out, " — Burxt has no truthiness.");
        return Err(out);
    }
    Ok(TypedExpr { ty: Type::Bool, kind: TypedExprKind::Logical { op, lhs: Box::new(l), rhs: Box::new(rv) } })
}

/// The operands of `lhs op rhs`, from checking each against the expected type (`attempts`) and
/// each at its own type (`natural`): the first pair when both passed. Otherwise `*`, which may
/// mix scales (an amount times a rate), takes the second pair when both of those passed; and
/// failing that, the first failure of the first pair is the answer.
pub open spec fn operands_rule(
    op: BinOp,
    attempts: (Result<TypedExpr, String>, Result<TypedExpr, String>),
    natural: (Result<TypedExpr, String>, Result<TypedExpr, String>),
) -> Result<(TypedExpr, TypedExpr), Seq<char>> {
    let first_failure = match attempts.0 {
        Err(m) => m@,
        Ok(_) => match attempts.1 {
            Err(m) => m@,
            Ok(_) => Seq::empty(),
        },
    };
    match attempts {
        (Ok(l), Ok(r)) => Ok((l, r)),
        _ => if op == BinOp::Mul {
            match natural {
                (Ok(l), Ok(r)) => Ok((l, r)),
                _ => Err(first_failure),
            }
        } else {
            Err(first_failure)
        },
    }
}

/// Picks the operands of an arithmetic expression: see [`operands_rule`].
pub fn binary_operands(
    op: BinOp,
    attempts: (Result<TypedExpr, String>, Result<TypedExpr, String>),
    natural: (Result<TypedExpr, String>, Result<TypedExpr, String>),
) -> (r: Result<(TypedExpr, TypedExpr), String>)
    ensures
        match operands_rule(op, attempts, natural) {
            Ok(p) => r == Ok::<(TypedExpr, TypedExpr), String>(p),
            Err(m) => r matches Err(e) && e@ == m,
        },
{
    let (a, b) = attempts;
    let failure = match (a, b) {
        (Ok(l), Ok(r)) => return Ok((l, r)),
        (Err(m), _) => m,
        (Ok(_), Err(m)) => m,
    };
    if op == BinOp::Mul {
        if let (Ok(l), Ok(r)) = natural {
            return Ok((l, r));
        }
    }
    Err(failure)
}

/// Types `lhs op rhs` from its checked operands: the result type is what the arithmetic rule
/// gives for the operand types, the type expected here, and whether a region is open.
pub fn check_binary(op: BinOp, lhs: TypedExpr, rhs: TypedExpr, expected: Option<&Type>, has_region: bool)
    -> (r: Result<TypedExpr, String>)
    requires
        scales_fit(lhs.ty@, rhs.ty@),
    ensures
        match binop_rule(op, lhs.ty@, rhs.ty@, match expected { Some(t) => Some(t@), None => None }, has_region) {
            Ok(t) => r matches Ok(u) && u.ty@ == t && u.kind == TypedExprKind::Binary { op, lhs: Box::new(lhs), rhs: Box::new(rhs) },
            Err(m) => r matches Err(e) && e@ == m,
        },
{
    let ty = match check_binop(op, &lhs.ty, &rhs.ty, expected, has_region) {
        Ok(t) => t,
        Err(e) => return Err(e),
    };
    Ok(TypedExpr { ty, kind: TypedExprKind::Binary { op, lhs: Box::new(lhs), rhs: Box::new(rhs) } })
}

/// Types `lhs op rhs` for a comparison from its checked operands (the right one checked against
/// the left one's type): a Bool, when the comparison rule admits the two types.
pub fn check_comparison(op: CmpOp, lhs: TypedExpr, rhs: TypedExpr, decls: &Declarations) -> (r: Result<TypedExpr, String>)
    requires
        decls.classes.count() < usize::MAX,
    ensures
        match compare_rule(op, lhs.ty@, rhs.ty@, decls@, decls.classes.count() + 1) {
            Ok(_) => r matches Ok(u) && u.ty@ == TypeV::Bool
                && u.kind == TypedExprKind::Compare { op, lhs: Box::new(lhs), rhs: Box::new(rhs) },
            Err(m) => r matches Err(e) && e@ == m,
        },
{
    match check_compare(op, &lhs.ty, &rhs.ty, decls) {
        Ok(()) => {},
        Err(e) => return Err(e),
    }
    Ok(TypedExpr { ty: Type::Bool, kind: TypedExprKind::Compare { op, lhs: Box::new(lhs), rhs: Box::new(rhs) } })
}

/// A piece of an interpolated string once its expression is checked.
pub enum CheckedPart {
    Lit(String),
    Value(TypedExpr),
}

/// The refusal of a value with no display form inside an interpolated string.
pub open spec fn interpolate_text(t: TypeV) -> Seq<char> {
    "cannot interpolate "@ + article(t) + " "@ + type_text(t) + " — only Int, Bool, String and Decimal have a display form so far."@
}

/// The String a piece stands for: literal text as it is, a String value as it is, an Int, a Bool
/// or a Decimal through `to_string`.
pub open spec fn piece(p: CheckedPart) -> Result<TypedExpr, Seq<char>> {
    match p {
        CheckedPart::Lit(text) => Ok(TypedExpr { ty: Type::String, kind: TypedExprKind::StrLit(text) }),
        CheckedPart::Value(t) => match t.ty@ {
            TypeV::String => Ok(t),
            TypeV::Int | TypeV::Bool | TypeV::Decimal { .. } => Ok(TypedExpr { ty: Type::String, kind: TypedExprKind::ToString(Box::new(t)) }),
            other => Err(interpolate_text(other)),
        },
    }
}

/// The pieces joined left to right with `+`, or the refusal of the first piece that has no
/// display form; `None` when there are no pieces.
pub open spec fn joined(parts: Seq<CheckedPart>) -> Result<Option<TypedExpr>, Seq<char>>
    decreases parts.len(),
{
    if parts.len() == 0 {
        Ok(None)
    } else {
        match joined(parts.drop_last()) {
            Err(m) => Err(m),
            Ok(acc) => match piece(parts.last()) {
                Err(m) => Err(m),
                Ok(p) => Ok(Some(match acc {
                    None => p,
                    Some(a) => TypedExpr { ty: Type::String, kind: TypedExprKind::Binary { op: BinOp::Add, lhs: Box::new(a), rhs: Box::new(p) } },
                })),
            },
        }
    }
}

/// What building a String from interpolation is refused with when no region is open.
pub open spec fn interpolation_needs_region() -> Seq<char> {
    needs_region_text("building a String from interpolation allocates (printing one directly does not)"@)
}

proof fn lemma_joined_refused(all: Seq<CheckedPart>, k: int)
    requires
        0 <= k <= all.len(),
        joined(all.take(k)) is Err,
    ensures
        joined(all) == joined(all.take(k)),
    decreases all.len() - k,
{
    if k < all.len() {
        assert(all.take(k + 1).drop_last() =~= all.take(k));
        lemma_joined_refused(all, k + 1);
    } else {
        assert(all.take(k) =~= all);
    }
}

fn joined_piece(p: CheckedPart) -> (r: Result<TypedExpr, String>)
    ensures
        match piece(p) {
            Ok(t) => r matches Ok(u) && u == t && t.ty == Type::String,
            Err(m) => r matches Err(e) && e@ == m,
        },
{
    match p {
        CheckedPart::Lit(text) => Ok(TypedExpr { ty: Type::String, kind: TypedExprKind::StrLit(text) }),
        CheckedPart::Value(t) => {
            proof {
                lemma_view_variant(t.ty);
            }
            match &t.ty {
                Type::String => Ok(t),
                Type::Int | Type::Bool | Type::Decimal { .. } => Ok(TypedExpr { ty: Type::String, kind: TypedExprKind::ToString(Box::new(t)) }),
                _ => {
                    let mut out = String::new();
                    append(&mut out, "cannot interpolate ");
                    append(&mut out, article_of(&t.ty));
                    append(&mut out, " ");
                    t.ty.write_text(&mut out);
                    append(&mut out, " — only Int, Bool, String and Decimal have a display form so far.");
                    Err(out)
                },
            }
        },
    }
}

/// Types an interpolated string whose expressions are already checked, `has_region` saying
/// whether there is a region to build it in: the pieces joined with `+` (see [`joined`]), the
/// empty string literal when there are none.
pub fn interpolate(has_region: bool, parts: Vec<CheckedPart>) -> (r: Result<TypedExpr, String>)
    ensures
        !has_region ==> (r matches Err(e) && e@ == interpolation_needs_region()),
        has_region ==> match joined(parts@) {
            Err(m) => r matches Err(e) && e@ == m,
            Ok(None) => r matches Ok(u) && u.ty@ == TypeV::String && (u.kind matches TypedExprKind::StrLit(s) && s@.len() == 0),
            Ok(Some(t)) => r matches Ok(u) && u == t,
        },
{
    if !has_region {
        return Err(needs_region("building a String from interpolation allocates (printing one directly does not)"));
    }
    let ghost all = parts@;
    let count = parts.len();
    let mut rest = parts;
    let mut acc: Option<TypedExpr> = None;
    let mut i: usize = 0;
    proof {
        assert(all.take(0) =~= Seq::<CheckedPart>::empty());
    }
    while rest.len() > 0
        invariant
            has_region,
            all == parts@,
            all.len() == count,
            i + rest@.len() == all.len(),
            rest@ == all.skip(i as int),
            joined(all.take(i as int)) is Ok,
            joined(all.take(i as int)) == Ok::<Option<TypedExpr>, Seq<char>>(acc),
        decreases rest.len(),
    {
        let ghost before = rest@;
        let p = rest.remove(0);
        proof {
            assert(p == all[i as int]);
            assert(all.take(i + 1).drop_last() =~= all.take(i as int));
            assert(rest@ =~= all.skip(i + 1));
        }
        let t = match joined_piece(p) {
            Ok(t) => t,
            Err(e) => {
                proof {
                    lemma_joined_refused(all, i + 1);
                }
                return Err(e);
            },
        };
        acc = Some(match acc {
            None => t,
            Some(a) => TypedExpr { ty: Type::String, kind: TypedExprKind::Binary { op: BinOp::Add, lhs: Box::new(a), rhs: Box::new(t) } },
        });
        i = i + 1;
    }
    assert(all.take(i as int) =~= all);
    match acc {
        Some(t) => Ok(t),
        None => Ok(TypedExpr { ty: Type::String, kind: TypedExprKind::StrLit(String::new()) }),
    }
}

/// Types the use of variable `name`. `found_const` is what the program's constants hold under
/// the name, if anything: a constant is its folded literal, at its type. Otherwise the variable
/// in scope gives its type (`env` holds each variable's type and whether it is `mutable`), and a
/// name with neither is refused (suggesting the enum variant when `enums` has one so named).
pub fn check_var(
    found_const: Option<(Type, TypedExprKind)>,
    env: &NameMap<(Type, bool)>,
    enums: &Vec<(String, Vec<String>)>,
    name: &String,
) -> (r: Result<TypedExpr, String>)
    ensures
        match found_const {
            Some((t, k)) => r == Ok::<TypedExpr, String>(TypedExpr { ty: t, kind: k }),
            None => if env@.contains_key(name@) {
                r matches Ok(u) && u.ty@ == env@[name@].0 && (u.kind matches TypedExprKind::Var(n) && n@ == name@)
            } else {
                r matches Err(e) && e@ == unknown_name_text(enums@, name@)
            },
        },
{
    if let Some((ty, kind)) = found_const {
        return Ok(TypedExpr { ty, kind });
    }
    match env.get(name) {
        Some(entry) => Ok(TypedExpr { ty: entry.0.duplicate(), kind: TypedExprKind::Var(name.clone()) }),
        None => Err(unknown_name(enums, name)),
    }
}

/// The interface an expression is made into an object of where one is expected: when the type
/// expected here is `dynamic iface`, the expression is neither a call nor a method call (those
/// answer for themselves), and it is not already a variable holding such an object.
pub open spec fn dyn_target(env: Map<Seq<char>, (TypeV, bool)>, e: Expr, expected: Option<TypeV>) -> Option<Seq<char>> {
    match expected {
        Some(TypeV::Dyn(iface)) => {
            let already = match e.kind {
                ExprKind::Var(n) => env.contains_key(n@) && env[n@].0 == TypeV::Dyn(iface),
                _ => false,
            };
            if !already && !(e.kind is MethodCall || e.kind is Call) { Some(iface) } else { None }
        },
        _ => None,
    }
}

/// Whether checking `e` where `expected` is expected begins by making it an interface object,
/// and of which interface: see [`dyn_target`].
pub fn coercion_target(env: &NameMap<(Type, bool)>, e: &Expr, expected: Option<&Type>) -> (r: Option<String>)
    ensures
        match dyn_target(env@, *e, match expected { Some(t) => Some(t@), None => None }) {
            Some(i) => r matches Some(s) && s@ == i,
            None => r is None,
        },
{
    let iface = match expected {
        Some(Type::Dyn(t)) => t,
        _ => {
            proof {
                if let Some(t) = expected {
                    lemma_view_variant(*t);
                }
            }
            return None;
        },
    };
    let already = match &e.kind {
        ExprKind::Var(n) => match env.get(n) {
            Some(entry) => match &entry.0 {
                Type::Dyn(have) => *have == *iface,
                _ => {
                    proof {
                        lemma_view_variant(entry.0);
                    }
                    false
                },
            },
            None => false,
        },
        _ => false,
    };
    if !already && !matches!(e.kind, ExprKind::MethodCall { .. } | ExprKind::Call { .. }) {
        Some(iface.clone())
    } else {
        None
    }
}

/// The checked elements of an array literal, each against `elem`, as far as the first that failed
/// to check or cannot be stored as `elem` (counting from zero, in a growable array's words when
/// `growable`).
pub open spec fn elements_rule(elem: TypeV, es: Seq<Result<TypedExpr, String>>, growable: bool) -> Result<Seq<TypedExpr>, Seq<char>>
    decreases es.len(),
{
    if es.len() == 0 {
        Ok(Seq::empty())
    } else {
        match elements_rule(elem, es.drop_last(), growable) {
            Err(m) => Err(m),
            Ok(ts) => match es.last() {
                Err(m) => Err(m@),
                Ok(t) => if !storable_spec(t.ty@, elem) {
                    Err((if growable { "in this growable array, element "@ } else { "in this array literal, element "@ })
                        + nat_text((es.len() - 1) as nat) + " must be "@ + type_text(elem) + ", but it has type "@ + type_text(t.ty@))
                } else {
                    Ok(ts.push(t))
                },
            },
        }
    }
}

/// What an array literal gives where `expected` is expected, from its elements checked against
/// the element type: a growable array where one is expected, a fixed array of exactly its length
/// where one is expected, and otherwise the refusal that asks for the binding's type. The answer
/// is the literal's type, whether it grows, and its elements.
pub open spec fn array_rule(expected: Option<TypeV>, es: Seq<Result<TypedExpr, String>>) -> Result<(TypeV, bool, Seq<TypedExpr>), Seq<char>> {
    match expected {
        Some(TypeV::Slice(elem)) => match elements_rule(*elem, es, true) {
            Ok(ts) => Ok((TypeV::Slice(elem), true, ts)),
            Err(m) => Err(m),
        },
        Some(TypeV::Array { elem, len }) => if es.len() != len {
            Err("this literal has "@ + nat_text(es.len()) + " value(s), but ["@ + type_text(*elem) + "; "@ + nat_text(len as nat)
                + "] holds exactly "@ + nat_text(len as nat))
        } else {
            match elements_rule(*elem, es, false) {
                Ok(ts) => Ok((TypeV::Array { elem, len }, false, ts)),
                Err(m) => Err(m),
            }
        },
        _ => Err("an array literal does not say whether the array is fixed or growable, so an array binding names its type: `let xs: [Int; 3] = [1, 2, 3];` for a fixed one, or `let mutable xs: [Int] = [];` for one that grows."@),
    }
}

fn array_elements(elem: &Type, elements: Vec<Result<TypedExpr, String>>, growable: bool) -> (r: Result<Vec<TypedExpr>, String>)
    ensures
        match elements_rule(elem@, elements@, growable) {
            Ok(ts) => r matches Ok(v) && v@ == ts,
            Err(m) => r matches Err(e) && e@ == m,
        },
{
    let ghost all = elements@;
    let count = elements.len();
    let mut rest = elements;
    let mut typed: Vec<TypedExpr> = Vec::new();
    let mut i: usize = 0;
    proof {
        assert(all.take(0) =~= Seq::<Result<TypedExpr, String>>::empty());
    }
    while rest.len() > 0
        invariant
            all == elements@,
            all.len() == count,
            i + rest@.len() == all.len(),
            rest@ == all.skip(i as int),
            elements_rule(elem@, all.take(i as int), growable) == Ok::<Seq<TypedExpr>, Seq<char>>(typed@),
        decreases rest.len(),
    {
        let e = rest.remove(0);
        proof {
            assert(e == all[i as int]);
            assert(all.take(i + 1).drop_last() =~= all.take(i as int));
            assert(rest@ =~= all.skip(i + 1));
        }
        let t = match e {
            Ok(t) => t,
            Err(m) => {
                proof {
                    lemma_elements_refused(elem@, all, i + 1, growable);
                }
                return Err(m);
            },
        };
        if !storable(&t.ty, elem) {
            let mut out = String::new();
            if growable {
                append(&mut out, "in this growable array, element ");
            } else {
                append(&mut out, "in this array literal, element ");
            }
            write_u64(&mut out, i as u64);
            append(&mut out, " must be ");
            elem.write_text(&mut out);
            append(&mut out, ", but it has type ");
            t.ty.write_text(&mut out);
            proof {
                lemma_elements_refused(elem@, all, i + 1, growable);
            }
            return Err(out);
        }
        typed.push(t);
        i = i + 1;
    }
    assert(all.take(i as int) =~= all);
    Ok(typed)
}

proof fn lemma_elements_refused(elem: TypeV, all: Seq<Result<TypedExpr, String>>, k: int, growable: bool)
    requires
        0 <= k <= all.len(),
        elements_rule(elem, all.take(k), growable) is Err,
    ensures
        elements_rule(elem, all, growable) == elements_rule(elem, all.take(k), growable),
    decreases all.len() - k,
{
    if k < all.len() {
        assert(all.take(k + 1).drop_last() =~= all.take(k));
        lemma_elements_refused(elem, all, k + 1, growable);
    } else {
        assert(all.take(k) =~= all);
    }
}

/// Types an array literal where `expected` is expected, from its elements, each already checked
/// against the element type that expectation gives: see [`array_rule`]. A growable array is a
/// `SliceLit`, a fixed one an `ArrayLit`.
pub fn check_array_lit(expected: Option<&Type>, elements: Vec<Result<TypedExpr, String>>) -> (r: Result<TypedExpr, String>)
    ensures
        match array_rule(match expected { Some(t) => Some(t@), None => None }, elements@) {
            Ok((ty, growable, ts)) => r matches Ok(u) && u.ty@ == ty && if growable {
                u.kind matches TypedExprKind::SliceLit(v) && v@ == ts
            } else {
                u.kind matches TypedExprKind::ArrayLit(v) && v@ == ts
            },
            Err(m) => r matches Err(e) && e@ == m,
        },
{
    if let Some(Type::Slice(elem)) = expected {
        let typed = match array_elements(elem, elements, true) {
            Ok(v) => v,
            Err(e) => return Err(e),
        };
        return Ok(TypedExpr { ty: Type::Slice(Box::new((**elem).duplicate())), kind: TypedExprKind::SliceLit(typed) });
    }
    let (elem, len) = match expected {
        Some(Type::Array { elem, len }) => (elem, *len),
        _ => {
            proof {
                if let Some(t) = expected {
                    lemma_view_variant(*t);
                }
            }
            return Err(String::from_str("an array literal does not say whether the array is fixed or growable, so an array binding names its type: `let xs: [Int; 3] = [1, 2, 3];` for a fixed one, or `let mutable xs: [Int] = [];` for one that grows."));
        },
    };
    if elements.len() != len as usize {
        let mut out = String::new();
        append(&mut out, "this literal has ");
        write_u64(&mut out, elements.len() as u64);
        append(&mut out, " value(s), but [");
        elem.write_text(&mut out);
        append(&mut out, "; ");
        write_u64(&mut out, len as u64);
        append(&mut out, "] holds exactly ");
        write_u64(&mut out, len as u64);
        return Err(out);
    }
    let typed = match array_elements(elem, elements, false) {
        Ok(v) => v,
        Err(e) => return Err(e),
    };
    Ok(TypedExpr { ty: Type::Array { elem: Box::new((**elem).duplicate()), len }, kind: TypedExprKind::ArrayLit(typed) })
}

/// What `base[index]` gives from the checked base and the outcome of checking the index: an
/// element of a growable array (any Int index), or of a fixed array (an index refused by
/// [`index_refusal`] when a literal is provably out of range); anything else cannot be indexed.
pub open spec fn indexing_rule(base: TypedExpr, index: Result<TypedExpr, String>) -> Result<TypedExpr, Seq<char>> {
    match base.ty@ {
        TypeV::Slice(elem) => match index {
            Err(m) => Err(m@),
            Ok(i) => if i.ty@ != TypeV::Int {
                Err("an index must be an Int, but this one has type "@ + type_text(i.ty@))
            } else {
                Ok(TypedExpr { ty: *base.ty->Slice_0, kind: TypedExprKind::SliceIndex { base: Box::new(base), index: Box::new(i) } })
            },
        },
        TypeV::Array { elem, len } => match index {
            Err(m) => Err(m@),
            Ok(i) => match index_refusal(type_text(base.ty@), len, i) {
                Some(m) => Err(m),
                None => Ok(TypedExpr { ty: *base.ty->Array_elem, kind: TypedExprKind::Index { base: Box::new(base), len, index: Box::new(i) } }),
            },
        },
        other => Err("indexing with `[...]` needs an array, but this has type "@ + type_text(other)),
    }
}

/// Types `base[index]` from the checked base and the outcome of checking the index (which is
/// looked at only when the base can be indexed): see [`indexing_rule`].
pub fn check_indexing(base: TypedExpr, index: Result<TypedExpr, String>) -> (r: Result<TypedExpr, String>)
    ensures
        match indexing_rule(base, index) {
            Ok(t) => r matches Ok(u) && u.ty@ == t.ty@ && u.kind == t.kind,
            Err(m) => r matches Err(e) && e@ == m,
        },
{
    proof {
        lemma_view_variant(base.ty);
    }
    let elem = match &base.ty {
        Type::Slice(elem) => {
            let i = match index {
                Ok(i) => i,
                Err(m) => return Err(m),
            };
            proof {
                lemma_view_variant(i.ty);
            }
            if !matches!(i.ty, Type::Int) {
                let mut out = String::new();
                append(&mut out, "an index must be an Int, but this one has type ");
                i.ty.write_text(&mut out);
                return Err(out);
            }
            let ty = (**elem).duplicate();
            return Ok(TypedExpr { ty, kind: TypedExprKind::SliceIndex { base: Box::new(base), index: Box::new(i) } });
        },
        Type::Array { elem, len } => ((**elem).duplicate(), *len),
        _ => {
            let mut out = String::new();
            append(&mut out, "indexing with `[...]` needs an array, but this has type ");
            base.ty.write_text(&mut out);
            return Err(out);
        },
    };
    let (ty, len) = elem;
    let i = match index {
        Ok(i) => i,
        Err(m) => return Err(m),
    };
    let what = base.ty.text();
    let checked = match check_index(what.as_str(), len, i) {
        Ok(c) => c,
        Err(e) => return Err(e),
    };
    Ok(TypedExpr { ty, kind: TypedExprKind::Index { base: Box::new(base), len, index: Box::new(checked) } })
}

/// `?` hands the failure on unchanged and yields the success's one value: when it is accepted,
/// the value's enum has two variants, the failure (named `Error` or `None`) and the success, the
/// enclosing function's enum has a variant of the failure's name carrying the same payload types,
/// and the result type is the success's payload.
pub proof fn lemma_try_keeps_the_failure(
    enums: Map<Seq<char>, Seq<(Seq<char>, Seq<TypeV>)>>,
    inst: InstancesV,
    depth: nat,
    v: TypeV,
    ret: Option<TypeV>,
)
    requires
        try_rule(enums, inst, depth, v, ret) is Ok,
    ensures
        ({
            let (ty, fail, ok, rn, rf) = try_rule(enums, inst, depth, v, ret)->Ok_0;
            let vs = enums[v->Named_0];
            &&& v is Named && enums.contains_key(v->Named_0)
            &&& vs.len() == 2 && fail + ok == 1 && 0 <= fail <= 1
            &&& is_failure_name(vs[fail].0)
            &&& ret == Some(TypeV::Named(rn)) && enums.contains_key(rn)
            &&& 0 <= rf < enums[rn].len()
            &&& enums[rn][rf].0 == vs[fail].0
            &&& enums[rn][rf].1 == vs[fail].1
            &&& vs[ok].1.len() == 1 && ty == vs[ok].1[0]
        }),
{
    let vs = enums[v->Named_0];
    let fail = failure_at(vs)->Some_0;
    let rn = ret->Some_0->Named_0;
    let rvs = enums[rn];
    let w = choose|i: int| 0 <= i < rvs.len() && #[trigger] rvs[i].0 == vs[fail].0;
    lemma_least_named(rvs, vs[fail].0, w);
}

proof fn lemma_least_named(vs: Seq<(Seq<char>, Seq<TypeV>)>, n: Seq<char>, k: int)
    requires
        0 <= k < vs.len(),
        vs[k].0 == n,
    ensures
        exists|i: int| 0 <= i < vs.len() && #[trigger] vs[i].0 == n && forall|j: int| 0 <= j < i ==> #[trigger] vs[j].0 != n,
    decreases k,
{
    if exists|j: int| 0 <= j < k && #[trigger] vs[j].0 == n {
        let j = choose|j: int| 0 <= j < k && #[trigger] vs[j].0 == n;
        lemma_least_named(vs, n, j);
    } else {
        assert(forall|j: int| 0 <= j < k ==> #[trigger] vs[j].0 != n);
    }
}

/// An array literal that is accepted holds only values storable as its elements, and a fixed
/// array exactly as many as its type says.
pub proof fn lemma_array_elements_fit(expected: Option<TypeV>, es: Seq<Result<TypedExpr, String>>)
    requires
        array_rule(expected, es) is Ok,
    ensures
        ({
            let (ty, growable, ts) = array_rule(expected, es)->Ok_0;
            &&& ts.len() == es.len()
            &&& growable ==> ty is Slice && (forall|i: int| 0 <= i < ts.len() ==> storable_spec((#[trigger] ts[i]).ty@, *ty->Slice_0))
            &&& !growable ==> ty is Array && ts.len() == ty->Array_len
                && (forall|i: int| 0 <= i < ts.len() ==> storable_spec((#[trigger] ts[i]).ty@, *ty->Array_elem))
        }),
{
    match expected {
        Some(TypeV::Slice(elem)) => lemma_elements_fit(*elem, es, true),
        Some(TypeV::Array { elem, len }) => lemma_elements_fit(*elem, es, false),
        _ => {},
    }
}

proof fn lemma_elements_fit(elem: TypeV, es: Seq<Result<TypedExpr, String>>, growable: bool)
    requires
        elements_rule(elem, es, growable) is Ok,
    ensures
        elements_rule(elem, es, growable)->Ok_0.len() == es.len(),
        forall|i: int| 0 <= i < es.len() ==> storable_spec((#[trigger] elements_rule(elem, es, growable)->Ok_0[i]).ty@, elem),
    decreases es.len(),
{
    if es.len() > 0 {
        lemma_elements_fit(elem, es.drop_last(), growable);
    }
}

/// Types `base.field` from the checked base: the field's position and type by the rules of
/// [`crate::members::field_answer`] (`private` listing each class's private fields, `receiver`
/// the class whose body this is).
pub fn check_field_access(
    layouts: &Layouts,
    instances: &Instances,
    private: &NameMap<Vec<String>>,
    receiver: &Option<String>,
    base: TypedExpr,
    field: &String,
) -> (r: Result<TypedExpr, String>)
    ensures
        match field_answer(layouts@, instances@, instances.count(), private@,
            match receiver { Some(c) => Some(c@), None => None }, base.ty@, field@) {
            Ok((i, t)) => r matches Ok(u) && u.ty@ == t
                && u.kind == TypedExprKind::Field { base: Box::new(base), index: i as u32 },
            Err(m) => r matches Err(e) && e@ == m,
        },
{
    let (index, ty) = match resolve_field(layouts, instances, private, receiver, &base.ty, field) {
        Ok(p) => p,
        Err(e) => return Err(e),
    };
    Ok(TypedExpr { ty, kind: TypedExprKind::Field { base: Box::new(base), index } })
}

} // verus!
