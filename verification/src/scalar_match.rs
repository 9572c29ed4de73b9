//! A `match` on a scalar: which arms compare against a literal, and which one catches the rest.
//!
//! The rule is the opposite of the enum rule. An enum match refuses a wildcard, because listing
//! every variant is the point; a scalar match requires one, because `Int` cannot be enumerated and
//! a match without a catch-all would leave values with nowhere to go.
use vstd::prelude::*;
use crate::ast::{MatchArm, MatchLiteral};
use crate::text::same_text;
use crate::ty::{Type, TypeV, append, type_text};

verus! {

/// The value of a literal pattern.
pub ghost enum LiteralV {
    Int(i64),
    Text(Seq<char>),
    Truth(bool),
}

pub open spec fn literal_view(l: MatchLiteral) -> LiteralV {
    match l {
        MatchLiteral::Int(n) => LiteralV::Int(n),
        MatchLiteral::Text(s) => LiteralV::Text(s@),
        MatchLiteral::Truth(b) => LiteralV::Truth(b),
    }
}

/// The literal an arm compares against, if it is a literal arm.
pub open spec fn arm_literal(arm: MatchArm) -> Option<LiteralV> {
    match arm.literal {
        Some(l) => Some(literal_view(l)),
        None => None,
    }
}

/// The type a literal has.
pub open spec fn literal_type(l: LiteralV) -> TypeV {
    match l {
        LiteralV::Int(_) => TypeV::Int,
        LiteralV::Text(_) => TypeV::String,
        LiteralV::Truth(_) => TypeV::Bool,
    }
}

/// Whether a literal may stand in a match on `t`: it has type `t` exactly, with the one exception
/// of an integer literal in a match on a `Decimal`.
pub open spec fn literal_fits(t: TypeV, l: LiteralV) -> bool {
    (t is Decimal && l is Int) || literal_type(l) == t
}

pub open spec fn names_a_payload_text(v: Seq<char>) -> Seq<char> {
    "`"@ + v + "` is a literal, so it carries nothing to name. Payload names belong to an enum variant."@
}

pub open spec fn after_wildcard_text(v: Seq<char>) -> Seq<char> {
    "`"@ + v + "` comes after the `_` arm, so it could never run. Put `_` last."@
}

pub open spec fn matched_twice_text(v: Seq<char>) -> Seq<char> {
    "`"@ + v + "` is matched twice in this `match`"@
}

pub open spec fn converts_text(t: TypeV, v: Seq<char>, l: LiteralV) -> Seq<char> {
    "this `match` is on "@ + type_text(t) + ", but `"@ + v + "` is "@ + type_text(literal_type(l))
        + ". There is one equality in Burxt and it never converts."@
}

pub open spec fn two_wildcards_text() -> Seq<char> {
    "this `match` has two `_` arms"@
}

pub open spec fn not_a_pattern_text(t: TypeV, v: Seq<char>) -> Seq<char> {
    "this `match` is on "@ + type_text(t) + ", so `"@ + v
        + "` is not a pattern it can have — a scalar match takes literals and `_`, not variant names."@
}

pub open spec fn no_wildcard_text(t: TypeV) -> Seq<char> {
    "this `match` on "@ + type_text(t)
        + " has no `_` arm. A scalar cannot be enumerated, so a match without a catch-all would leave values with nowhere to go — which is the opposite of an enum match, where `_` is refused because listing every variant is the point."@
}

/// One arm read after the literal arms `cases` (each with its index) and the `_` arm `fallback`,
/// if one came already: the state after it, or the refusal it draws.
pub open spec fn arm_step(
    t: TypeV,
    arm: MatchArm,
    i: int,
    cases: Seq<(int, LiteralV)>,
    fallback: Option<int>,
) -> Result<(Seq<(int, LiteralV)>, Option<int>), Seq<char>> {
    if arm.bindings.len() > 0 {
        Err(names_a_payload_text(arm.variant@))
    } else {
        match arm_literal(arm) {
            Some(lit) => if fallback is Some {
                Err(after_wildcard_text(arm.variant@))
            } else if exists|k: int| 0 <= k < cases.len() && #[trigger] cases[k].1 == lit {
                Err(matched_twice_text(arm.variant@))
            } else if !literal_fits(t, lit) {
                Err(converts_text(t, arm.variant@, lit))
            } else {
                Ok((cases.push((i, lit)), fallback))
            },
            None => if arm.variant@ == "_"@ {
                if fallback is Some {
                    Err(two_wildcards_text())
                } else {
                    Ok((cases, Some(i)))
                }
            } else {
                Err(not_a_pattern_text(t, arm.variant@))
            },
        }
    }
}

/// The first `n` arms read in order, stopping at the first refusal.
pub open spec fn arms_walk(t: TypeV, arms: Seq<MatchArm>, n: nat) -> Result<(Seq<(int, LiteralV)>, Option<int>), Seq<char>>
    decreases n,
{
    if n == 0 {
        Ok((Seq::empty(), None))
    } else {
        match arms_walk(t, arms, (n - 1) as nat) {
            Err(e) => Err(e),
            Ok((cases, fallback)) => arm_step(t, arms[n - 1], n - 1, cases, fallback),
        }
    }
}

/// The plan of a scalar match: the literal arms in the order written, by index, and the `_` arm
/// that catches every other value; or the refusal.
pub open spec fn scalar_plan(t: TypeV, arms: Seq<MatchArm>) -> Result<(Seq<int>, int), Seq<char>> {
    match arms_walk(t, arms, arms.len()) {
        Err(e) => Err(e),
        Ok((cases, fallback)) => match fallback {
            None => Err(no_wildcard_text(t)),
            Some(f) => Ok((cases.map_values(|c: (int, LiteralV)| c.0), f)),
        },
    }
}

/// A refusal met on the way is the refusal of the whole match.
proof fn lemma_refusal_stands(t: TypeV, arms: Seq<MatchArm>, m: nat, e: Seq<char>)
    requires
        m <= arms.len(),
        arms_walk(t, arms, m) == Err::<(Seq<(int, LiteralV)>, Option<int>), Seq<char>>(e),
    ensures
        scalar_plan(t, arms) == Err::<(Seq<int>, int), Seq<char>>(e),
    decreases arms.len() - m,
{
    if m < arms.len() {
        lemma_refusal_stands(t, arms, m + 1, e);
    }
}

fn same_literal(a: &MatchLiteral, b: &MatchLiteral) -> (r: bool)
    ensures
        r == (literal_view(*a) == literal_view(*b)),
{
    match (a, b) {
        (MatchLiteral::Int(x), MatchLiteral::Int(y)) => *x == *y,
        (MatchLiteral::Text(x), MatchLiteral::Text(y)) => same_text(x.as_str(), y.as_str()),
        (MatchLiteral::Truth(x), MatchLiteral::Truth(y)) => *x == *y,
        _ => false,
    }
}

fn fits(ty: &Type, lit: &MatchLiteral) -> (r: bool)
    ensures
        r == literal_fits(ty@, literal_view(*lit)),
{
    match (ty, lit) {
        (Type::Decimal { .. }, MatchLiteral::Int(_)) => true,
        (Type::Int, MatchLiteral::Int(_)) => true,
        (Type::String, MatchLiteral::Text(_)) => true,
        (Type::Bool, MatchLiteral::Truth(_)) => true,
        _ => false,
    }
}

fn literal_type_name(lit: &MatchLiteral) -> (r: &'static str)
    ensures
        r@ == type_text(literal_type(literal_view(*lit))),
{
    match lit {
        MatchLiteral::Int(_) => "Int",
        MatchLiteral::Text(_) => "String",
        MatchLiteral::Truth(_) => "Bool",
    }
}

fn quoted(v: &String, rest: &str) -> (r: String)
    ensures
        r@ == "`"@ + v@ + rest@,
{
    let mut out = String::new();
    append(&mut out, "`");
    append(&mut out, v.as_str());
    append(&mut out, rest);
    out
}

/// Reads the arms of a `match` on a value of type `ty` whose arms compare against literals: the
/// indices of the literal arms in the order written, and the index of the `_` arm. Refused when
/// an arm names payload values, when a literal comes after `_` or is matched twice, when a
/// literal's type is not the matched type (an integer literal against a `Decimal` excepted), when
/// an arm is neither a literal nor `_`, when there are two `_` arms, and when there is none.
pub fn scalar_match_arms(ty: &Type, arms: &Vec<MatchArm>) -> (r: Result<(Vec<usize>, usize), String>)
    ensures
        match r {
            Ok((cases, fallback)) => scalar_plan(ty@, arms@) == Ok::<(Seq<int>, int), Seq<char>>(
                (cases@.map_values(|c: usize| c as int), fallback as int)),
            Err(e) => scalar_plan(ty@, arms@) == Err::<(Seq<int>, int), Seq<char>>(e@),
        },
{
    let ghost t = ty@;
    let ghost mut seen: Seq<(int, LiteralV)> = Seq::empty();
    let mut cases: Vec<usize> = Vec::new();
    let mut fallback: Option<usize> = None;
    let mut i: usize = 0;
    while i < arms.len()
        invariant
            t == ty@,
            0 <= i <= arms.len(),
            arms_walk(t, arms@, i as nat) == Ok::<(Seq<(int, LiteralV)>, Option<int>), Seq<char>>(
                (seen, match fallback { Some(f) => Some(f as int), None => None })),
            cases@.len() == seen.len(),
            forall|k: int| 0 <= k < seen.len() ==> (#[trigger] seen[k]).0 == cases@[k] as int,
            forall|k: int| 0 <= k < seen.len() ==> #[trigger] cases@[k] < arms.len(),
            forall|k: int| 0 <= k < seen.len() ==> arm_literal(arms@[#[trigger] cases@[k] as int]) == Some(seen[k].1),
        decreases arms.len() - i,
    {
        let arm = &arms[i];
        if arm.bindings.len() > 0 {
            proof { lemma_refusal_stands(t, arms@, (i + 1) as nat, names_a_payload_text(arm.variant@)); }
            return Err(quoted(&arm.variant, "` is a literal, so it carries nothing to name. Payload names belong to an enum variant."));
        }
        match &arm.literal {
            Some(lit) => {
                if fallback.is_some() {
                    proof { lemma_refusal_stands(t, arms@, (i + 1) as nat, after_wildcard_text(arm.variant@)); }
                    return Err(quoted(&arm.variant, "` comes after the `_` arm, so it could never run. Put `_` last."));
                }
                let mut k: usize = 0;
                while k < cases.len()
                    invariant
                        0 <= k <= cases.len(),
                        t == ty@,
                        i < arms.len(),
                        fallback is None,
                        arm == &arms@[i as int],
                        arm.literal == Some(*lit),
                        arm.bindings.len() == 0,
                        arms_walk(t, arms@, i as nat) == Ok::<(Seq<(int, LiteralV)>, Option<int>), Seq<char>>(
                            (seen, None)),
                        cases@.len() == seen.len(),
                        forall|j: int| 0 <= j < seen.len() ==> (#[trigger] seen[j]).0 == cases@[j] as int,
                        forall|j: int| 0 <= j < seen.len() ==> #[trigger] cases@[j] < arms.len(),
                        forall|j: int| 0 <= j < seen.len() ==> arm_literal(arms@[#[trigger] cases@[j] as int]) == Some(seen[j].1),
                        forall|j: int| 0 <= j < k ==> (#[trigger] seen[j]).1 != literal_view(*lit),
                    decreases cases.len() - k,
                {
                    let at = cases[k];
                    let earlier = &arms[at];
                    match &earlier.literal {
                        Some(other) => {
                            if same_literal(other, lit) {
                                assert(seen[k as int].1 == literal_view(*lit));
                                proof { lemma_refusal_stands(t, arms@, (i + 1) as nat, matched_twice_text(arm.variant@)); }
                                return Err(quoted(&arm.variant, "` is matched twice in this `match`"));
                            }
                        },
                        None => {},
                    }
                    k = k + 1;
                }
                if !fits(ty, lit) {
                    let mut out = String::new();
                    append(&mut out, "this `match` is on ");
                    ty.write_text(&mut out);
                    append(&mut out, ", but `");
                    append(&mut out, arm.variant.as_str());
                    append(&mut out, "` is ");
                    append(&mut out, literal_type_name(lit));
                    append(&mut out, ". There is one equality in Burxt and it never converts.");
                    assert(out@ =~= converts_text(t, arm.variant@, literal_view(*lit)));
                    proof { lemma_refusal_stands(t, arms@, (i + 1) as nat, out@); }
                    return Err(out);
                }
                let ghost before = cases@;
                proof {
                    seen = seen.push((i as int, literal_view(*lit)));
                }
                cases.push(i);
                assert(arm_literal(arms@[i as int]) == Some(literal_view(*lit)));
                assert(cases@ =~= before.push(i));
            },
            None => {
                if !same_text(arm.variant.as_str(), "_") {
                    let mut out = String::new();
                    append(&mut out, "this `match` is on ");
                    ty.write_text(&mut out);
                    append(&mut out, ", so `");
                    append(&mut out, arm.variant.as_str());
                    append(&mut out, "` is not a pattern it can have — a scalar match takes literals and `_`, not variant names.");
                    assert(out@ =~= not_a_pattern_text(t, arm.variant@));
                    proof { lemma_refusal_stands(t, arms@, (i + 1) as nat, out@); }
                    return Err(out);
                }
                if fallback.is_some() {
                    proof { lemma_refusal_stands(t, arms@, (i + 1) as nat, two_wildcards_text()); }
                    return Err(String::from_str("this `match` has two `_` arms"));
                }
                fallback = Some(i);
            },
        }
        i = i + 1;
    }
    assert(arms@.len() == i as nat);
    match fallback {
        Some(f) => {
            assert(cases@.map_values(|c: usize| c as int) =~= seen.map_values(|c: (int, LiteralV)| c.0));
            Ok((cases, f))
        },
        None => {
            let mut out = String::new();
            append(&mut out, "this `match` on ");
            ty.write_text(&mut out);
            append(&mut out, " has no `_` arm. A scalar cannot be enumerated, so a match without a catch-all would leave values with nowhere to go — which is the opposite of an enum match, where `_` is refused because listing every variant is the point.");
            assert(out@ =~= no_wildcard_text(t));
            Err(out)
        },
    }
}

/// What the first `n` arms look like when they are read without a refusal.
pub open spec fn walk_shape(t: TypeV, arms: Seq<MatchArm>, n: nat, cases: Seq<(int, LiteralV)>, fallback: Option<int>) -> bool {
    &&& forall|i: int| 0 <= i < n ==> (#[trigger] arms[i]).bindings@.len() == 0
    &&& (fallback matches Some(f) ==> f == n - 1 && arm_literal(arms[f]) is None && arms[f].variant@ == "_"@)
    &&& forall|k: int| 0 <= k < cases.len() ==> 0 <= (#[trigger] cases[k]).0 < n && arm_literal(arms[cases[k].0]) == Some(cases[k].1)
        && literal_fits(t, cases[k].1)
    &&& forall|k1: int, k2: int| 0 <= k1 < cases.len() && 0 <= k2 < cases.len() && k1 != k2 ==> (#[trigger] cases[k1]).1 != (#[trigger] cases[k2]).1
    &&& forall|i: int| 0 <= i < n ==> #[trigger] covered(cases, fallback, i)
}

/// Whether arm `i` is the `_` arm or one of the literal arms.
pub open spec fn covered(cases: Seq<(int, LiteralV)>, fallback: Option<int>, i: int) -> bool {
    fallback == Some(i) || exists|k: int| 0 <= k < cases.len() && (#[trigger] cases[k]).0 == i
}

proof fn lemma_walk_shape(t: TypeV, arms: Seq<MatchArm>, n: nat)
    requires
        n <= arms.len(),
        arms_walk(t, arms, n) is Ok,
    ensures
        walk_shape(t, arms, n, arms_walk(t, arms, n)->Ok_0.0, arms_walk(t, arms, n)->Ok_0.1),
    decreases n,
{
    if n > 0 {
        lemma_walk_shape(t, arms, (n - 1) as nat);
        let (cases, fallback) = arms_walk(t, arms, (n - 1) as nat)->Ok_0;
        let (c2, f2) = arms_walk(t, arms, n)->Ok_0;
        let arm = arms[n - 1];
        match arm_literal(arm) {
            Some(lit) => {
                assert(c2 == cases.push((n - 1, lit)));
                assert forall|k1: int, k2: int| 0 <= k1 < c2.len() && 0 <= k2 < c2.len() && k1 != k2
                    implies (#[trigger] c2[k1]).1 != (#[trigger] c2[k2]).1 by {
                    if k1 == cases.len() as int {
                        assert(c2[k2] == cases[k2]);
                    } else if k2 == cases.len() as int {
                        assert(c2[k1] == cases[k1]);
                    } else {
                        assert(c2[k1] == cases[k1] && c2[k2] == cases[k2]);
                    }
                }
                assert forall|i: int| 0 <= i < n implies #[trigger] covered(c2, f2, i) by {
                    if i == n - 1 {
                        assert(c2[cases.len() as int].0 == i);
                    } else {
                        assert(covered(cases, fallback, i));
                        if f2 != Some(i) {
                            let k = choose|k: int| 0 <= k < cases.len() && (#[trigger] cases[k]).0 == i;
                            assert(c2[k] == cases[k]);
                        }
                    }
                }
                assert forall|k: int| 0 <= k < c2.len() implies 0 <= (#[trigger] c2[k]).0 < n && arm_literal(arms[c2[k].0]) == Some(c2[k].1)
                    && literal_fits(t, c2[k].1) by {
                    if k < cases.len() {
                        assert(c2[k] == cases[k]);
                    }
                }
            },
            None => {
                assert(c2 == cases);
                assert forall|i: int| 0 <= i < n implies #[trigger] covered(c2, f2, i) by {
                    if i < n - 1 {
                        assert(covered(cases, fallback, i));
                    }
                }
            },
        }
    }
}

/// What an accepted match on a scalar looks like: its last arm is `_` and no other arm is; every
/// other arm compares against a literal of the scrutinee's type (an integer literal for a
/// Decimal too), no literal comes twice, and no arm names payload values.
pub proof fn lemma_scalar_match_shape(t: TypeV, arms: Seq<MatchArm>)
    requires
        scalar_plan(t, arms) is Ok,
    ensures
        arms.len() > 0,
        scalar_plan(t, arms)->Ok_0.1 == arms.len() - 1,
        arm_literal(arms[arms.len() - 1]) is None && arms[arms.len() - 1].variant@ == "_"@,
        forall|i: int| 0 <= i < arms.len() ==> (#[trigger] arms[i]).bindings@.len() == 0,
        forall|i: int| 0 <= i < arms.len() - 1 ==> ((#[trigger] arm_literal(arms[i])) matches Some(l) && literal_fits(t, l)),
        forall|i: int, j: int| 0 <= i < arms.len() - 1 && 0 <= j < arms.len() - 1 && i != j
            ==> #[trigger] arm_literal(arms[i]) != #[trigger] arm_literal(arms[j]),
{
    lemma_walk_shape(t, arms, arms.len());
    let (cases, fallback) = arms_walk(t, arms, arms.len())->Ok_0;
    assert forall|i: int| 0 <= i < arms.len() - 1 implies ((#[trigger] arm_literal(arms[i])) matches Some(l) && literal_fits(t, l)) by {
        assert(covered(cases, fallback, i));
        let k = choose|k: int| 0 <= k < cases.len() && (#[trigger] cases[k]).0 == i;
    }
    assert forall|i: int, j: int| 0 <= i < arms.len() - 1 && 0 <= j < arms.len() - 1 && i != j
        implies #[trigger] arm_literal(arms[i]) != #[trigger] arm_literal(arms[j]) by {
        assert(covered(cases, fallback, i));
        assert(covered(cases, fallback, j));
        let ki = choose|k: int| 0 <= k < cases.len() && (#[trigger] cases[k]).0 == i;
        let kj = choose|k: int| 0 <= k < cases.len() && (#[trigger] cases[k]).0 == j;
        assert(cases[ki].1 != cases[kj].1);
    }
}

} // verus!
