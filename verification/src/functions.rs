//! A function definition: its parameters, its termination measure, its body and the promise
//! that the body ends by returning.
use vstd::prelude::*;
use crate::ast::{FnDef, FnParam, Marshal};
use crate::contracts::{check_clauses, clauses_checked, clauses_refusal};
use crate::blocks::{block_run, check_body, note_all, notes, placed};
use crate::boundary::marshal_text;
use crate::diagnostics::Diagnostic;
use crate::expansion::{article, article_of};
use crate::messages::{shadows_a_const, shadows_text};
use crate::names::NameMap;
use crate::ty::{Type, TypeV, append, type_text};
use crate::typed::{Span, TypedContract, TypedExpr, TypedFn, TypedStmtKind, block_returns, block_returns_spec};
use crate::walk::{block_calls, check_measure_target, measure_refusal};

verus! {

/// The refusal of an encoding written on the parameter of a Burxt function.
pub open spec fn marshal_param_text(f: Seq<char>, p: Seq<char>, m: Marshal) -> Seq<char> {
    "in `function "@ + f + "`, parameter `"@ + p + "` is marked `as "@ + marshal_text(m)
        + "`, but marshalling only exists where there is a foreign encoding to marshal into. A Burxt-to-Burxt call passes the value itself, exactly — drop the `as "@
        + marshal_text(m) + "`."@
}

/// The refusal of a `mutable` parameter on a `pure` function.
pub open spec fn pure_mutable_text(f: Seq<char>, p: Seq<char>, t: TypeV) -> Seq<char> {
    "`pure function "@ + f + "` cannot take `mutable "@ + p + ": "@ + type_text(t)
        + "`: `pure` means the answer depends on the arguments and nothing else, which is the same thing as changing nothing — and `mutable` says this call changes what the caller passed. Drop one of the two. (It matters more than it looks: a contract clause may call a `pure` function, so this would let a precondition rewrite the data it is checking.)"@
}

/// The refusal of `mutable` on a parameter whose value is copied when it crosses.
pub open spec fn copied_mutable_text(p: Seq<char>, t: TypeV) -> Seq<char> {
    "`mutable "@ + p + ": "@ + type_text(t) + "` says the caller's value may change, and a "@ + type_text(t)
        + " is copied when it crosses — so there would be nothing for the caller to see. If you want a copy to modify inside the body, say so where the copy is: `let mutable "@
        + p + ": "@ + type_text(t) + " = ...;`"@
}

/// The refusal of a second parameter with a name already taken.
pub open spec fn twice_text(f: Seq<char>, p: Seq<char>) -> Seq<char> {
    "function `"@ + f + "` has two parameters named `"@ + p + "`"@
}

/// The refusal of one parameter of function `f`, given the parameters before it; `aggregate`
/// says whether its type travels by a hidden pointer into the caller's storage (and so can be
/// changed for the caller to see).
pub open spec fn fn_param_refusal(
    f: Seq<char>,
    pure: bool,
    p: FnParam,
    aggregate: bool,
    consts: Map<Seq<char>, TypeV>,
    earlier: Seq<FnParam>,
) -> Option<Seq<char>> {
    match p.marshal {
        Some(m) => Some(marshal_param_text(f, p.name@, m)),
        None => if p.writable && pure {
            Some(pure_mutable_text(f, p.name@, p.ty@))
        } else if p.writable && !aggregate {
            Some(copied_mutable_text(p.name@, p.ty@))
        } else if consts.contains_key(p.name@) {
            Some(shadows_text(p.name@, consts[p.name@]))
        } else if exists|j: int| 0 <= j < earlier.len() && (#[trigger] earlier[j]).name@ == p.name@ {
            Some(twice_text(f, p.name@))
        } else {
            None
        },
    }
}

/// The first refusal among the first `k` parameters, in the order written.
pub open spec fn fn_params_refusal(
    f: Seq<char>,
    pure: bool,
    ps: Seq<FnParam>,
    aggregate: Seq<bool>,
    consts: Map<Seq<char>, TypeV>,
    k: int,
) -> Option<Seq<char>>
    decreases k,
{
    if k <= 0 {
        None
    } else {
        match fn_params_refusal(f, pure, ps, aggregate, consts, k - 1) {
            Some(m) => Some(m),
            None => fn_param_refusal(f, pure, ps[k - 1], aggregate[k - 1], consts, ps.take(k - 1)),
        }
    }
}

/// A refusal among the first `k` parameters is the refusal of them all.
proof fn lemma_refusal_sticks(
    f: Seq<char>,
    pure: bool,
    ps: Seq<FnParam>,
    aggregate: Seq<bool>,
    consts: Map<Seq<char>, TypeV>,
    k: int,
    n: int,
)
    requires
        0 <= k <= n,
        fn_params_refusal(f, pure, ps, aggregate, consts, k) is Some,
    ensures
        fn_params_refusal(f, pure, ps, aggregate, consts, n) == fn_params_refusal(f, pure, ps, aggregate, consts, k),
    decreases n - k,
{
    if k < n {
        lemma_refusal_sticks(f, pure, ps, aggregate, consts, k, n - 1);
    }
}

/// The parameters as (name, type) pairs.
pub open spec fn param_pairs(ps: Seq<FnParam>) -> Seq<(Seq<char>, TypeV)> {
    Seq::new(ps.len(), |i: int| (ps[i].name@, ps[i].ty@))
}

/// The view of (name, type) pairs.
pub open spec fn pair_views(ps: Seq<(String, Type)>) -> Seq<(Seq<char>, TypeV)> {
    Seq::new(ps.len(), |i: int| (ps[i].0@, ps[i].1@))
}

/// Checks the parameters of function `f`, in the order written: an encoding (`as ...`) is
/// refused, as is `mutable` on a `pure` function, `mutable` on a value that is copied when it
/// crosses, a name a `const` owns, and a name taken by an earlier parameter. `aggregate` gives,
/// for each parameter, whether its type travels by a hidden pointer. On success, the parameters
/// as (name, type) pairs.
pub fn check_fn_params(f: &FnDef, aggregate: &Vec<bool>, consts: &NameMap<Type>)
    -> (r: Result<Vec<(String, Type)>, String>)
    requires
        aggregate@.len() == f.parameters@.len(),
    ensures
        match fn_params_refusal(f.name@, f.is_pure, f.parameters@, aggregate@, consts@, f.parameters@.len() as int) {
            Some(m) => r matches Err(e) && e@ == m,
            None => r matches Ok(v) && pair_views(v@) == param_pairs(f.parameters@),
        },
{
    let ps = &f.parameters;
    let mut out: Vec<(String, Type)> = Vec::new();
    let mut i: usize = 0;
    while i < ps.len()
        invariant
            0 <= i <= ps@.len(),
            ps == &f.parameters,
            aggregate@.len() == ps@.len(),
            fn_params_refusal(f.name@, f.is_pure, ps@, aggregate@, consts@, i as int) is None,
            out@.len() == i,
            forall|j: int| 0 <= j < i ==> (#[trigger] out@[j]).0@ == ps@[j].name@ && out@[j].1@ == ps@[j].ty@,
        decreases ps.len() - i,
    {
        let p = &ps[i];
        let ghost earlier = ps@.take(i as int);
        let ghost verdict = fn_param_refusal(f.name@, f.is_pure, ps@[i as int], aggregate@[i as int], consts@, earlier);
        match p.marshal {
            Some(m) => {
                let mut e = String::new();
                append(&mut e, "in `function ");
                append(&mut e, f.name.as_str());
                append(&mut e, "`, parameter `");
                append(&mut e, p.name.as_str());
                append(&mut e, "` is marked `as ");
                match m {
                    Marshal::Scaled => append(&mut e, "scaled"),
                }
                append(&mut e, "`, but marshalling only exists where there is a foreign encoding to marshal into. A Burxt-to-Burxt call passes the value itself, exactly — drop the `as ");
                match m {
                    Marshal::Scaled => append(&mut e, "scaled"),
                }
                append(&mut e, "`.");
                proof {
                    assert(e@ =~= marshal_param_text(f.name@, p.name@, m));
                    lemma_refusal_sticks(f.name@, f.is_pure, ps@, aggregate@, consts@, i + 1, ps@.len() as int);
                }
                return Err(e);
            }
            None => {}
        }
        if p.writable && f.is_pure {
            let mut e = String::new();
            append(&mut e, "`pure function ");
            append(&mut e, f.name.as_str());
            append(&mut e, "` cannot take `mutable ");
            append(&mut e, p.name.as_str());
            append(&mut e, ": ");
            p.ty.write_text(&mut e);
            append(&mut e, "`: `pure` means the answer depends on the arguments and nothing else, which is the same thing as changing nothing — and `mutable` says this call changes what the caller passed. Drop one of the two. (It matters more than it looks: a contract clause may call a `pure` function, so this would let a precondition rewrite the data it is checking.)");
            proof {
                assert(e@ =~= pure_mutable_text(f.name@, p.name@, p.ty@));
                    lemma_refusal_sticks(f.name@, f.is_pure, ps@, aggregate@, consts@, i + 1, ps@.len() as int);
            }
            return Err(e);
        }
        if p.writable && !aggregate[i] {
            let mut e = String::new();
            append(&mut e, "`mutable ");
            append(&mut e, p.name.as_str());
            append(&mut e, ": ");
            p.ty.write_text(&mut e);
            append(&mut e, "` says the caller's value may change, and a ");
            p.ty.write_text(&mut e);
            append(&mut e, " is copied when it crosses — so there would be nothing for the caller to see. If you want a copy to modify inside the body, say so where the copy is: `let mutable ");
            append(&mut e, p.name.as_str());
            append(&mut e, ": ");
            p.ty.write_text(&mut e);
            append(&mut e, " = ...;`");
            proof {
                assert(e@ =~= copied_mutable_text(p.name@, p.ty@));
                    lemma_refusal_sticks(f.name@, f.is_pure, ps@, aggregate@, consts@, i + 1, ps@.len() as int);
            }
            return Err(e);
        }
        match shadows_a_const(consts, &p.name) {
            Some(e) => {
                proof {
                    lemma_refusal_sticks(f.name@, f.is_pure, ps@, aggregate@, consts@, i + 1, ps@.len() as int);
                }
                return Err(e);
            }
            None => {}
        }
        let mut j: usize = 0;
        while j < i
            invariant
                0 <= j <= i < ps@.len(),
                ps == &f.parameters,
                p == &ps@[i as int],
                earlier == ps@.take(i as int),
                aggregate@.len() == ps@.len(),
                p.marshal is None,
                !(p.writable && f.is_pure),
                !(p.writable && !aggregate@[i as int]),
                !consts@.contains_key(p.name@),
                fn_params_refusal(f.name@, f.is_pure, ps@, aggregate@, consts@, i as int) is None,
                forall|k: int| 0 <= k < j ==> (#[trigger] ps@[k]).name@ != ps@[i as int].name@,
            decreases i - j,
        {
            if crate::text::same_text(ps[j].name.as_str(), p.name.as_str()) {
                let mut e = String::new();
                append(&mut e, "function `");
                append(&mut e, f.name.as_str());
                append(&mut e, "` has two parameters named `");
                append(&mut e, p.name.as_str());
                append(&mut e, "`");
                proof {
                    assert(earlier[j as int] == ps@[j as int]);
                    assert(e@ =~= twice_text(f.name@, p.name@));
                    lemma_refusal_sticks(f.name@, f.is_pure, ps@, aggregate@, consts@, i + 1, ps@.len() as int);
                }
                return Err(e);
            }
            j = j + 1;
        }
        proof {
            assert forall|k: int| 0 <= k < earlier.len() implies (#[trigger] earlier[k]).name@ != p.name@ by {
                assert(earlier[k] == ps@[k]);
            }
            assert(verdict is None);
        }
        out.push((p.name.clone(), p.ty.duplicate()));
        i = i + 1;
    }
    proof {
        assert(pair_views(out@) =~= param_pairs(ps@));
    }
    Ok(out)
}

/// The refusal of a body that can reach its end without returning.
pub open spec fn return_path_text(f: Seq<char>, t: TypeV) -> Seq<char> {
    "function `"@ + f + "` must end by returning "@ + article(t) + " "@ + type_text(t)
        + " on every path (its last statement must be a `return`, or an if/else where both branches return)"@
}

/// The refusal of a termination measure that is not an Int.
pub open spec fn measure_type_text(text: Seq<char>, t: TypeV) -> Seq<char> {
    "a termination measure must be an Int, but `"@ + text + "` has type "@ + type_text(t)
        + ". A Decimal measure can shrink forever without arriving — 1.00, 0.50, 0.25 — which is the failure `decreases` exists to rule out."@
}

/// What checking function `f` comes to, given what its pieces checked to: `clause_verdicts`
/// holds what checking each `requires` and each `ensures` condition gave, and whether the return
/// type travels through a hidden pointer; `outcomes` is each body statement's verdict, placed
/// where the statement was written; `measure` the checked `decreases` expression (present
/// exactly when `f` declares one); `errors_before` the notes before the body. The order is that
/// of the checker: parameters, the `requires` clauses, the `ensures` clauses, the measure, then
/// the body; the promise to return is held to only when the body raised no error of its own,
/// since a statement that failed is already reported.
pub open spec fn fn_rule(
    f: FnDef,
    aggregate: Seq<bool>,
    consts: Map<Seq<char>, TypeV>,
    clause_verdicts: (Seq<Result<TypedExpr, String>>, Seq<Result<TypedExpr, String>>, bool),
    measure: Option<TypedExpr>,
    outcomes: Seq<(Result<TypedStmtKind, String>, Span)>,
    errors_before: Seq<(Seq<char>, Span)>,
) -> Option<Seq<char>> {
    match fn_params_refusal(f.name@, f.is_pure, f.parameters@, aggregate, consts, f.parameters@.len() as int) {
        Some(m) => Some(m),
        None => match clauses_refusal(f.requires@, clause_verdicts.0, false, result_param(f.parameters@), f.requires@.len() as int) {
            Some(m) => Some(m),
            None => if f.ensures@.len() > 0 && clause_verdicts.2 {
                Some(ensures_aggregate_text(f.name@, f.ret@))
            } else {
                match clauses_refusal(f.ensures@, clause_verdicts.1, true, result_param(f.parameters@), f.ensures@.len() as int) {
                    Some(m) => Some(m),
                    None => measure_and_body_rule(f, measure, outcomes, errors_before),
                }
            },
        },
    }
}

/// Whether checking `f` gets as far as its body: nothing before it was refused.
pub open spec fn reaches_body(
    f: FnDef,
    aggregate: Seq<bool>,
    consts: Map<Seq<char>, TypeV>,
    clause_verdicts: (Seq<Result<TypedExpr, String>>, Seq<Result<TypedExpr, String>>, bool),
    measure: Option<TypedExpr>,
) -> bool {
    &&& fn_params_refusal(f.name@, f.is_pure, f.parameters@, aggregate, consts, f.parameters@.len() as int) is None
    &&& clauses_refusal(f.requires@, clause_verdicts.0, false, result_param(f.parameters@), f.requires@.len() as int) is None
    &&& !(f.ensures@.len() > 0 && clause_verdicts.2)
    &&& clauses_refusal(f.ensures@, clause_verdicts.1, true, result_param(f.parameters@), f.ensures@.len() as int) is None
    &&& (f.decreases is Some ==> block_calls(f.body@, f.name@) && measure.unwrap().ty@ == TypeV::Int)
}

/// Whether a parameter is named `result`.
pub open spec fn result_param(ps: Seq<FnParam>) -> bool {
    exists|i: int| 0 <= i < ps.len() && (#[trigger] ps[i]).name@ == "result"@
}

/// The refusal of `ensures` on a function whose result travels through a hidden pointer.
pub open spec fn ensures_aggregate_text(f: Seq<char>, t: TypeV) -> Seq<char> {
    "`ensures` on `"@ + f + "` is not supported yet: it returns "@ + article(t) + " "@ + type_text(t)
        + ", which travels through a hidden pointer into the caller's storage, so binding `result` to it needs care a scalar does not. Return a scalar, or drop the clause."@
}

/// After the parameters and the clauses: the measure (the function must call itself, and the
/// measure must be an Int), then the body.
pub open spec fn measure_and_body_rule(
    f: FnDef,
    measure: Option<TypedExpr>,
    outcomes: Seq<(Result<TypedStmtKind, String>, Span)>,
    errors_before: Seq<(Seq<char>, Span)>,
) -> Option<Seq<char>> {
    match f.decreases {
        Some(c) => match measure_refusal(f.body@, f.name@, c.text@) {
            Some(m) => Some(m),
            None => if measure matches Some(me) && me.ty@ != TypeV::Int {
                Some(measure_type_text(c.text@, measure.unwrap().ty@))
            } else {
                body_end_rule(f, outcomes, errors_before)
            },
        },
        None => body_end_rule(f, outcomes, errors_before),
    }
}

/// The promise to return, held to only when the body raised no error of its own: a statement
/// that failed is already reported.
pub open spec fn body_end_rule(
    f: FnDef,
    outcomes: Seq<(Result<TypedStmtKind, String>, Span)>,
    errors_before: Seq<(Seq<char>, Span)>,
) -> Option<Seq<char>> {
    let after = note_all(errors_before, block_run(outcomes).1);
    if after.len() == errors_before.len() && !block_returns_spec(block_run(outcomes).0) {
        Some(return_path_text(f.name@, f.ret@))
    } else {
        None
    }
}

/// A function that is accepted, and whose body raised no error of its own, returns on every
/// path; and one that declares a measure, accepted, calls itself with an Int measure.
pub proof fn lemma_accepted_fn_returns(
    f: FnDef,
    aggregate: Seq<bool>,
    consts: Map<Seq<char>, TypeV>,
    clause_verdicts: (Seq<Result<TypedExpr, String>>, Seq<Result<TypedExpr, String>>, bool),
    measure: Option<TypedExpr>,
    outcomes: Seq<(Result<TypedStmtKind, String>, Span)>,
    errors_before: Seq<(Seq<char>, Span)>,
)
    requires
        f.decreases is Some <==> measure is Some,
        fn_rule(f, aggregate, consts, clause_verdicts, measure, outcomes, errors_before) is None,
        note_all(errors_before, block_run(outcomes).1).len() == errors_before.len(),
    ensures
        block_returns_spec(block_run(outcomes).0),
        f.decreases is Some ==> block_calls(f.body@, f.name@) && measure.unwrap().ty@ == TypeV::Int,
{
}

/// Checks function `f` from its checked pieces (see [`fn_rule`]), `verdicts` holding each body
/// statement's verdict in the order written: the body's failures are
/// recorded into `errors` as `gather_block` records them, and a refusal of the function itself
/// is returned. On success the checked function carries `f`'s name, parameters and return type,
/// the statements that checked, its contract clauses checked from `pre` and `post` (what
/// checking each `requires` and each `ensures` condition gave, in the order written), and the
/// measure. `ret_aggregate` says whether the return type travels through a hidden pointer.
pub fn check_fn(
    errors: &mut Vec<Diagnostic>,
    f: &FnDef,
    aggregate: &Vec<bool>,
    consts: &NameMap<Type>,
    pre: Vec<Result<TypedExpr, String>>,
    post: Vec<Result<TypedExpr, String>>,
    ret_aggregate: bool,
    measure: Option<TypedExpr>,
    verdicts: Vec<Result<TypedStmtKind, String>>,
    olds: Vec<TypedExpr>,
) -> (r: Result<TypedFn, String>)
    requires
        aggregate@.len() == f.parameters@.len(),
        f.decreases is Some <==> measure is Some,
        verdicts@.len() == f.body@.len(),
        pre@.len() == f.requires@.len(),
        post@.len() == f.ensures@.len(),
    ensures
        match fn_rule(*f, aggregate@, consts@, (pre@, post@, ret_aggregate), measure, placed(f.body@, verdicts@), notes(old(errors)@)) {
            Some(m) => r matches Err(e) && e@ == m,
            None => r matches Ok(tf) && tf.name@ == f.name@ && pair_views(tf.parameters@) == param_pairs(f.parameters@)
                && tf.ret@ == f.ret@ && tf.body@ == block_run(placed(f.body@, verdicts@)).0
                && clauses_checked(tf.requires@, f.requires@, pre@) && clauses_checked(tf.ensures@, f.ensures@, post@) && tf.olds == olds
                && tf.writable@ == Seq::new(f.parameters@.len(), |i: int| f.parameters@[i].writable)
                && (f.decreases is Some ==> block_calls(f.body@, f.name@) && tf.decreases is Some
                    && tf.decreases.unwrap().cond == measure.unwrap() && tf.decreases.unwrap().cond.ty@ == TypeV::Int)
                && (f.decreases is None ==> tf.decreases is None),
        },
        reaches_body(*f, aggregate@, consts@, (pre@, post@, ret_aggregate), measure)
            ==> notes(final(errors)@) == note_all(notes(old(errors)@), block_run(placed(f.body@, verdicts@)).1),
        !reaches_body(*f, aggregate@, consts@, (pre@, post@, ret_aggregate), measure) ==> final(errors)@ == old(errors)@,
{
    let parameters = match check_fn_params(f, aggregate, consts) {
        Ok(ps) => ps,
        Err(e) => return Err(e),
    };
    let mut env: NameMap<(Type, bool)> = NameMap::new();
    let mut i: usize = 0;
    while i < f.parameters.len()
        invariant
            0 <= i <= f.parameters@.len(),
            forall|s: Seq<char>| #[trigger] env@.contains_key(s)
                <==> exists|j: int| 0 <= j < i && (#[trigger] f.parameters@[j]).name@ == s,
        decreases f.parameters.len() - i,
    {
        let p = &f.parameters[i];
        env.insert(p.name.clone(), (p.ty.duplicate(), p.writable));
        proof {
            assert forall|s: Seq<char>| #[trigger] env@.contains_key(s)
                <==> exists|j: int| 0 <= j < i + 1 && (#[trigger] f.parameters@[j]).name@ == s by {
                if s == p.name@ {
                    assert(f.parameters@[i as int].name@ == s);
                }
            }
        }
        i = i + 1;
    }
    proof {
        reveal_strlit("result");
        assert(env@.contains_key("result"@) == result_param(f.parameters@));
    }
    let pre_checked = match check_clauses(&f.requires, pre, false, &env) {
        Ok(cs) => cs,
        Err(e) => return Err(e),
    };
    if f.ensures.len() > 0 && ret_aggregate {
        let mut e = String::new();
        append(&mut e, "`ensures` on `");
        append(&mut e, f.name.as_str());
        append(&mut e, "` is not supported yet: it returns ");
        append(&mut e, article_of(&f.ret));
        append(&mut e, " ");
        f.ret.write_text(&mut e);
        append(&mut e, ", which travels through a hidden pointer into the caller's storage, so binding `result` to it needs care a scalar does not. Return a scalar, or drop the clause.");
        proof {
            assert(e@ =~= ensures_aggregate_text(f.name@, f.ret@));
        }
        return Err(e);
    }
    let post_checked = match check_clauses(&f.ensures, post, true, &env) {
        Ok(cs) => cs,
        Err(e) => return Err(e),
    };
    let bound = match &f.decreases {
        Some(c) => {
            match check_measure_target(&f.body, &f.name, &c.text) {
                Ok(()) => {}
                Err(e) => return Err(e),
            }
            let me = match measure {
                Some(me) => me,
                None => return Err(String::new()),
            };
            if !me.ty.same(&Type::Int) {
                let mut e = String::new();
                append(&mut e, "a termination measure must be an Int, but `");
                append(&mut e, c.text.as_str());
                append(&mut e, "` has type ");
                me.ty.write_text(&mut e);
                append(&mut e, ". A Decimal measure can shrink forever without arriving — 1.00, 0.50, 0.25 — which is the failure `decreases` exists to rule out.");
                proof {
                    assert(e@ =~= measure_type_text(c.text@, me.ty@));
                }
                return Err(e);
            }
            Some(TypedContract { cond: me, text: c.text.clone(), span: c.span })
        }
        None => None,
    };
    let ghost before = notes(errors@);
    let count_before = errors.len();
    let body = check_body(errors, &f.body, verdicts);
    proof {
        assert(notes(errors@).len() == errors@.len());
        assert(before.len() == count_before);
    }
    if errors.len() == count_before && !block_returns(&body) {
        let mut e = String::new();
        append(&mut e, "function `");
        append(&mut e, f.name.as_str());
        append(&mut e, "` must end by returning ");
        append(&mut e, article_of(&f.ret));
        append(&mut e, " ");
        f.ret.write_text(&mut e);
        append(&mut e, " on every path (its last statement must be a `return`, or an if/else where both branches return)");
        proof {
            assert(e@ =~= return_path_text(f.name@, f.ret@));
        }
        return Err(e);
    }
    let mut writable: Vec<bool> = Vec::new();
    let mut i: usize = 0;
    while i < f.parameters.len()
        invariant
            0 <= i <= f.parameters@.len(),
            writable@ == Seq::new(i as nat, |k: int| f.parameters@[k].writable),
        decreases f.parameters.len() - i,
    {
        writable.push(f.parameters[i].writable);
        proof {
            assert(writable@ =~= Seq::new((i + 1) as nat, |k: int| f.parameters@[k].writable));
        }
        i = i + 1;
    }
    Ok(TypedFn {
        name: f.name.clone(),
        parameters,
        writable,
        ret: f.ret.duplicate(),
        body,
        requires: pre_checked,
        ensures: post_checked,
        decreases: bound,
        olds,
    })
}

} // verus!
