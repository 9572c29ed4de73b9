//! A method definition: `self` is bound as the receiver, a parameter may not be `mutable`, and
//! the body must end by returning.
use vstd::prelude::*;
use crate::ast::{FnParam, Marshal, MethodDef};
use crate::blocks::{block_run, check_body, note_all, notes, placed};
use crate::boundary::marshal_text;
use crate::diagnostics::Diagnostic;
use crate::expansion::{article, article_of};
use crate::functions::{pair_views, param_pairs};
use crate::messages::{shadows_a_const, shadows_text};
use crate::names::NameMap;
use crate::ty::{Type, TypeV, append, type_text};
use crate::typed::{Span, TypedContract, TypedExpr, TypedMethod, TypedStmtKind, block_returns, block_returns_spec};

verus! {

/// The method as a reader names it: `Receiver.name`.
pub open spec fn method_text(r: Seq<char>, m: Seq<char>) -> Seq<char> {
    r + "."@ + m
}

/// The refusal of a `mutable` parameter on a method.
pub open spec fn method_mutable_text(r: Seq<char>, m: Seq<char>, p: Seq<char>, t: TypeV) -> Seq<char> {
    "in `"@ + method_text(r, m) + "`, parameter `"@ + p
        + "` is declared `mutable`, which is not available on a METHOD yet — only on a free function. If the method should change its own receiver, write `function (mutable self) "@
        + m + "(...)`; otherwise make it a function, where `mutable "@ + p + ": "@ + type_text(t) + "` works today."@
}

/// The refusal of an encoding written on a method's parameter.
pub open spec fn method_marshal_text(r: Seq<char>, m: Seq<char>, p: Seq<char>, k: Marshal) -> Seq<char> {
    "in `"@ + method_text(r, m) + "`, parameter `"@ + p + "` is marked `as "@ + marshal_text(k)
        + "`, but marshalling only exists at a foreign boundary. A Burxt-to-Burxt call passes the value itself, exactly — drop the `as "@
        + marshal_text(k) + "`."@
}

/// The refusal of a parameter named `self`.
pub open spec fn self_param_text(r: Seq<char>, m: Seq<char>) -> Seq<char> {
    "in `"@ + method_text(r, m) + "`: `self` is already the receiver; parameters cannot reuse the name"@
}

/// The refusal of a second parameter with a name already taken.
pub open spec fn method_twice_text(r: Seq<char>, m: Seq<char>, p: Seq<char>) -> Seq<char> {
    "method `"@ + method_text(r, m) + "` has two parameters named `"@ + p + "`"@
}

/// The refusal of one parameter of method `r.m`, given the parameters before it.
pub open spec fn method_param_refusal(
    r: Seq<char>,
    m: Seq<char>,
    p: FnParam,
    consts: Map<Seq<char>, TypeV>,
    earlier: Seq<FnParam>,
) -> Option<Seq<char>> {
    if p.writable {
        Some(method_mutable_text(r, m, p.name@, p.ty@))
    } else {
        match p.marshal {
            Some(k) => Some(method_marshal_text(r, m, p.name@, k)),
            None => if p.name@ == "self"@ {
                Some(self_param_text(r, m))
            } else if consts.contains_key(p.name@) {
                Some(shadows_text(p.name@, consts[p.name@]))
            } else if exists|j: int| 0 <= j < earlier.len() && (#[trigger] earlier[j]).name@ == p.name@ {
                Some(method_twice_text(r, m, p.name@))
            } else {
                None
            },
        }
    }
}

/// The first refusal among the first `k` parameters, in the order written.
pub open spec fn method_params_refusal(
    r: Seq<char>,
    m: Seq<char>,
    ps: Seq<FnParam>,
    consts: Map<Seq<char>, TypeV>,
    k: int,
) -> Option<Seq<char>>
    decreases k,
{
    if k <= 0 {
        None
    } else {
        match method_params_refusal(r, m, ps, consts, k - 1) {
            Some(t) => Some(t),
            None => method_param_refusal(r, m, ps[k - 1], consts, ps.take(k - 1)),
        }
    }
}

/// A refusal among the first `k` parameters is the refusal of them all.
proof fn lemma_method_refusal_sticks(
    r: Seq<char>,
    m: Seq<char>,
    ps: Seq<FnParam>,
    consts: Map<Seq<char>, TypeV>,
    k: int,
    n: int,
)
    requires
        0 <= k <= n,
        method_params_refusal(r, m, ps, consts, k) is Some,
    ensures
        method_params_refusal(r, m, ps, consts, n) == method_params_refusal(r, m, ps, consts, k),
    decreases n - k,
{
    if k < n {
        lemma_method_refusal_sticks(r, m, ps, consts, k, n - 1);
    }
}

/// Appends `Receiver.name`.
fn write_method(out: &mut String, d: &MethodDef)
    ensures
        final(out)@ == old(out)@ + method_text(d.receiver@, d.name@),
{
    append(out, d.receiver.as_str());
    append(out, ".");
    append(out, d.name.as_str());
}

/// Checks the parameters of method `d`, in the order written: `mutable` is refused, as is an
/// encoding (`as ...`), the name `self`, a name a `const` owns, and a name taken by an earlier
/// parameter. On success, the parameters as (name, type) pairs.
pub fn check_method_params(d: &MethodDef, consts: &NameMap<Type>) -> (r: Result<Vec<(String, Type)>, String>)
    ensures
        match method_params_refusal(d.receiver@, d.name@, d.parameters@, consts@, d.parameters@.len() as int) {
            Some(m) => r matches Err(e) && e@ == m,
            None => r matches Ok(v) && pair_views(v@) == param_pairs(d.parameters@),
        },
{
    let ps = &d.parameters;
    let mut out: Vec<(String, Type)> = Vec::new();
    let mut i: usize = 0;
    while i < ps.len()
        invariant
            0 <= i <= ps@.len(),
            ps == &d.parameters,
            method_params_refusal(d.receiver@, d.name@, ps@, consts@, i as int) is None,
            out@.len() == i,
            forall|j: int| 0 <= j < i ==> (#[trigger] out@[j]).0@ == ps@[j].name@ && out@[j].1@ == ps@[j].ty@,
        decreases ps.len() - i,
    {
        let p = &ps[i];
        let ghost earlier = ps@.take(i as int);
        if p.writable {
            let mut e = String::new();
            append(&mut e, "in `");
            write_method(&mut e, d);
            append(&mut e, "`, parameter `");
            append(&mut e, p.name.as_str());
            append(&mut e, "` is declared `mutable`, which is not available on a METHOD yet — only on a free function. If the method should change its own receiver, write `function (mutable self) ");
            append(&mut e, d.name.as_str());
            append(&mut e, "(...)`; otherwise make it a function, where `mutable ");
            append(&mut e, p.name.as_str());
            append(&mut e, ": ");
            p.ty.write_text(&mut e);
            append(&mut e, "` works today.");
            proof {
                assert(e@ =~= method_mutable_text(d.receiver@, d.name@, p.name@, p.ty@));
                lemma_method_refusal_sticks(d.receiver@, d.name@, ps@, consts@, i + 1, ps@.len() as int);
            }
            return Err(e);
        }
        match p.marshal {
            Some(k) => {
                let mut e = String::new();
                append(&mut e, "in `");
                write_method(&mut e, d);
                append(&mut e, "`, parameter `");
                append(&mut e, p.name.as_str());
                append(&mut e, "` is marked `as ");
                match k {
                    Marshal::Scaled => append(&mut e, "scaled"),
                }
                append(&mut e, "`, but marshalling only exists at a foreign boundary. A Burxt-to-Burxt call passes the value itself, exactly — drop the `as ");
                match k {
                    Marshal::Scaled => append(&mut e, "scaled"),
                }
                append(&mut e, "`.");
                proof {
                    assert(e@ =~= method_marshal_text(d.receiver@, d.name@, p.name@, k));
                    lemma_method_refusal_sticks(d.receiver@, d.name@, ps@, consts@, i + 1, ps@.len() as int);
                }
                return Err(e);
            }
            None => {}
        }
        if crate::text::same_text(p.name.as_str(), "self") {
            let mut e = String::new();
            append(&mut e, "in `");
            write_method(&mut e, d);
            append(&mut e, "`: `self` is already the receiver; parameters cannot reuse the name");
            proof {
                reveal_strlit("self");
                assert(e@ =~= self_param_text(d.receiver@, d.name@));
                lemma_method_refusal_sticks(d.receiver@, d.name@, ps@, consts@, i + 1, ps@.len() as int);
            }
            return Err(e);
        }
        proof {
            reveal_strlit("self");
        }
        match shadows_a_const(consts, &p.name) {
            Some(e) => {
                proof {
                    lemma_method_refusal_sticks(d.receiver@, d.name@, ps@, consts@, i + 1, ps@.len() as int);
                }
                return Err(e);
            }
            None => {}
        }
        let mut j: usize = 0;
        while j < i
            invariant
                0 <= j <= i < ps@.len(),
                ps == &d.parameters,
                p == &ps@[i as int],
                earlier == ps@.take(i as int),
                !p.writable,
                p.marshal is None,
                p.name@ != "self"@,
                !consts@.contains_key(p.name@),
                method_params_refusal(d.receiver@, d.name@, ps@, consts@, i as int) is None,
                forall|k: int| 0 <= k < j ==> (#[trigger] ps@[k]).name@ != ps@[i as int].name@,
            decreases i - j,
        {
            if crate::text::same_text(ps[j].name.as_str(), p.name.as_str()) {
                let mut e = String::new();
                append(&mut e, "method `");
                write_method(&mut e, d);
                append(&mut e, "` has two parameters named `");
                append(&mut e, p.name.as_str());
                append(&mut e, "`");
                proof {
                    assert(earlier[j as int] == ps@[j as int]);
                    assert(e@ =~= method_twice_text(d.receiver@, d.name@, p.name@));
                    lemma_method_refusal_sticks(d.receiver@, d.name@, ps@, consts@, i + 1, ps@.len() as int);
                }
                return Err(e);
            }
            j = j + 1;
        }
        proof {
            assert forall|k: int| 0 <= k < earlier.len() implies (#[trigger] earlier[k]).name@ != p.name@ by {
                assert(earlier[k] == ps@[k]);
            }
        }
        out.push((p.name.clone(), p.ty.duplicate()));
        i = i + 1;
    }
    proof {
        assert(pair_views(out@) =~= param_pairs(ps@));
    }
    Ok(out)
}

/// The refusal of a method body that can reach its end without returning.
pub open spec fn method_return_text(r: Seq<char>, m: Seq<char>, t: TypeV) -> Seq<char> {
    "method `"@ + method_text(r, m) + "` must end by returning "@ + article(t) + " "@ + type_text(t)
        + " on every path (its last statement must be a `return`, or an if/else where both branches return)"@
}

/// What checking method `d` comes to, given each body statement's verdict and place: its
/// parameters first, then its body, which must end by returning on every path.
pub open spec fn method_rule(
    d: MethodDef,
    consts: Map<Seq<char>, TypeV>,
    outcomes: Seq<(Result<TypedStmtKind, String>, Span)>,
) -> Option<Seq<char>> {
    match method_params_refusal(d.receiver@, d.name@, d.parameters@, consts, d.parameters@.len() as int) {
        Some(m) => Some(m),
        None => if block_returns_spec(block_run(outcomes).0) {
            None
        } else {
            Some(method_return_text(d.receiver@, d.name@, d.ret@))
        },
    }
}

/// Checks method `d` from its checked pieces (see [`method_rule`]), `verdicts` holding each body
/// statement's verdict in the order written: the body's failures are
/// recorded into `errors` as `gather_block` records them. On success the checked method
/// carries `d`'s receiver, name, parameters and return type, the statements that checked, and
/// the contract clauses handed in (`pre` and `post`).
pub fn check_method(
    errors: &mut Vec<Diagnostic>,
    d: &MethodDef,
    consts: &NameMap<Type>,
    pre: Vec<TypedContract>,
    post: Vec<TypedContract>,
    verdicts: Vec<Result<TypedStmtKind, String>>,
    olds: Vec<TypedExpr>,
) -> (r: Result<TypedMethod, String>)
    requires
        verdicts@.len() == d.body@.len(),
    ensures
        match method_rule(*d, consts@, placed(d.body@, verdicts@)) {
            Some(m) => r matches Err(e) && e@ == m,
            None => r matches Ok(tm) && tm.receiver@ == d.receiver@ && tm.receiver_mut == d.receiver_mut
                && tm.name@ == d.name@ && pair_views(tm.parameters@) == param_pairs(d.parameters@)
                && tm.ret@ == d.ret@ && tm.body@ == block_run(placed(d.body@, verdicts@)).0
                && tm.requires == pre && tm.ensures == post && tm.olds == olds,
        },
        method_params_refusal(d.receiver@, d.name@, d.parameters@, consts@, d.parameters@.len() as int) is None
            ==> notes(final(errors)@) == note_all(notes(old(errors)@), block_run(placed(d.body@, verdicts@)).1),
{
    let parameters = match check_method_params(d, consts) {
        Ok(ps) => ps,
        Err(e) => return Err(e),
    };
    let body = check_body(errors, &d.body, verdicts);
    if !block_returns(&body) {
        let mut e = String::new();
        append(&mut e, "method `");
        write_method(&mut e, d);
        append(&mut e, "` must end by returning ");
        append(&mut e, article_of(&d.ret));
        append(&mut e, " ");
        d.ret.write_text(&mut e);
        append(&mut e, " on every path (its last statement must be a `return`, or an if/else where both branches return)");
        proof {
            assert(e@ =~= method_return_text(d.receiver@, d.name@, d.ret@));
        }
        return Err(e);
    }
    Ok(TypedMethod {
        receiver: d.receiver.clone(),
        receiver_mut: d.receiver_mut,
        name: d.name.clone(),
        parameters,
        ret: d.ret.duplicate(),
        body,
        requires: pre,
        ensures: post,
        olds,
    })
}

} // verus!
