//! Contract clauses: `requires` is checked on entry, before there is a result; `ensures` binds
//! `result` to the returned value; every clause is a Bool.
use vstd::prelude::*;
use crate::ast::Contract;
use crate::names::NameMap;
use crate::ty::{Type, TypeV, append, type_text};
use crate::typed::{TypedContract, TypedExpr};

verus! {

/// Whether `s` holds `w` somewhere.
pub open spec fn holds_text(s: Seq<char>, w: Seq<char>) -> bool {
    exists|i: int| 0 <= i && i + w.len() <= s.len() && #[trigger] s.subrange(i, i + w.len()) == w
}

/// Whether `s` holds the word `result` somewhere.
fn says_result(s: &String) -> (r: bool)
    ensures
        r == holds_text(s@, "result"@),
{
    proof {
        reveal_strlit("result");
    }
    let w: &str = "result";
    let n = s.unicode_len();
    if n < 6 {
        proof {
            assert forall|i: int| 0 <= i && i + 6 <= s@.len() implies #[trigger] s@.subrange(i, i + 6) != "result"@ by {}
        }
        return false;
    }
    let mut i: usize = 0;
    while i <= n - 6
        invariant
            n == s@.len(),
            6 <= n,
            w@ == "result"@,
            w@.len() == 6,
            forall|k: int| 0 <= k < i && k + 6 <= n ==> #[trigger] s@.subrange(k, k + 6) != "result"@,
        decreases n - i,
    {
        let mut j: usize = 0;
        let mut same = true;
        while j < 6
            invariant
                n == s@.len(),
                i + 6 <= n,
                w@ == "result"@,
                w@.len() == 6,
                0 <= j <= 6,
                same <==> (forall|m: int| 0 <= m < j ==> s@[i + m] == w@[m]),
            decreases 6 - j,
        {
            if s.as_str().get_char(i + j) != w.get_char(j) {
                same = false;
            }
            j = j + 1;
        }
        if same {
            proof {
                assert(s@.subrange(i as int, i + 6) =~= "result"@);
            }
            return true;
        }
        proof {
            let m = choose|m: int| 0 <= m < 6 && s@[i + m] != w@[m];
            assert(s@.subrange(i as int, i + 6)[m] != "result"@[m]);
        }
        i = i + 1;
    }
    false
}

/// The refusal of `ensures` where something is already called `result`.
pub open spec fn result_taken_text() -> Seq<char> {
    "`ensures` binds the name `result` to the returned value, and something here is already called `result`. Rename it — Burxt does not shadow."@
}

/// The refusal of `result` in a `requires` clause.
pub open spec fn result_in_requires_text() -> Seq<char> {
    "`result` has no meaning in a `requires` clause: it is checked on entry, before there is a result. Use `ensures` for a claim about the return value."@
}

/// The refusal of a clause that is not a Bool.
pub open spec fn clause_type_text(text: Seq<char>, t: TypeV) -> Seq<char> {
    "a contract clause must be a Bool, but `"@ + text + "` has type "@ + type_text(t)
}

/// The refusal of one clause, from what checking its condition gave (`verdict`); `is_post`
/// says whether it is an `ensures` clause, and `taken` whether the name `result` is bound already.
pub open spec fn clause_refusal(c: Contract, verdict: Result<TypedExpr, String>, is_post: bool, taken: bool) -> Option<Seq<char>> {
    if is_post && taken {
        Some(result_taken_text())
    } else {
        match verdict {
            Err(m) => if !is_post && holds_text(m@, "result"@) { Some(result_in_requires_text()) } else { Some(m@) },
            Ok(e) => if e.ty@ != TypeV::Bool { Some(clause_type_text(c.text@, e.ty@)) } else { None },
        }
    }
}

/// The first refusal among the first `k` clauses, in the order written.
pub open spec fn clauses_refusal(cs: Seq<Contract>, vs: Seq<Result<TypedExpr, String>>, is_post: bool, taken: bool, k: int) -> Option<Seq<char>>
    decreases k,
{
    if k <= 0 {
        None
    } else {
        match clauses_refusal(cs, vs, is_post, taken, k - 1) {
            Some(m) => Some(m),
            None => clause_refusal(cs[k - 1], vs[k - 1], is_post, taken),
        }
    }
}

/// Whether `out` is the clauses `cs` checked: each one's condition as its verdict gave it, with
/// its text and place.
pub open spec fn clauses_checked(out: Seq<TypedContract>, cs: Seq<Contract>, vs: Seq<Result<TypedExpr, String>>) -> bool {
    &&& out.len() == cs.len()
    &&& forall|i: int| 0 <= i < cs.len() ==> vs[i] is Ok
        && (#[trigger] out[i]).cond == vs[i]->Ok_0 && out[i].text@ == cs[i].text@ && out[i].span == cs[i].span
}

/// A refusal among the first `k` clauses is the refusal of them all.
proof fn lemma_clause_refusal_sticks(cs: Seq<Contract>, vs: Seq<Result<TypedExpr, String>>, is_post: bool, taken: bool, k: int, n: int)
    requires
        0 <= k <= n,
        clauses_refusal(cs, vs, is_post, taken, k) is Some,
    ensures
        clauses_refusal(cs, vs, is_post, taken, n) == clauses_refusal(cs, vs, is_post, taken, k),
    decreases n - k,
{
    if k < n {
        lemma_clause_refusal_sticks(cs, vs, is_post, taken, k, n - 1);
    }
}

/// Checks a run of contract clauses from what checking each condition gave (`verdicts`, in the
/// order written), in the scope `env` of the parameters: for `ensures` clauses (`is_post`), the name `result` may
/// not be taken already; a failure that mentions `result` in a `requires` clause is answered
/// with why `result` means nothing there; and every clause must be a Bool. On success, each
/// clause checked, with its text and place.
pub fn check_clauses(
    clauses: &Vec<Contract>,
    verdicts: Vec<Result<TypedExpr, String>>,
    is_post: bool,
    env: &NameMap<(Type, bool)>,
) -> (r: Result<Vec<TypedContract>, String>)
    requires
        verdicts@.len() == clauses@.len(),
    ensures
        ({
            let taken = env@.contains_key("result"@);
            match clauses_refusal(clauses@, verdicts@, is_post, taken, clauses@.len() as int) {
                Some(m) => r matches Err(e) && e@ == m,
                None => r matches Ok(out) && clauses_checked(out@, clauses@, verdicts@),
            }
        }),
{
    let ghost vs = verdicts@;
    let name = String::from_str("result");
    proof {
        reveal_strlit("result");
    }
    let taken = env.get(&name).is_some();
    let mut rest = verdicts;
    let mut out: Vec<TypedContract> = Vec::new();
    let mut i: usize = 0;
    let total: usize = rest.len();
    while rest.len() > 0
        invariant
            vs == verdicts@,
            vs.len() == clauses@.len(),
            vs.len() == total,
            taken == env@.contains_key("result"@),
            i + rest@.len() == vs.len(),
            rest@ == vs.subrange(i as int, vs.len() as int),
            clauses_refusal(clauses@, vs, is_post, taken, i as int) is None,
            out@.len() == i,
            forall|k: int| 0 <= k < i ==> vs[k] is Ok
                && (#[trigger] out@[k]).cond == vs[k]->Ok_0 && out@[k].text@ == clauses@[k].text@ && out@[k].span == clauses@[k].span,
        decreases rest.len(),
    {
        proof {
            reveal_strlit("result");
            assert(rest@[0] == vs[i as int]);
        }
        let verdict = rest.remove(0);
        let c = &clauses[i];
        if is_post && taken {
            let mut e = String::new();
            append(&mut e, "`ensures` binds the name `result` to the returned value, and something here is already called `result`. Rename it — Burxt does not shadow.");
            proof {
                assert(e@ =~= result_taken_text());
                assert(clause_refusal(clauses@[i as int], vs[i as int], is_post, taken) == Some(result_taken_text()));
                lemma_clause_refusal_sticks(clauses@, vs, is_post, taken, i + 1, vs.len() as int);
            }
            return Err(e);
        }
        match verdict {
            Err(m) => {
                if !is_post && says_result(&m) {
                    let mut e = String::new();
                    append(&mut e, "`result` has no meaning in a `requires` clause: it is checked on entry, before there is a result. Use `ensures` for a claim about the return value.");
                    proof {
                        assert(e@ =~= result_in_requires_text());
                        assert(clause_refusal(clauses@[i as int], vs[i as int], is_post, taken) == Some(result_in_requires_text()));
                        lemma_clause_refusal_sticks(clauses@, vs, is_post, taken, i + 1, vs.len() as int);
                    }
                    return Err(e);
                }
                proof {
                    assert(clause_refusal(clauses@[i as int], vs[i as int], is_post, taken) == Some(m@));
                    lemma_clause_refusal_sticks(clauses@, vs, is_post, taken, i + 1, vs.len() as int);
                }
                return Err(m);
            }
            Ok(cond) => {
                if !cond.ty.same(&Type::Bool) {
                    let mut e = String::new();
                    append(&mut e, "a contract clause must be a Bool, but `");
                    append(&mut e, c.text.as_str());
                    append(&mut e, "` has type ");
                    cond.ty.write_text(&mut e);
                    proof {
                        assert(e@ =~= clause_type_text(c.text@, cond.ty@));
                        lemma_clause_refusal_sticks(clauses@, vs, is_post, taken, i + 1, vs.len() as int);
                    }
                    return Err(e);
                }
                out.push(TypedContract { cond, text: c.text.clone(), span: c.span });
            }
        }
        i = i + 1;
    }
    Ok(out)
}

} // verus!
