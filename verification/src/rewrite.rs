//! Rewriting the types written inside a body: when a generic is specialised, the types its body
//! declares (`let best: T = xs[0];`) name its parameters too, and are substituted with the rest.
use vstd::prelude::*;
use crate::ast::{MatchArm, Param, Stmt, StmtKind};
use crate::expansion::{Expansion, ExpansionV, expanded, expanded_list};
use crate::generics::{TypeMap, subst, substitute};
use crate::ty::{Type, TypeV};

verus! {

/// A declared type, if any, with the substitution applied.
pub open spec fn declared_substituted(a: Option<Type>, b: Option<Type>, m: Map<Seq<char>, TypeV>) -> bool {
    match (a, b) {
        (None, None) => true,
        (Some(x), Some(y)) => y@ == subst(x@, m),
        _ => false,
    }
}

/// Statement `b` is statement `a` with substitution `m` applied to every type declared in it,
/// however deeply nested, and nothing else changed.
pub open spec fn stmt_substituted(a: Stmt, b: Stmt, m: Map<Seq<char>, TypeV>) -> bool
    decreases a,
{
    match a.kind {
        StmtKind::Let { name, mutable, declared, value } => b.kind matches StmtKind::Let { name: n, mutable: u, declared: d, value: v }
            && n == name && u == mutable && v == value && declared_substituted(declared, d, m),
        StmtKind::While { cond, body } => b.kind matches StmtKind::While { cond: c, body: x }
            && c == cond && block_substituted(body@, x@, m),
        StmtKind::For { name, iterable, body } => b.kind matches StmtKind::For { name: n, iterable: i, body: x }
            && n == name && i == iterable && block_substituted(body@, x@, m),
        StmtKind::ForRange { name, start, end, body } => b.kind matches StmtKind::ForRange { name: n, start: s, end: e, body: x }
            && n == name && s == start && e == end && block_substituted(body@, x@, m),
        StmtKind::Region { name, body } => b.kind matches StmtKind::Region { name: n, body: x }
            && n == name && block_substituted(body@, x@, m),
        StmtKind::If { cond, then_block, else_block } => b.kind matches StmtKind::If { cond: c, then_block: t, else_block: e }
            && c == cond && block_substituted(then_block@, t@, m) && match (else_block, e) {
                (None, None) => true,
                (Some(x), Some(y)) => block_substituted(x@, y@, m),
                _ => false,
            },
        StmtKind::Match { value, arms } => b.kind matches StmtKind::Match { value: v, arms: x }
            && v == value && arms_substituted(arms@, x@, m),
        _ => b == a,
    }
}

/// Each statement of `b` is the one of `a` at its position, substituted.
pub open spec fn block_substituted(a: Seq<Stmt>, b: Seq<Stmt>, m: Map<Seq<char>, TypeV>) -> bool
    decreases a,
{
    a.len() == b.len() && (a.len() == 0 || (block_substituted(a.drop_last(), b.drop_last(), m)
        && stmt_substituted(a.last(), b.last(), m)))
}

/// Each arm of `b` is the one of `a` at its position with its body substituted.
pub open spec fn arms_substituted(a: Seq<MatchArm>, b: Seq<MatchArm>, m: Map<Seq<char>, TypeV>) -> bool
    decreases a,
{
    a.len() == b.len() && (a.len() == 0 || (arms_substituted(a.drop_last(), b.drop_last(), m)
        && b.last().variant == a.last().variant && b.last().bindings == a.last().bindings
        && b.last().literal == a.last().literal && block_substituted(a.last().body@, b.last().body@, m)))
}

/// One statement with the substitution applied to the types declared in it.
fn substituted(st: Stmt, map: &TypeMap) -> (r: Stmt)
    ensures
        stmt_substituted(st, r, map@),
    decreases st,
{
    let span = st.span;
    match st.kind {
        StmtKind::Let { name, mutable, declared, value } => {
            let declared = match declared {
                Some(t) => Some(substitute(&t, map)),
                None => None,
            };
            Stmt { kind: StmtKind::Let { name, mutable, declared, value }, span }
        },
        StmtKind::While { cond, body } => {
            let mut body = body;
            substitute_in_block(&mut body, map);
            Stmt { kind: StmtKind::While { cond, body }, span }
        },
        StmtKind::For { name, iterable, body } => {
            let mut body = body;
            substitute_in_block(&mut body, map);
            Stmt { kind: StmtKind::For { name, iterable, body }, span }
        },
        StmtKind::ForRange { name, start, end, body } => {
            let mut body = body;
            substitute_in_block(&mut body, map);
            Stmt { kind: StmtKind::ForRange { name, start, end, body }, span }
        },
        StmtKind::Region { name, body } => {
            let mut body = body;
            substitute_in_block(&mut body, map);
            Stmt { kind: StmtKind::Region { name, body }, span }
        },
        StmtKind::If { cond, then_block, else_block } => {
            let mut then_block = then_block;
            substitute_in_block(&mut then_block, map);
            let else_block = match else_block {
                Some(b) => {
                    let mut b = b;
                    substitute_in_block(&mut b, map);
                    Some(b)
                },
                None => None,
            };
            Stmt { kind: StmtKind::If { cond, then_block, else_block }, span }
        },
        StmtKind::Match { value, arms } => {
            let arms = substituted_arms(arms, map);
            Stmt { kind: StmtKind::Match { value, arms }, span }
        },
        other => Stmt { kind: other, span },
    }
}

/// The arms of a `match`, each body with the substitution applied.
#[verifier::loop_isolation(false)]
fn substituted_arms(arms: Vec<MatchArm>, map: &TypeMap) -> (r: Vec<MatchArm>)
    ensures
        arms_substituted(arms@, r@, map@),
    decreases arms,
{
    let ghost whole = arms;
    let ghost original = arms@;
    let mut rest = arms;
    let count = rest.len();
    let mut out: Vec<MatchArm> = Vec::new();
    let mut i: usize = 0;
    assert(original.take(0) =~= Seq::<MatchArm>::empty());
    while rest.len() > 0
        invariant
            i + rest@.len() == original.len(),
            original.len() == count as nat,
            whole@ == original,
            rest@ == original.skip(i as int),
            arms_substituted(original.take(i as int), out@, map@),
        decreases rest.len(),
    {
        let arm = rest.remove(0);
        proof {
            assert(arm == original[i as int]);
            assert(decreases_to!(whole => whole@));
            assert(decreases_to!(whole@ => whole@[i as int]));
            assert(decreases_to!(whole@[i as int] => whole@[i as int].body));
        }
        let MatchArm { variant, bindings, literal, body } = arm;
        let mut body = body;
        assert(decreases_to!(whole => body));
        substitute_in_block(&mut body, map);
        let ghost before = out@;
        out.push(MatchArm { variant, bindings, literal, body });
        proof {
            assert(original.take(i + 1).drop_last() =~= original.take(i as int));
            assert(out@.drop_last() =~= before);
            assert(rest@ =~= original.skip(i + 1));
        }
        i = i + 1;
    }
    assert(original.take(i as int) =~= original);
    out
}

/// Applies a substitution to every type declared in a body, however deeply nested: each `let`
/// that declares a type gets the type with the generic's parameters replaced by what they stand
/// for, and nothing else in the body changes.
pub fn substitute_in_block(stmts: &mut Vec<Stmt>, map: &TypeMap)
    ensures
        block_substituted(old(stmts)@, final(stmts)@, map@),
    decreases *old(stmts),
{
    let ghost original = old(stmts)@;
    let mut rest: Vec<Stmt> = Vec::new();
    std::mem::swap(stmts, &mut rest);
    let count = rest.len();
    let mut i: usize = 0;
    assert(original.take(0) =~= Seq::<Stmt>::empty());
    while rest.len() > 0
        invariant
            i + rest@.len() == original.len(),
            original.len() == count as nat,
            original == old(stmts)@,
            rest@ == original.skip(i as int),
            block_substituted(original.take(i as int), stmts@, map@),
        decreases rest.len(),
    {
        let st = rest.remove(0);
        proof {
            assert(st == original[i as int]);
            assert(decreases_to!(*old(stmts) => old(stmts)@));
            assert(decreases_to!(old(stmts)@ => old(stmts)@[i as int]));
        }
        let ghost before = stmts@;
        stmts.push(substituted(st, map));
        proof {
            assert(original.take(i + 1).drop_last() =~= original.take(i as int));
            assert(stmts@.drop_last() =~= before);
            assert(rest@ =~= original.skip(i + 1));
        }
        i = i + 1;
    }
    assert(original.take(i as int) =~= original);
}

/// What expanding the types declared in one statement answers, and the state after: the
/// declared types are expanded in the order they are written, stopping at the first refusal.
pub open spec fn stmt_outcome(s: ExpansionV, st: Stmt) -> (Result<(), Seq<char>>, ExpansionV)
    decreases st,
{
    match st.kind {
        StmtKind::Let { declared, .. } => match declared {
            Some(t) => match expanded(s, t@, u64::MAX as nat) {
                (Ok(_), s1) => (Ok(()), s1),
                (Err(e), s1) => (Err(e), s1),
            },
            None => (Ok(()), s),
        },
        StmtKind::While { body, .. } => block_outcome(s, body@),
        StmtKind::For { body, .. } => block_outcome(s, body@),
        StmtKind::ForRange { body, .. } => block_outcome(s, body@),
        StmtKind::Region { body, .. } => block_outcome(s, body@),
        StmtKind::If { then_block, else_block, .. } => match block_outcome(s, then_block@) {
            (Err(e), s1) => (Err(e), s1),
            (Ok(()), s1) => match else_block {
                Some(b) => block_outcome(s1, b@),
                None => (Ok(()), s1),
            },
        },
        StmtKind::Match { arms, .. } => arms_outcome(s, arms@),
        _ => (Ok(()), s),
    }
}

/// [`stmt_outcome`] for a body, statement by statement.
pub open spec fn block_outcome(s: ExpansionV, stmts: Seq<Stmt>) -> (Result<(), Seq<char>>, ExpansionV)
    decreases stmts,
{
    if stmts.len() == 0 {
        (Ok(()), s)
    } else {
        match block_outcome(s, stmts.drop_last()) {
            (Err(e), s1) => (Err(e), s1),
            (Ok(()), s1) => stmt_outcome(s1, stmts.last()),
        }
    }
}

/// [`stmt_outcome`] for the bodies of the arms of a `match`, arm by arm.
pub open spec fn arms_outcome(s: ExpansionV, arms: Seq<MatchArm>) -> (Result<(), Seq<char>>, ExpansionV)
    decreases arms,
{
    if arms.len() == 0 {
        (Ok(()), s)
    } else {
        match arms_outcome(s, arms.drop_last()) {
            (Err(e), s1) => (Err(e), s1),
            (Ok(()), s1) => block_outcome(s1, arms.last().body@),
        }
    }
}

/// Statement `b` is statement `a` with each declared type replaced by its expansion, each
/// expanded against the state that the types declared before it left; a type whose expansion is
/// refused, and everything after it, is left as written.
pub open spec fn stmt_rewritten(s: ExpansionV, a: Stmt, b: Stmt) -> bool
    decreases a,
{
    match a.kind {
        StmtKind::Let { name, mutable, declared, value } => b.kind matches StmtKind::Let { name: n, mutable: u, declared: d, value: v }
            && n == name && u == mutable && v == value && match (declared, d) {
                (None, None) => true,
                (Some(x), Some(y)) => match expanded(s, x@, u64::MAX as nat).0 {
                    Ok(z) => y@ == z,
                    Err(_) => y@ == x@,
                },
                _ => false,
            },
        StmtKind::While { cond, body } => b.kind matches StmtKind::While { cond: c, body: x }
            && c == cond && block_rewritten(s, body@, x@),
        StmtKind::For { name, iterable, body } => b.kind matches StmtKind::For { name: n, iterable: i, body: x }
            && n == name && i == iterable && block_rewritten(s, body@, x@),
        StmtKind::ForRange { name, start, end, body } => b.kind matches StmtKind::ForRange { name: n, start: f, end: e, body: x }
            && n == name && f == start && e == end && block_rewritten(s, body@, x@),
        StmtKind::Region { name, body } => b.kind matches StmtKind::Region { name: n, body: x }
            && n == name && block_rewritten(s, body@, x@),
        StmtKind::If { cond, then_block, else_block } => b.kind matches StmtKind::If { cond: c, then_block: t, else_block: e }
            && c == cond && block_rewritten(s, then_block@, t@) && match (else_block, e) {
                (None, None) => true,
                (Some(x), Some(y)) => match block_outcome(s, then_block@) {
                    (Ok(()), s1) => block_rewritten(s1, x@, y@),
                    (Err(_), _) => y == x,
                },
                _ => false,
            },
        StmtKind::Match { value, arms } => b.kind matches StmtKind::Match { value: v, arms: x }
            && v == value && arms_rewritten(s, arms@, x@),
        _ => b == a,
    }
}

/// [`stmt_rewritten`] for a body: each statement rewritten against the state the ones before it
/// left, or left as written once one of them was refused.
pub open spec fn block_rewritten(s: ExpansionV, a: Seq<Stmt>, b: Seq<Stmt>) -> bool
    decreases a,
{
    a.len() == b.len() && (a.len() == 0 || (block_rewritten(s, a.drop_last(), b.drop_last())
        && match block_outcome(s, a.drop_last()) {
            (Ok(()), s1) => stmt_rewritten(s1, a.last(), b.last()),
            (Err(_), _) => b.last() == a.last(),
        }))
}

/// [`stmt_rewritten`] for the arms of a `match`: each arm's body rewritten, the rest of the arm
/// unchanged.
pub open spec fn arms_rewritten(s: ExpansionV, a: Seq<MatchArm>, b: Seq<MatchArm>) -> bool
    decreases a,
{
    a.len() == b.len() && (a.len() == 0 || (arms_rewritten(s, a.drop_last(), b.drop_last())
        && b.last().variant == a.last().variant && b.last().bindings == a.last().bindings
        && b.last().literal == a.last().literal && match arms_outcome(s, a.drop_last()) {
            (Ok(()), s1) => block_rewritten(s1, a.last().body@, b.last().body@),
            (Err(_), _) => b.last().body == a.last().body,
        }))
}

/// The view of an outcome with nothing in it.
pub open spec fn done(r: Result<(), String>) -> Result<(), Seq<char>> {
    match r {
        Ok(()) => Ok(()),
        Err(e) => Err(e@),
    }
}

proof fn lemma_block_refused(s: ExpansionV, a: Seq<Stmt>, k: int)
    requires
        0 <= k <= a.len(),
        block_outcome(s, a.take(k)).0 is Err,
    ensures
        block_outcome(s, a) == block_outcome(s, a.take(k)),
    decreases a.len() - k,
{
    if k < a.len() {
        assert(a.take(k + 1).drop_last() =~= a.take(k));
        lemma_block_refused(s, a, k + 1);
    } else {
        assert(a.take(k) =~= a);
    }
}

proof fn lemma_arms_refused(s: ExpansionV, a: Seq<MatchArm>, k: int)
    requires
        0 <= k <= a.len(),
        arms_outcome(s, a.take(k)).0 is Err,
    ensures
        arms_outcome(s, a) == arms_outcome(s, a.take(k)),
    decreases a.len() - k,
{
    if k < a.len() {
        assert(a.take(k + 1).drop_last() =~= a.take(k));
        lemma_arms_refused(s, a, k + 1);
    } else {
        assert(a.take(k) =~= a);
    }
}

/// Statements left as written after a refusal keep the body rewritten.
proof fn lemma_block_rest_unchanged(s: ExpansionV, a: Seq<Stmt>, b: Seq<Stmt>, k: int)
    requires
        0 <= k <= a.len(),
        b.len() == a.len(),
        block_outcome(s, a.take(k)).0 is Err,
        block_rewritten(s, a.take(k), b.take(k)),
        forall|j: int| k <= j < a.len() ==> b[j] == a[j],
    ensures
        block_rewritten(s, a, b),
    decreases a.len() - k,
{
    if k < a.len() {
        assert(a.take(k + 1).drop_last() =~= a.take(k));
        assert(b.take(k + 1).drop_last() =~= b.take(k));
        lemma_block_refused(s, a.take(k + 1), k);
        assert(a.take(k + 1).take(k) =~= a.take(k));
        lemma_block_rest_unchanged(s, a, b, k + 1);
    } else {
        assert(a.take(k) =~= a);
        assert(b.take(k) =~= b);
    }
}

proof fn lemma_arms_rest_unchanged(s: ExpansionV, a: Seq<MatchArm>, b: Seq<MatchArm>, k: int)
    requires
        0 <= k <= a.len(),
        b.len() == a.len(),
        arms_outcome(s, a.take(k)).0 is Err,
        arms_rewritten(s, a.take(k), b.take(k)),
        forall|j: int| k <= j < a.len() ==> b[j] == a[j],
    ensures
        arms_rewritten(s, a, b),
    decreases a.len() - k,
{
    if k < a.len() {
        assert(a.take(k + 1).drop_last() =~= a.take(k));
        assert(b.take(k + 1).drop_last() =~= b.take(k));
        lemma_arms_refused(s, a.take(k + 1), k);
        assert(a.take(k + 1).take(k) =~= a.take(k));
        lemma_arms_rest_unchanged(s, a, b, k + 1);
    } else {
        assert(a.take(k) =~= a);
        assert(b.take(k) =~= b);
    }
}

impl Expansion {
    /// Expands every type declared in a body, however deeply nested, in the order written,
    /// stopping at the first refusal: see [`block_outcome`] for the answer and the state after,
    /// and [`block_rewritten`] for the body after.
    pub fn expand_block(&mut self, stmts: &mut Vec<Stmt>) -> (r: Result<(), String>)
        ensures
            (done(r), final(self)@) == block_outcome(old(self)@, old(stmts)@),
            block_rewritten(old(self)@, old(stmts)@, final(stmts)@),
        decreases *old(stmts),
    {
        let ghost s0 = self@;
        let ghost original = old(stmts)@;
        let mut rest: Vec<Stmt> = Vec::new();
        std::mem::swap(stmts, &mut rest);
        let count = rest.len();
        let mut i: usize = 0;
        assert(original.take(0) =~= Seq::<Stmt>::empty());
        while rest.len() > 0
            invariant
                i + rest@.len() == original.len(),
                original.len() == count as nat,
                original == old(stmts)@,
                s0 == old(self)@,
                rest@ == original.skip(i as int),
                stmts@.len() == i,
                (Ok::<(), Seq<char>>(()), self@) == block_outcome(s0, original.take(i as int)),
                block_rewritten(s0, original.take(i as int), stmts@),
            decreases rest.len(),
        {
            let st = rest.remove(0);
            proof {
                assert(st == original[i as int]);
                assert(decreases_to!(*old(stmts) => old(stmts)@));
                assert(decreases_to!(old(stmts)@ => old(stmts)@[i as int]));
                assert(original.take(i + 1).drop_last() =~= original.take(i as int));
                assert(original.take(i + 1).last() == st);
            }
            let ghost before = stmts@;
            let (outcome, rewritten) = self.expand_stmt(st);
            stmts.push(rewritten);
            proof {
                assert(stmts@.drop_last() =~= before);
                assert(rest@ =~= original.skip(i + 1));
            }
            match outcome {
                Ok(()) => {},
                Err(e) => {
                    let ghost done_part = stmts@;
                    stmts.append(&mut rest);
                    proof {
                        assert(stmts@.take(i + 1) =~= done_part);
                        assert forall|j: int| i + 1 <= j < original.len() implies stmts@[j] == original[j] by {
                            assert(stmts@[j] == original.skip(i + 1)[j - (i + 1)]);
                        }
                        lemma_block_rest_unchanged(s0, original, stmts@, i + 1);
                        lemma_block_refused(s0, original, i + 1);
                    }
                    return Err(e);
                },
            }
            i = i + 1;
        }
        assert(original.take(i as int) =~= original);
        Ok(())
    }

    /// One statement: [`stmt_outcome`] and [`stmt_rewritten`].
    fn expand_stmt(&mut self, st: Stmt) -> (r: (Result<(), String>, Stmt))
        ensures
            (done(r.0), final(self)@) == stmt_outcome(old(self)@, st),
            stmt_rewritten(old(self)@, st, r.1),
        decreases st,
    {
        let span = st.span;
        match st.kind {
            StmtKind::Let { name, mutable, declared, value } => match declared {
                Some(t) => match self.expand(&t) {
                    Ok(x) => (Ok(()), Stmt { kind: StmtKind::Let { name, mutable, declared: Some(x), value }, span }),
                    Err(e) => (Err(e), Stmt { kind: StmtKind::Let { name, mutable, declared: Some(t), value }, span }),
                },
                None => (Ok(()), Stmt { kind: StmtKind::Let { name, mutable, declared: None, value }, span }),
            },
            StmtKind::While { cond, body } => {
                let mut body = body;
                let r = self.expand_block(&mut body);
                (r, Stmt { kind: StmtKind::While { cond, body }, span })
            },
            StmtKind::For { name, iterable, body } => {
                let mut body = body;
                let r = self.expand_block(&mut body);
                (r, Stmt { kind: StmtKind::For { name, iterable, body }, span })
            },
            StmtKind::ForRange { name, start, end, body } => {
                let mut body = body;
                let r = self.expand_block(&mut body);
                (r, Stmt { kind: StmtKind::ForRange { name, start, end, body }, span })
            },
            StmtKind::Region { name, body } => {
                let mut body = body;
                let r = self.expand_block(&mut body);
                (r, Stmt { kind: StmtKind::Region { name, body }, span })
            },
            StmtKind::If { cond, then_block, else_block } => {
                let mut then_block = then_block;
                let r = self.expand_block(&mut then_block);
                match r {
                    Err(e) => (Err(e), Stmt { kind: StmtKind::If { cond, then_block, else_block }, span }),
                    Ok(()) => match else_block {
                        Some(b) => {
                            let mut b = b;
                            let r2 = self.expand_block(&mut b);
                            (r2, Stmt { kind: StmtKind::If { cond, then_block, else_block: Some(b) }, span })
                        },
                        None => (Ok(()), Stmt { kind: StmtKind::If { cond, then_block, else_block: None }, span }),
                    },
                }
            },
            StmtKind::Match { value, arms } => {
                let (r, arms) = self.expand_arms(arms);
                (r, Stmt { kind: StmtKind::Match { value, arms }, span })
            },
            other => (Ok(()), Stmt { kind: other, span }),
        }
    }

    /// The bodies of a `match`'s arms: [`arms_outcome`] and [`arms_rewritten`].
    #[verifier::loop_isolation(false)]
    fn expand_arms(&mut self, arms: Vec<MatchArm>) -> (r: (Result<(), String>, Vec<MatchArm>))
        ensures
            (done(r.0), final(self)@) == arms_outcome(old(self)@, arms@),
            arms_rewritten(old(self)@, arms@, r.1@),
        decreases arms,
    {
        let ghost s0 = self@;
        let ghost whole = arms;
        let ghost original = arms@;
        let mut rest = arms;
        let count = rest.len();
        let mut out: Vec<MatchArm> = Vec::new();
        let mut i: usize = 0;
        assert(original.take(0) =~= Seq::<MatchArm>::empty());
        while rest.len() > 0
            invariant
                i + rest@.len() == original.len(),
                original.len() == count as nat,
                whole@ == original,
                rest@ == original.skip(i as int),
                out@.len() == i,
                (Ok::<(), Seq<char>>(()), self@) == arms_outcome(s0, original.take(i as int)),
                arms_rewritten(s0, original.take(i as int), out@),
            decreases rest.len(),
        {
            let arm = rest.remove(0);
            proof {
                assert(arm == original[i as int]);
                assert(decreases_to!(whole => whole@));
                assert(decreases_to!(whole@ => whole@[i as int]));
                assert(decreases_to!(whole@[i as int] => whole@[i as int].body));
                assert(original.take(i + 1).drop_last() =~= original.take(i as int));
                assert(original.take(i + 1).last() == arm);
            }
            let MatchArm { variant, bindings, literal, body } = arm;
            let mut body = body;
            assert(decreases_to!(whole => body));
            let r = self.expand_block(&mut body);
            let ghost before = out@;
            out.push(MatchArm { variant, bindings, literal, body });
            proof {
                assert(out@.drop_last() =~= before);
                assert(rest@ =~= original.skip(i + 1));
            }
            match r {
                Ok(()) => {},
                Err(e) => {
                    let ghost done_part = out@;
                    out.append(&mut rest);
                    proof {
                        assert(out@.take(i + 1) =~= done_part);
                        assert forall|j: int| i + 1 <= j < original.len() implies out@[j] == original[j] by {
                            assert(out@[j] == original.skip(i + 1)[j - (i + 1)]);
                        }
                        lemma_arms_rest_unchanged(s0, original, out@, i + 1);
                        lemma_arms_refused(s0, original, i + 1);
                    }
                    return (Err(e), out);
                },
            }
            i = i + 1;
        }
        assert(original.take(i as int) =~= original);
        (Ok(()), out)
    }
}

/// The types of a list of parameters.
pub open spec fn param_types(ps: Seq<Param>) -> Seq<TypeV> {
    Seq::new(ps.len(), |i: int| ps[i].ty@)
}

/// Parameter list `b` is `a` with each parameter's type replaced by its expansion, in order, until
/// one is refused; that one and those after it are left as written.
pub open spec fn params_rewritten(s: ExpansionV, a: Seq<Param>, b: Seq<Param>) -> bool
    decreases a.len(),
{
    a.len() == b.len() && (a.len() == 0 || (params_rewritten(s, a.drop_last(), b.drop_last())
        && b.last().name == a.last().name && b.last().marshal == a.last().marshal
        && match expanded_list(s, param_types(a.drop_last()), u64::MAX as nat) {
            (Ok(_), s1) => match expanded(s1, a.last().ty@, u64::MAX as nat).0 {
                Ok(z) => b.last().ty@ == z,
                Err(_) => b.last().ty@ == a.last().ty@,
            },
            (Err(_), _) => b.last().ty@ == a.last().ty@,
        }))
}

/// What expanding a function's signature and body answers, and the state after: its parameter
/// types in order, then its return type, then the types declared in its body, stopping at the
/// first refusal.
pub open spec fn fn_outcome(s: ExpansionV, ps: Seq<Param>, ret: TypeV, body: Seq<Stmt>) -> (Result<(), Seq<char>>, ExpansionV) {
    match expanded_list(s, param_types(ps), u64::MAX as nat) {
        (Err(e), s1) => (Err(e), s1),
        (Ok(_), s1) => match expanded(s1, ret, u64::MAX as nat) {
            (Err(e), s2) => (Err(e), s2),
            (Ok(_), s2) => block_outcome(s2, body),
        },
    }
}

proof fn lemma_types_prefix(ps: Seq<Param>, k: int)
    requires
        0 <= k <= ps.len(),
    ensures
        param_types(ps.take(k)) == param_types(ps).take(k),
{
    assert(param_types(ps.take(k)) =~= param_types(ps).take(k));
}

proof fn lemma_params_rest_unchanged(s: ExpansionV, a: Seq<Param>, b: Seq<Param>, k: int)
    requires
        0 <= k <= a.len(),
        b.len() == a.len(),
        expanded_list(s, param_types(a.take(k)), u64::MAX as nat).0 is Err,
        params_rewritten(s, a.take(k), b.take(k)),
        forall|j: int| k <= j < a.len() ==> b[j].name == a[j].name && b[j].marshal == a[j].marshal && b[j].ty@ == a[j].ty@,
    ensures
        params_rewritten(s, a, b),
    decreases a.len() - k,
{
    if k < a.len() {
        assert(a.take(k + 1).drop_last() =~= a.take(k));
        assert(b.take(k + 1).drop_last() =~= b.take(k));
        lemma_types_prefix(a, k);
        lemma_types_prefix(a, k + 1);
        lemma_list_refused_prefix(s, param_types(a), k, k + 1);
        lemma_params_rest_unchanged(s, a, b, k + 1);
    } else {
        assert(a.take(k) =~= a);
        assert(b.take(k) =~= b);
    }
}

proof fn lemma_list_refused_prefix(s: ExpansionV, ts: Seq<TypeV>, k: int, n: int)
    requires
        0 <= k <= n <= ts.len(),
        expanded_list(s, ts.take(k), u64::MAX as nat).0 is Err,
    ensures
        expanded_list(s, ts.take(n), u64::MAX as nat) == expanded_list(s, ts.take(k), u64::MAX as nat),
    decreases n - k,
{
    if k < n {
        lemma_list_refused_prefix(s, ts, k, n - 1);
        assert(ts.take(n).drop_last() =~= ts.take(n - 1));
    }
}

impl Expansion {
    /// Expands a function's parameter types in order, then its return type, then every type
    /// declared in its body, stopping at the first refusal: see [`fn_outcome`]. What was expanded
    /// before a refusal stays expanded; the rest is left as written.
    pub fn expand_fn_types(&mut self, parameters: &mut Vec<Param>, ret: &mut Type, body: &mut Vec<Stmt>) -> (r: Result<(), String>)
        ensures
            (done(r), final(self)@) == fn_outcome(old(self)@, old(parameters)@, old(ret)@, old(body)@),
            params_rewritten(old(self)@, old(parameters)@, final(parameters)@),
            expanded_list(old(self)@, param_types(old(parameters)@), u64::MAX as nat) matches (Ok(_), s1) ==> (
                final(ret)@ == match expanded(s1, old(ret)@, u64::MAX as nat).0 {
                    Ok(z) => z,
                    Err(_) => old(ret)@,
                }
                && (expanded(s1, old(ret)@, u64::MAX as nat) matches (Ok(_), s2) ==> block_rewritten(s2, old(body)@, final(body)@))
                && (expanded(s1, old(ret)@, u64::MAX as nat).0 is Err ==> final(body)@ == old(body)@)),
            expanded_list(old(self)@, param_types(old(parameters)@), u64::MAX as nat).0 is Err ==> final(ret)@ == old(ret)@
                && final(body)@ == old(body)@,
    {
        let ghost s0 = self@;
        let ghost original = old(parameters)@;
        let mut rest: Vec<Param> = Vec::new();
        std::mem::swap(parameters, &mut rest);
        let count = rest.len();
        let mut i: usize = 0;
        assert(original.take(0) =~= Seq::<Param>::empty());
        proof {
            lemma_types_prefix(original, 0);
        }
        while rest.len() > 0
            invariant
                i + rest@.len() == original.len(),
                original.len() == count as nat,
                original == old(parameters)@,
                s0 == old(self)@,
                rest@ == original.skip(i as int),
                parameters@.len() == i,
                expanded_list(s0, param_types(original.take(i as int)), u64::MAX as nat) matches (Ok(_), s1) && s1 == self@,
                params_rewritten(s0, original.take(i as int), parameters@),
                ret == old(ret),
                body == old(body),
            decreases rest.len(),
        {
            let p = rest.remove(0);
            proof {
                assert(p == original[i as int]);
                assert(original.take(i + 1).drop_last() =~= original.take(i as int));
                lemma_types_prefix(original, i as int);
                lemma_types_prefix(original, i + 1);
                assert(param_types(original).take(i + 1).drop_last() =~= param_types(original).take(i as int));
            }
            let ghost before = parameters@;
            let Param { name, ty, marshal } = p;
            match self.expand(&ty) {
                Ok(x) => {
                    parameters.push(Param { name, ty: x, marshal });
                    proof {
                        assert(parameters@.drop_last() =~= before);
                        assert(rest@ =~= original.skip(i + 1));
                    }
                },
                Err(e) => {
                    parameters.push(Param { name, ty, marshal });
                    let ghost done_part = parameters@;
                    parameters.append(&mut rest);
                    proof {
                        assert(done_part.drop_last() =~= before);
                        assert(parameters@.take(i + 1) =~= done_part);
                        assert forall|j: int| i + 1 <= j < original.len() implies parameters@[j] == original[j] by {
                            assert(parameters@[j] == original.skip(i + 1)[j - (i + 1)]);
                        }
                        lemma_params_rest_unchanged(s0, original, parameters@, i + 1);
                        lemma_list_refused(s0, param_types(original), i + 1);
                        assert(param_types(original).take(i + 1) == param_types(original.take(i + 1)));
                    }
                    return Err(e);
                },
            }
            i = i + 1;
        }
        assert(original.take(i as int) =~= original);
        match self.expand(ret) {
            Ok(x) => {
                *ret = x;
            },
            Err(e) => {
                return Err(e);
            },
        }
        self.expand_block(body)
    }
}

proof fn lemma_list_refused(s: ExpansionV, ts: Seq<TypeV>, k: int)
    requires
        0 <= k <= ts.len(),
        expanded_list(s, ts.take(k), u64::MAX as nat).0 is Err,
    ensures
        expanded_list(s, ts, u64::MAX as nat) == expanded_list(s, ts.take(k), u64::MAX as nat),
{
    lemma_list_refused_prefix(s, ts, k, ts.len() as int);
    assert(ts.take(ts.len() as int) =~= ts);
}

} // verus!
