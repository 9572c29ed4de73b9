//! A block of statements: each statement's verdict is gathered in order, a failed statement is
//! recorded and checking goes on with the next, and a statement that control can never reach is
//! reported once, after which the block checks nothing more.
use vstd::prelude::*;
use crate::ast::Stmt;
use crate::diagnostics::{Diagnostic, record, recorded};
use crate::typed::{Span, TypedStmt, TypedStmtKind, always_returns, leaves, stmt_returns, unreachable_note, unreachable_text};

verus! {

/// An error as a reader sees it: its text and its place.
pub open spec fn notes(errors: Seq<Diagnostic>) -> Seq<(Seq<char>, Span)> {
    errors.map_values(|d: Diagnostic| (d.message@, d.span))
}

/// The notes after recording `n` once: a note already present is not added again.
pub open spec fn note_once(ns: Seq<(Seq<char>, Span)>, n: (Seq<char>, Span)) -> Seq<(Seq<char>, Span)> {
    if ns.contains(n) { ns } else { ns.push(n) }
}

/// The notes after recording each of `adds` in turn.
pub open spec fn note_all(ns: Seq<(Seq<char>, Span)>, adds: Seq<(Seq<char>, Span)>) -> Seq<(Seq<char>, Span)>
    decreases adds.len(),
{
    if adds.len() == 0 {
        ns
    } else {
        note_once(note_all(ns, adds.drop_last()), adds.last())
    }
}

/// How a block goes, given each statement's verdict and where it was written, in order: the
/// statements kept, the errors it raises in order, and whether it stopped at a statement that
/// can never run. A verdict after the stop is never looked at.
pub open spec fn block_run(outcomes: Seq<(Result<TypedStmtKind, String>, Span)>)
    -> (Seq<TypedStmt>, Seq<(Seq<char>, Span)>, bool)
    decreases outcomes.len(),
{
    if outcomes.len() == 0 {
        (Seq::empty(), Seq::empty(), false)
    } else {
        let prev = block_run(outcomes.drop_last());
        let span = outcomes.last().1;
        if prev.2 {
            prev
        } else {
            match unreachable_text(prev.0) {
                Some(m) => (prev.0, prev.1.push((m, span)), true),
                None => match outcomes.last().0 {
                    Ok(k) => (prev.0.push(TypedStmt { kind: k, span }), prev.1, false),
                    Err(m) => (prev.0, prev.1.push((m@, span)), false),
                },
            }
        }
    }
}

/// The statements that checked, in order.
pub open spec fn kept(outcomes: Seq<(Result<TypedStmtKind, String>, Span)>) -> Seq<TypedStmt>
    decreases outcomes.len(),
{
    if outcomes.len() == 0 {
        Seq::empty()
    } else {
        match outcomes.last().0 {
            Ok(k) => kept(outcomes.drop_last()).push(TypedStmt { kind: k, span: outcomes.last().1 }),
            Err(_) => kept(outcomes.drop_last()),
        }
    }
}

/// The failures, in order, each with its place.
pub open spec fn failures(outcomes: Seq<(Result<TypedStmtKind, String>, Span)>) -> Seq<(Seq<char>, Span)>
    decreases outcomes.len(),
{
    if outcomes.len() == 0 {
        Seq::empty()
    } else {
        match outcomes.last().0 {
            Ok(_) => failures(outcomes.drop_last()),
            Err(m) => failures(outcomes.drop_last()).push((m@, outcomes.last().1)),
        }
    }
}

/// Whether no statement that checked leaves the block (by `return`, `break` or `continue`).
pub open spec fn none_leaves(outcomes: Seq<(Result<TypedStmtKind, String>, Span)>) -> bool {
    forall|i: int| 0 <= i < outcomes.len() ==> match (#[trigger] outcomes[i]).0 {
        Ok(k) => !leaves(TypedStmt { kind: k, span: outcomes[i].1 }),
        Err(_) => true,
    }
}

/// Once a block has stopped, later verdicts change nothing.
proof fn lemma_stays_stopped(outcomes: Seq<(Result<TypedStmtKind, String>, Span)>, k: int)
    requires
        0 <= k <= outcomes.len(),
        block_run(outcomes.take(k)).2,
    ensures
        block_run(outcomes) == block_run(outcomes.take(k)),
    decreases outcomes.len() - k,
{
    if k < outcomes.len() {
        assert(outcomes.take(k + 1).drop_last() =~= outcomes.take(k));
        lemma_stays_stopped(outcomes, k + 1);
    } else {
        assert(outcomes.take(k) =~= outcomes);
    }
}

/// A failed statement never stops a block: where no statement that checked leaves it, the block
/// keeps every statement that checked and records every failure, in the order written.
pub proof fn lemma_failures_do_not_stop(outcomes: Seq<(Result<TypedStmtKind, String>, Span)>)
    requires
        none_leaves(outcomes),
    ensures
        block_run(outcomes) == (kept(outcomes), failures(outcomes), false),
    decreases outcomes.len(),
{
    if outcomes.len() > 0 {
        let init = outcomes.drop_last();
        assert forall|i: int| 0 <= i < init.len() implies match (#[trigger] init[i]).0 {
            Ok(k) => !leaves(TypedStmt { kind: k, span: init[i].1 }),
            Err(_) => true,
        } by {
            assert(init[i] == outcomes[i]);
        }
        lemma_failures_do_not_stop(init);
        lemma_kept_never_leave(init);
    }
}

/// Under [`none_leaves`], no statement kept leaves the block.
proof fn lemma_kept_never_leave(outcomes: Seq<(Result<TypedStmtKind, String>, Span)>)
    requires
        none_leaves(outcomes),
    ensures
        kept(outcomes).len() > 0 ==> !leaves(kept(outcomes).last()),
    decreases outcomes.len(),
{
    if outcomes.len() > 0 {
        let init = outcomes.drop_last();
        assert forall|i: int| 0 <= i < init.len() implies match (#[trigger] init[i]).0 {
            Ok(k) => !leaves(TypedStmt { kind: k, span: init[i].1 }),
            Err(_) => true,
        } by {
            assert(init[i] == outcomes[i]);
        }
        lemma_kept_never_leave(init);
    }
}

/// Recording one error, seen as notes.
proof fn lemma_record_notes(errors: Seq<Diagnostic>, d: Diagnostic)
    ensures
        recorded(errors, d.message@, d.span) <==> notes(errors).contains((d.message@, d.span)),
        notes(errors.push(d)) == notes(errors).push((d.message@, d.span)),
{
    assert(notes(errors.push(d)) =~= notes(errors).push((d.message@, d.span)));
    if recorded(errors, d.message@, d.span) {
        let i = choose|i: int| 0 <= i < errors.len() && (#[trigger] errors[i]).span == d.span
            && errors[i].message@ == d.message@;
        assert(notes(errors)[i] == (d.message@, d.span));
    }
    if notes(errors).contains((d.message@, d.span)) {
        let i = choose|i: int| 0 <= i < notes(errors).len() && notes(errors)[i] == (d.message@, d.span);
        assert(errors[i].span == d.span);
    }
}

/// Records `message` at `span`, keeping the notes in step with [`note_once`].
fn note(errors: &mut Vec<Diagnostic>, message: String, span: Span)
    ensures
        notes(final(errors)@) == note_once(notes(old(errors)@), (message@, span)),
{
    proof {
        lemma_record_notes(old(errors)@, Diagnostic { message, span });
    }
    record(errors, message, span);
}

/// Gathers a block from each statement's verdict and place, in the order written: a statement
/// that checked is kept with its place; a failure is recorded and the next statement is looked
/// at; a statement after one that leaves the block is reported as unreachable, once, and nothing
/// after it is looked at. Returns the statements kept.
pub fn gather_block(errors: &mut Vec<Diagnostic>, outcomes: Vec<(Result<TypedStmtKind, String>, Span)>)
    -> (r: Vec<TypedStmt>)
    ensures
        r@ == block_run(outcomes@).0,
        notes(final(errors)@) == note_all(notes(old(errors)@), block_run(outcomes@).1),
{
    let ghost all = outcomes@;
    let ghost start = notes(errors@);
    let mut rest = outcomes;
    let mut out: Vec<TypedStmt> = Vec::new();
    let mut i: usize = 0;
    let total: usize = rest.len();
    while rest.len() > 0
        invariant
            all == outcomes@,
            all.len() == total,
            start == notes(old(errors)@),
            i + rest@.len() == all.len(),
            rest@ == all.subrange(i as int, all.len() as int),
            out@ == block_run(all.take(i as int)).0,
            !block_run(all.take(i as int)).2,
            notes(errors@) == note_all(start, block_run(all.take(i as int)).1),
        decreases rest.len(),
    {
        let ghost prefix = all.take(i as int);
        let ghost next = all.take(i + 1);
        proof {
            assert(next.drop_last() =~= prefix);
            assert(next.last() == all[i as int]);
            assert(rest@[0] == all[i as int]);
        }
        let (verdict, span) = rest.remove(0);
        match unreachable_note(&out) {
            Some(message) => {
                note(errors, message, span);
                proof {
                    let adds = block_run(next).1;
                    assert(adds.drop_last() =~= block_run(prefix).1);
                    lemma_stays_stopped(all, i + 1);
                }
                return out;
            }
            None => {
                match verdict {
                    Ok(kind) => {
                        out.push(TypedStmt::new(kind, span));
                    }
                    Err(message) => {
                        note(errors, message, span);
                        proof {
                            let adds = block_run(next).1;
                            assert(adds.drop_last() =~= block_run(prefix).1);
                        }
                    }
                }
            }
        }
        i = i + 1;
    }
    proof {
        assert(all.take(i as int) =~= all);
    }
    out
}

/// Each statement's verdict paired with where the statement was written.
pub open spec fn placed(body: Seq<Stmt>, verdicts: Seq<Result<TypedStmtKind, String>>)
    -> Seq<(Result<TypedStmtKind, String>, Span)> {
    Seq::new(verdicts.len(), |i: int| (verdicts[i], body[i].span))
}

/// Pairs each statement's verdict with the place of the statement it is the verdict on.
pub fn place_verdicts(body: &Vec<Stmt>, verdicts: Vec<Result<TypedStmtKind, String>>)
    -> (r: Vec<(Result<TypedStmtKind, String>, Span)>)
    requires
        verdicts@.len() == body@.len(),
    ensures
        r@ == placed(body@, verdicts@),
{
    let ghost all = verdicts@;
    let mut rest = verdicts;
    let mut out: Vec<(Result<TypedStmtKind, String>, Span)> = Vec::new();
    let mut i: usize = 0;
    let total: usize = rest.len();
    while rest.len() > 0
        invariant
            all.len() == body@.len(),
            all.len() == total,
            i + rest@.len() == all.len(),
            rest@ == all.subrange(i as int, all.len() as int),
            out@ == placed(body@, all.take(i as int)),
        decreases rest.len(),
    {
        proof {
            assert(rest@[0] == all[i as int]);
        }
        let v = rest.remove(0);
        out.push((v, body[i].span));
        proof {
            assert(out@ =~= placed(body@, all.take(i + 1)));
        }
        i = i + 1;
    }
    proof {
        assert(all.take(i as int) =~= all);
    }
    out
}

/// Gathers the block `body` from each of its statements' verdicts, in the order written, as
/// [`gather_block`] does, each verdict placed where its statement was written.
pub fn check_body(errors: &mut Vec<Diagnostic>, body: &Vec<Stmt>, verdicts: Vec<Result<TypedStmtKind, String>>)
    -> (r: Vec<TypedStmt>)
    requires
        verdicts@.len() == body@.len(),
    ensures
        r@ == block_run(placed(body@, verdicts@)).0,
        notes(final(errors)@) == note_all(notes(old(errors)@), block_run(placed(body@, verdicts@)).1),
{
    let outcomes = place_verdicts(body, verdicts);
    gather_block(errors, outcomes)
}

/// The report on a top-level statement after one that returns.
pub open spec fn after_return_text() -> Seq<char> {
    "unreachable statement: this code comes after a `return`"@
}

/// How the program's top-level statements go, given each one's verdict and place, in order:
/// as [`block_run`], except that only a statement that returns on every path stops them.
pub open spec fn top_run(outcomes: Seq<(Result<TypedStmtKind, String>, Span)>)
    -> (Seq<TypedStmt>, Seq<(Seq<char>, Span)>, bool)
    decreases outcomes.len(),
{
    if outcomes.len() == 0 {
        (Seq::empty(), Seq::empty(), false)
    } else {
        let prev = top_run(outcomes.drop_last());
        let span = outcomes.last().1;
        if prev.2 {
            prev
        } else if prev.0.len() > 0 && always_returns(prev.0.last()) {
            (prev.0, prev.1.push((after_return_text(), span)), true)
        } else {
            match outcomes.last().0 {
                Ok(k) => (prev.0.push(TypedStmt { kind: k, span }), prev.1, false),
                Err(m) => (prev.0, prev.1.push((m@, span)), false),
            }
        }
    }
}

/// Once the top level has stopped, later verdicts change nothing.
proof fn lemma_top_stays_stopped(outcomes: Seq<(Result<TypedStmtKind, String>, Span)>, k: int)
    requires
        0 <= k <= outcomes.len(),
        top_run(outcomes.take(k)).2,
    ensures
        top_run(outcomes) == top_run(outcomes.take(k)),
    decreases outcomes.len() - k,
{
    if k < outcomes.len() {
        assert(outcomes.take(k + 1).drop_last() =~= outcomes.take(k));
        lemma_top_stays_stopped(outcomes, k + 1);
    } else {
        assert(outcomes.take(k) =~= outcomes);
    }
}

/// Gathers the program's top-level statements from each one's verdict and place (see
/// [`top_run`]): they recover from a failure exactly as a function body does. Returns the
/// statements kept.
pub fn gather_top_level(errors: &mut Vec<Diagnostic>, outcomes: Vec<(Result<TypedStmtKind, String>, Span)>)
    -> (r: Vec<TypedStmt>)
    ensures
        r@ == top_run(outcomes@).0,
        notes(final(errors)@) == note_all(notes(old(errors)@), top_run(outcomes@).1),
{
    let ghost all = outcomes@;
    let ghost start = notes(errors@);
    let mut rest = outcomes;
    let mut out: Vec<TypedStmt> = Vec::new();
    let mut i: usize = 0;
    let total: usize = rest.len();
    while rest.len() > 0
        invariant
            all == outcomes@,
            all.len() == total,
            start == notes(old(errors)@),
            i + rest@.len() == all.len(),
            rest@ == all.subrange(i as int, all.len() as int),
            out@ == top_run(all.take(i as int)).0,
            !top_run(all.take(i as int)).2,
            notes(errors@) == note_all(start, top_run(all.take(i as int)).1),
        decreases rest.len(),
    {
        let ghost prefix = all.take(i as int);
        let ghost next = all.take(i + 1);
        proof {
            assert(next.drop_last() =~= prefix);
            assert(next.last() == all[i as int]);
            assert(rest@[0] == all[i as int]);
        }
        let (verdict, span) = rest.remove(0);
        if out.len() > 0 && stmt_returns(&out[out.len() - 1]) {
            let mut message = String::new();
            crate::ty::append(&mut message, "unreachable statement: this code comes after a `return`");
            note(errors, message, span);
            proof {
                let adds = top_run(next).1;
                assert(adds.drop_last() =~= top_run(prefix).1);
                lemma_top_stays_stopped(all, i + 1);
            }
            return out;
        }
        match verdict {
            Ok(kind) => {
                out.push(TypedStmt::new(kind, span));
            }
            Err(message) => {
                note(errors, message, span);
                proof {
                    let adds = top_run(next).1;
                    assert(adds.drop_last() =~= top_run(prefix).1);
                }
            }
        }
        i = i + 1;
    }
    proof {
        assert(all.take(i as int) =~= all);
    }
    out
}

} // verus!
