//! The errors a check finds: each recorded once, and handed over in the order a reader meets
//! them.
use vstd::prelude::*;
use crate::typed::Span;

verus! {

/// One error: what is wrong, and where.
pub struct Diagnostic {
    pub message: String,
    pub span: Span,
}

/// Whether the list holds an error with this message at this place.
pub open spec fn recorded(errors: Seq<Diagnostic>, message: Seq<char>, span: Span) -> bool {
    exists|i: int| 0 <= i < errors.len() && (#[trigger] errors[i]).span == span && errors[i].message@ == message
}

/// No error is in the list twice.
pub open spec fn each_once(errors: Seq<Diagnostic>) -> bool {
    forall|i: int, j: int| 0 <= i < j < errors.len()
        ==> !((#[trigger] errors[i]).span == (#[trigger] errors[j]).span && errors[i].message@ == errors[j].message@)
}

/// Records an error at `span`, unless the same message at the same place is recorded already:
/// the same message at the same place twice is one problem, not two.
pub fn record(errors: &mut Vec<Diagnostic>, message: String, span: Span)
    ensures
        recorded(old(errors)@, message@, span) ==> final(errors)@ == old(errors)@,
        !recorded(old(errors)@, message@, span) ==> final(errors)@ == old(errors)@.push(Diagnostic { message, span }),
{
    let mut i: usize = 0;
    while i < errors.len()
        invariant
            0 <= i <= errors@.len(),
            forall|k: int| 0 <= k < i ==> !((#[trigger] errors@[k]).span == span && errors@[k].message@ == message@),
        decreases errors.len() - i,
    {
        if errors[i].span == span && errors[i].message == message {
            return;
        }
        i = i + 1;
    }
    errors.push(Diagnostic { message, span });
}

/// Recording never makes an error appear twice.
pub proof fn lemma_recorded_once(errors: Seq<Diagnostic>, d: Diagnostic)
    requires
        each_once(errors),
    ensures
        each_once(if recorded(errors, d.message@, d.span) { errors } else { errors.push(d) }),
{
    if !recorded(errors, d.message@, d.span) {
        let e = errors.push(d);
        assert forall|i: int, j: int| 0 <= i < j < e.len()
            implies !((#[trigger] e[i]).span == (#[trigger] e[j]).span && e[i].message@ == e[j].message@) by {
            if j == errors.len() {
                assert(e[i] == errors[i]);
            } else {
                assert(e[i] == errors[i] && e[j] == errors[j]);
            }
        }
    }
}

/// Whether error `a` comes no later than `b` for a reader: it starts earlier, or at the same
/// place and ends no later.
pub open spec fn reads_before(a: Span, b: Span) -> bool {
    a.start < b.start || (a.start == b.start && a.end <= b.end)
}

/// The errors in reading order: each no later than the next.
pub open spec fn in_reading_order(errors: Seq<Diagnostic>) -> bool {
    forall|i: int, j: int| 0 <= i < j < errors.len() ==> reads_before((#[trigger] errors[i]).span, (#[trigger] errors[j]).span)
}

/// The errors reported at exactly `span`, in the order they are listed.
pub open spec fn at(errors: Seq<Diagnostic>, span: Span) -> Seq<Diagnostic> {
    errors.filter(|d: Diagnostic| d.span == span)
}

/// Inserts `d` after every error that reads before it or at the same place.
fn insert_in_order(out: &mut Vec<Diagnostic>, d: Diagnostic)
    requires
        in_reading_order(old(out)@),
    ensures
        in_reading_order(final(out)@),
        forall|s: Span| #[trigger] at(final(out)@, s) == if s == d.span { at(old(out)@, s).push(d) } else { at(old(out)@, s) },
        final(out)@.len() == old(out)@.len() + 1,
        final(out)@.to_multiset() == old(out)@.to_multiset().insert(d),
{
    let mut k: usize = out.len();
    while k > 0 && !reads_first(&out[k - 1].span, &d.span)
        invariant
            0 <= k <= out@.len(),
            forall|q: int| k <= q < out@.len() ==> !reads_before((#[trigger] out@[q]).span, d.span),
        decreases k,
    {
        k = k - 1;
    }
    let ghost before = out@;
    out.insert(k, d);
    proof {
        assert(out@ == before.insert(k as int, d));
        lemma_insert_keeps_order(before, d, k as int);
        lemma_insert_filters(before, d, k as int);
        vstd::seq_lib::to_multiset_insert(before, k as int, d);
        assert(out@.to_multiset() =~= before.to_multiset().insert(d));
    }
}

/// Whether `a` reads before `b`: see [`reads_before`].
fn reads_first(a: &Span, b: &Span) -> (r: bool)
    ensures
        r == reads_before(*a, *b),
{
    a.start < b.start || (a.start == b.start && a.end <= b.end)
}

proof fn lemma_insert_keeps_order(s: Seq<Diagnostic>, d: Diagnostic, k: int)
    requires
        0 <= k <= s.len(),
        in_reading_order(s),
        k > 0 ==> reads_before(s[k - 1].span, d.span),
        forall|q: int| k <= q < s.len() ==> !reads_before((#[trigger] s[q]).span, d.span),
    ensures
        in_reading_order(s.insert(k, d)),
{
    let t = s.insert(k, d);
    assert forall|i: int, j: int| 0 <= i < j < t.len() implies reads_before((#[trigger] t[i]).span, (#[trigger] t[j]).span) by {
        if i < k && j < k {
            assert(t[i] == s[i] && t[j] == s[j]);
        } else if i < k && j == k {
            assert(t[i] == s[i]);
            if i < k - 1 {
                assert(reads_before(s[i].span, s[k - 1].span));
            }
        } else if i < k && j > k {
            assert(t[i] == s[i] && t[j] == s[j - 1]);
        } else if i == k {
            assert(t[j] == s[j - 1]);
            assert(!reads_before(s[j - 1].span, d.span));
        } else {
            assert(t[i] == s[i - 1] && t[j] == s[j - 1]);
        }
    }
}

proof fn lemma_insert_filters(s: Seq<Diagnostic>, d: Diagnostic, k: int)
    requires
        0 <= k <= s.len(),
        forall|q: int| k <= q < s.len() ==> !reads_before((#[trigger] s[q]).span, d.span),
    ensures
        forall|sp: Span| #[trigger] at(s.insert(k, d), sp) == if sp == d.span { at(s, sp).push(d) } else { at(s, sp) },
    decreases s.len() - k,
{
    assert forall|sp: Span| #[trigger] at(s.insert(k, d), sp) == if sp == d.span { at(s, sp).push(d) } else { at(s, sp) } by {
        let t = s.insert(k, d);
        assert(t =~= s.take(k).push(d) + s.skip(k));
        assert(s =~= s.take(k) + s.skip(k));
        lemma_filter_append(s.take(k).push(d), s.skip(k), sp);
        lemma_filter_append(s.take(k), s.skip(k), sp);
        lemma_filter_push(s.take(k), d, sp);
        lemma_none_at(s.skip(k), d.span);
        if sp == d.span {
            assert(at(s.skip(k), sp) =~= Seq::<Diagnostic>::empty());
            assert(at(s, sp) =~= at(s.take(k), sp));
        }
    }
}

proof fn lemma_filter_append(a: Seq<Diagnostic>, b: Seq<Diagnostic>, sp: Span)
    ensures
        at(a + b, sp) == at(a, sp) + at(b, sp),
{
    Seq::filter_distributes_over_add(a, b, |d: Diagnostic| d.span == sp);
}

proof fn lemma_filter_push(a: Seq<Diagnostic>, d: Diagnostic, sp: Span)
    ensures
        at(a.push(d), sp) == if d.span == sp { at(a, sp).push(d) } else { at(a, sp) },
{
    a.lemma_filter_push(d, |x: Diagnostic| x.span == sp);
}

/// A run of errors none of which reads before `span` holds none at `span`.
proof fn lemma_none_at(s: Seq<Diagnostic>, span: Span)
    requires
        forall|q: int| 0 <= q < s.len() ==> !reads_before((#[trigger] s[q]).span, span),
    ensures
        at(s, span).len() == 0,
    decreases s.len(),
{
    if s.len() > 0 {
        lemma_none_at(s.drop_last(), span);
        lemma_filter_push(s.drop_last(), s.last(), span);
        assert(s.drop_last().push(s.last()) =~= s);
        assert(!reads_before(s[s.len() - 1].span, span));
    }
}

/// Hands over the errors found, leaving none behind, in the order a reader meets them: by where
/// each starts, then by where it ends; errors at the same place keep the order they were found
/// in.
pub fn take_errors(errors: &mut Vec<Diagnostic>) -> (r: Vec<Diagnostic>)
    ensures
        final(errors)@.len() == 0,
        in_reading_order(r@),
        r@.len() == old(errors)@.len(),
        r@.to_multiset() == old(errors)@.to_multiset(),
        forall|s: Span| #[trigger] at(r@, s) == at(old(errors)@, s),
{
    let mut found: Vec<Diagnostic> = Vec::new();
    std::mem::swap(errors, &mut found);
    let ghost original = found@;
    let mut out: Vec<Diagnostic> = Vec::new();
    let mut i: usize = 0;
    let count = found.len();
    proof {
        assert(original.take(0) =~= Seq::<Diagnostic>::empty());
        assert forall|s: Span| #[trigger] at(out@, s) == at(original.take(0), s) by {
            assert(at(out@, s) =~= Seq::<Diagnostic>::empty());
            assert(at(original.take(0), s) =~= Seq::<Diagnostic>::empty());
        }
    }
    while found.len() > 0
        invariant
            i + found@.len() == original.len(),
            original.len() == count as nat,
            found@ == original.skip(i as int),
            errors@.len() == 0,
            in_reading_order(out@),
            out@.len() == i,
            out@.to_multiset() == original.take(i as int).to_multiset(),
            forall|s: Span| #[trigger] at(out@, s) == at(original.take(i as int), s),
        decreases found.len(),
    {
        let d = found.remove(0);
        proof {
            assert(d == original[i as int]);
            assert(original.take(i + 1) =~= original.take(i as int).push(d));
            original.take(i as int).to_multiset_ensures();
            assert(found@ =~= original.skip(i + 1));
        }
        let ghost before = out@;
        insert_in_order(&mut out, d);
        proof {
            assert forall|s: Span| #[trigger] at(out@, s) == at(original.take(i + 1), s) by {
                lemma_filter_push(original.take(i as int), d, s);
            }
        }
        i = i + 1;
    }
    assert(original.take(i as int) =~= original);
    out
}

/// No place has the same message twice: what [`each_once`] says, read place by place.
pub open spec fn once_per_place(errors: Seq<Diagnostic>) -> bool {
    forall|sp: Span, p: int, q: int| 0 <= p < q < at(errors, sp).len()
        ==> (#[trigger] at(errors, sp)[p]).message@ != (#[trigger] at(errors, sp)[q]).message@
}

/// Recording keeps every place free of repeats: [`record`] adds an error only when its message
/// is not already at its place.
pub proof fn lemma_record_keeps_places(errors: Seq<Diagnostic>, d: Diagnostic)
    requires
        once_per_place(errors),
    ensures
        once_per_place(if recorded(errors, d.message@, d.span) { errors } else { errors.push(d) }),
{
    if !recorded(errors, d.message@, d.span) {
        let e = errors.push(d);
        assert forall|sp: Span, p: int, q: int| 0 <= p < q < at(e, sp).len()
            implies (#[trigger] at(e, sp)[p]).message@ != (#[trigger] at(e, sp)[q]).message@ by {
            errors.lemma_filter_push(d, |x: Diagnostic| x.span == sp);
            let old_at = at(errors, sp);
            if d.span == sp && q == old_at.len() {
                errors.filter_lemma(|x: Diagnostic| x.span == sp);
                assert(old_at.contains(old_at[p]));
                errors.lemma_filter_contains_rev(|x: Diagnostic| x.span == sp, old_at[p]);
                let k = choose|k: int| 0 <= k < errors.len() && errors[k] == old_at[p];
                assert(errors[k].span == d.span);
            } else {
                assert(at(e, sp)[p] == old_at[p] && at(e, sp)[q] == old_at[q]);
            }
        }
    }
}

/// The errors still to hand over when checking stops: those recorded, and the message that
/// stopped a declaration-level pass, if one did, recorded at `at`.
pub open spec fn pending(errors: Seq<Diagnostic>, stop_message: Option<String>, at_span: Span) -> Seq<Diagnostic> {
    match stop_message {
        Some(m) => if recorded(errors, m@, at_span) { errors } else { errors.push(Diagnostic { message: m, span: at_span }) },
        None => errors,
    }
}

/// How a check of a whole program ends, from what checking its declarations gave (`outcome`)
/// and the errors recorded on the way: a failure that stopped a pass is recorded too (at `at`,
/// where the checker stood); the program is handed back only when nothing at all was recorded;
/// otherwise every error is handed back, in reading order, and none twice at one place.
pub fn conclude<T>(errors: &mut Vec<Diagnostic>, outcome: Result<T, String>, at_span: Span) -> (r: Result<T, Vec<Diagnostic>>)
    ensures
        final(errors)@.len() == 0,
        r is Ok <==> (outcome is Ok && old(errors)@.len() == 0),
        r is Ok ==> outcome is Ok && r->Ok_0 == outcome->Ok_0,
        ({
            let rest = pending(old(errors)@, match outcome { Err(m) => Some(m), Ok(_) => None }, at_span);
            r matches Err(ds) ==> {
                &&& ds@.len() > 0
                &&& in_reading_order(ds@)
                &&& ds@.to_multiset() == rest.to_multiset()
                &&& forall|sp: Span| #[trigger] at(ds@, sp) == at(rest, sp)
                &&& once_per_place(old(errors)@) ==> once_per_place(ds@)
            }
        }),
{
    let ghost before = errors@;
    let program = match outcome {
        Ok(p) => p,
        Err(message) => {
            let ghost d = Diagnostic { message, span: at_span };
            proof {
                if once_per_place(before) {
                    lemma_record_keeps_places(before, d);
                }
            }
            record(errors, message, at_span);
            let ds = take_errors(errors);
            return Err(ds);
        },
    };
    if errors.len() == 0 {
        return Ok(program);
    }
    let ds = take_errors(errors);
    Err(ds)
}

} // verus!
