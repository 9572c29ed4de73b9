//! The memory report: for each function and method, in the order they are declared, whether it
//! allocates in its caller's region and what does the allocating.
use vstd::prelude::*;
use crate::allocation::{collected, first_occurrences};
use crate::checker::TypeChecker;
use crate::compare::view_names;
use crate::release::{listed, pair_listed};
use crate::text::{nat_text, push_char, write_u64};
use crate::ty::append;
use crate::typed::{TypedFn, TypedMethod, TypedStmt};

verus! {

/// One row of the report: the line its function is declared on, the function as shown
/// (`name()`, or `Class.name()` for a method), and what it allocates, if anything.
pub struct MemoryRow {
    pub line: usize,
    pub name: String,
    pub causes: Vec<String>,
}

/// The view of a row.
pub ghost struct MemoryRowV {
    pub line: nat,
    pub name: Seq<char>,
    pub causes: Seq<Seq<char>>,
}

impl View for MemoryRow {
    type V = MemoryRowV;

    open spec fn view(&self) -> MemoryRowV {
        MemoryRowV { line: self.line as nat, name: self.name@, causes: view_names(self.causes@) }
    }
}

/// The views of a list of rows.
pub open spec fn rows_view(rows: Seq<MemoryRow>) -> Seq<MemoryRowV> {
    Seq::new(rows.len(), |i: int| rows[i]@)
}

/// What a row says when its function allocates and nothing in its body can be named.
pub open spec fn unnamed_cause() -> Seq<char> {
    "allocates, through a call this report cannot name"@
}

/// What the row of a body lists: nothing when its function does not allocate; otherwise each
/// nameable allocation in the body once, in source order, or [`unnamed_cause`] when there is none.
pub open spec fn causes_of(c: TypeChecker, allocating: bool, body: Seq<TypedStmt>) -> Seq<Seq<char>> {
    if !allocating {
        Seq::empty()
    } else {
        let found = first_occurrences(collected(c.facts, c.region_locals@, c.instances@, c.instances.count(), body));
        if found.len() == 0 { seq![unnamed_cause()] } else { found }
    }
}

impl TypeChecker {
    fn causes(&self, allocating: bool, body: &Vec<TypedStmt>) -> (r: Vec<String>)
        ensures
            view_names(r@) == causes_of(*self, allocating, body@),
    {
        if !allocating {
            let none: Vec<String> = Vec::new();
            assert(view_names(none@) =~= Seq::<Seq<char>>::empty());
            return none;
        }
        let found = self.all_allocations(body);
        if found.len() == 0 {
            let mut one: Vec<String> = Vec::new();
            one.push(String::from_str("allocates, through a call this report cannot name"));
            assert(view_names(one@) =~= seq![unnamed_cause()]);
            one
        } else {
            found
        }
    }

    /// The row of free function `name`, declared on `line`, whose checked body is `body`.
    pub fn function_row(&self, line: usize, name: &String, body: &Vec<TypedStmt>) -> (r: MemoryRow)
        ensures
            r@ == (MemoryRowV { line: line as nat, name: name@ + "()"@,
                causes: causes_of(*self, listed(self.facts.alloc_fns@, name@), body@) }),
    {
        let allocating = self.facts.allocates_fn(name);
        let mut shown = String::new();
        append(&mut shown, name.as_str());
        append(&mut shown, "()");
        MemoryRow { line, name: shown, causes: self.causes(allocating, body) }
    }

    /// The row of method `name` of `receiver`, declared on `line`, whose checked body is `body`.
    pub fn method_row(&self, line: usize, receiver: &String, name: &String, body: &Vec<TypedStmt>) -> (r: MemoryRow)
        ensures
            r@ == (MemoryRowV { line: line as nat, name: receiver@ + "."@ + name@ + "()"@,
                causes: causes_of(*self, pair_listed(self.facts.alloc_methods@, receiver@, name@), body@) }),
    {
        let allocating = self.facts.allocates_method(receiver, name);
        let mut shown = String::new();
        append(&mut shown, receiver.as_str());
        append(&mut shown, ".");
        append(&mut shown, name.as_str());
        append(&mut shown, "()");
        MemoryRow { line, name: shown, causes: self.causes(allocating, body) }
    }
}

/// `n` spaces.
pub open spec fn spaces(n: nat) -> Seq<char> {
    Seq::new(n, |i: int| ' ')
}

/// Text right-aligned in a column `w` wide: spaces before it when it is narrower.
pub open spec fn right_aligned(s: Seq<char>, w: nat) -> Seq<char> {
    if s.len() < w { spaces((w - s.len()) as nat) + s } else { s }
}

/// Text left-aligned in a column `w` wide: spaces after it when it is narrower.
pub open spec fn left_aligned(s: Seq<char>, w: nat) -> Seq<char> {
    if s.len() < w { s + spaces((w - s.len()) as nat) } else { s }
}

/// The lines after a row's first, one for each further cause, under the causes column.
pub open spec fn further_lines(causes: Seq<Seq<char>>, w: nat) -> Seq<char>
    decreases causes.len(),
{
    if causes.len() == 0 {
        Seq::empty()
    } else {
        further_lines(causes.drop_last(), w) + spaces(5) + "  "@ + spaces(w) + "  "@ + causes.last() + "\n"@
    }
}

/// One row as text, with the names column `w` wide: the line number right-aligned in five
/// columns, the name, then the first cause (or `nothing`) and one line for each further cause.
pub open spec fn row_text(r: MemoryRowV, w: nat) -> Seq<char> {
    let head = right_aligned(nat_text(r.line), 5) + "  "@ + left_aligned(r.name, w) + "  "@;
    if r.causes.len() == 0 {
        head + "nothing\n"@
    } else {
        head + r.causes[0] + "\n"@ + further_lines(r.causes.skip(1), w)
    }
}

/// The rows as text, one after another.
pub open spec fn rows_text(rows: Seq<MemoryRowV>, w: nat) -> Seq<char>
    decreases rows.len(),
{
    if rows.len() == 0 {
        Seq::empty()
    } else {
        rows_text(rows.drop_last(), w) + row_text(rows.last(), w)
    }
}

/// The widest name among the rows.
pub open spec fn widest(rows: Seq<MemoryRowV>) -> nat
    decreases rows.len(),
{
    if rows.len() == 0 {
        0
    } else if widest(rows.drop_last()) < rows.last().name.len() {
        rows.last().name.len()
    } else {
        widest(rows.drop_last())
    }
}

/// The table of rows already in declaration order, or a sentence saying there is nothing to
/// list.
pub open spec fn table_text(rows: Seq<MemoryRowV>) -> Seq<char> {
    if rows.len() == 0 {
        "this program declares no functions\n"@
    } else {
        rows_text(rows, widest(rows))
    }
}

/// The rows in the order their functions are declared.
pub open spec fn by_line(rows: Seq<MemoryRowV>) -> bool {
    forall|i: int, j: int| 0 <= i < j < rows.len() ==> (#[trigger] rows[i]).line <= (#[trigger] rows[j]).line
}

/// The rows declared on line `n`, in the order they are listed.
pub open spec fn on_line(rows: Seq<MemoryRowV>, n: nat) -> Seq<MemoryRowV> {
    rows.filter(|r: MemoryRowV| r.line == n)
}

proof fn lemma_on_line_push(a: Seq<MemoryRowV>, r: MemoryRowV, n: nat)
    ensures
        on_line(a.push(r), n) == if r.line == n { on_line(a, n).push(r) } else { on_line(a, n) },
{
    a.lemma_filter_push(r, |x: MemoryRowV| x.line == n);
}

proof fn lemma_on_line_append(a: Seq<MemoryRowV>, b: Seq<MemoryRowV>, n: nat)
    ensures
        on_line(a + b, n) == on_line(a, n) + on_line(b, n),
{
    Seq::filter_distributes_over_add(a, b, |x: MemoryRowV| x.line == n);
}

proof fn lemma_none_on_line(s: Seq<MemoryRowV>, n: nat)
    requires
        forall|q: int| 0 <= q < s.len() ==> (#[trigger] s[q]).line > n,
    ensures
        on_line(s, n).len() == 0,
    decreases s.len(),
{
    if s.len() > 0 {
        lemma_none_on_line(s.drop_last(), n);
        lemma_on_line_push(s.drop_last(), s.last(), n);
        assert(s.drop_last().push(s.last()) =~= s);
    }
}

/// Inserts a row after every row declared no later than it.
fn insert_by_line(out: &mut Vec<MemoryRow>, row: MemoryRow)
    requires
        by_line(rows_view(old(out)@)),
    ensures
        by_line(rows_view(final(out)@)),
        forall|n: nat| #[trigger] on_line(rows_view(final(out)@), n)
            == if row@.line == n { on_line(rows_view(old(out)@), n).push(row@) } else { on_line(rows_view(old(out)@), n) },
        rows_view(final(out)@).to_multiset() == rows_view(old(out)@).to_multiset().insert(row@),
{
    let ghost before = rows_view(out@);
    let ghost rv = row@;
    let mut k: usize = out.len();
    while k > 0 && out[k - 1].line > row.line
        invariant
            0 <= k <= out@.len(),
            before == rows_view(out@),
            rv == row@,
            forall|q: int| k <= q < out@.len() ==> (#[trigger] before[q]).line > rv.line,
        decreases k,
    {
        k = k - 1;
    }
    out.insert(k, row);
    proof {
        let after = before.insert(k as int, rv);
        assert(rows_view(out@) =~= after);
        assert forall|i: int, j: int| 0 <= i < j < after.len() implies (#[trigger] after[i]).line <= (#[trigger] after[j]).line by {
            if i < k && j < k {
                assert(after[i] == before[i] && after[j] == before[j]);
            } else if i < k && j == k {
                assert(after[i] == before[i]);
                if i < k - 1 {
                    assert(before[i].line <= before[k - 1].line);
                }
            } else if i < k && j > k {
                assert(after[i] == before[i] && after[j] == before[j - 1]);
            } else if i == k {
                assert(after[j] == before[j - 1]);
            } else {
                assert(after[i] == before[i - 1] && after[j] == before[j - 1]);
            }
        }
        assert(after =~= before.take(k as int).push(rv) + before.skip(k as int));
        assert(before =~= before.take(k as int) + before.skip(k as int));
        assert forall|n: nat| #[trigger] on_line(after, n) == if rv.line == n { on_line(before, n).push(rv) } else { on_line(before, n) } by {
            lemma_on_line_append(before.take(k as int).push(rv), before.skip(k as int), n);
            lemma_on_line_append(before.take(k as int), before.skip(k as int), n);
            lemma_on_line_push(before.take(k as int), rv, n);
            lemma_none_on_line(before.skip(k as int), rv.line);
            if rv.line == n {
                assert(on_line(before.skip(k as int), n) =~= Seq::<MemoryRowV>::empty());
                assert(on_line(before, n) =~= on_line(before.take(k as int), n));
            }
        }
        vstd::seq_lib::to_multiset_insert(before, k as int, rv);
    }
}

fn write_spaces(out: &mut String, n: usize)
    ensures
        final(out)@ == old(out)@ + spaces(n as nat),
{
    let mut i: usize = 0;
    while i < n
        invariant
            0 <= i <= n,
            out@ == old(out)@ + spaces(i as nat),
        decreases n - i,
    {
        push_char(out, ' ');
        assert(out@ =~= old(out)@ + spaces((i + 1) as nat));
        i = i + 1;
    }
}

fn write_left(out: &mut String, s: &str, w: usize)
    ensures
        final(out)@ == old(out)@ + left_aligned(s@, w as nat),
{
    append(out, s);
    let n = s.unicode_len();
    if n < w {
        write_spaces(out, w - n);
        assert(out@ =~= old(out)@ + left_aligned(s@, w as nat));
    }
}

fn write_row(out: &mut String, row: &MemoryRow, w: usize)
    ensures
        final(out)@ == old(out)@ + row_text(row@, w as nat),
{
    let mut number = String::new();
    write_u64(&mut number, row.line as u64);
    let n = number.unicode_len();
    if n < 5 {
        write_spaces(out, 5 - n);
    }
    append(out, number.as_str());
    append(out, "  ");
    write_left(out, row.name.as_str(), w);
    append(out, "  ");
    let ghost head = right_aligned(nat_text(row.line as nat), 5) + "  "@ + left_aligned(row.name@, w as nat) + "  "@;
    assert(out@ =~= old(out)@ + head);
    if row.causes.len() == 0 {
        append(out, "nothing\n");
        assert(out@ =~= old(out)@ + row_text(row@, w as nat));
        return;
    }
    append(out, row.causes[0].as_str());
    append(out, "\n");
    let ghost cs = view_names(row.causes@);
    let ghost first = old(out)@ + head + cs[0] + "\n"@;
    assert(out@ =~= first);
    let mut i: usize = 1;
    assert(cs.skip(1).take(0) =~= Seq::<Seq<char>>::empty());
    while i < row.causes.len()
        invariant
            1 <= i <= row.causes@.len(),
            cs == view_names(row.causes@),
            out@ == first + further_lines(cs.skip(1).take(i - 1), w as nat),
        decreases row.causes.len() - i,
    {
        write_spaces(out, 5);
        append(out, "  ");
        write_spaces(out, w);
        append(out, "  ");
        append(out, row.causes[i].as_str());
        append(out, "\n");
        proof {
            let t = cs.skip(1).take(i as int);
            assert(t.drop_last() =~= cs.skip(1).take(i - 1));
            assert(t.last() == cs[i as int]);
        }
        assert(out@ =~= first + further_lines(cs.skip(1).take(i as int), w as nat));
        i = i + 1;
    }
    assert(cs.skip(1).take(i - 1) =~= cs.skip(1));
}

/// The memory report's table: the rows in the order their functions are declared (rows on the
/// same line keep the order they came in), one line per row and one more for each further cause,
/// the names column as wide as the widest name; or a sentence saying the program declares no
/// functions.
pub fn memory_table(rows: Vec<MemoryRow>) -> (r: String)
    ensures
        exists|sorted: Seq<MemoryRowV>| {
            &&& by_line(sorted)
            &&& sorted.to_multiset() == rows_view(rows@).to_multiset()
            &&& (forall|n: nat| #[trigger] on_line(sorted, n) == on_line(rows_view(rows@), n))
            &&& r@ == table_text(sorted)
        },
{
    let ghost original = rows_view(rows@);
    let mut rest = rows;
    let count = rest.len();
    let mut sorted: Vec<MemoryRow> = Vec::new();
    let mut i: usize = 0;
    proof {
        assert(original.take(0) =~= Seq::<MemoryRowV>::empty());
        assert(rows_view(sorted@) =~= Seq::<MemoryRowV>::empty());
        assert forall|n: nat| #[trigger] on_line(rows_view(sorted@), n) == on_line(original.take(0), n) by {
            assert(on_line(rows_view(sorted@), n) =~= Seq::<MemoryRowV>::empty());
            assert(on_line(original.take(0), n) =~= Seq::<MemoryRowV>::empty());
        }
    }
    while rest.len() > 0
        invariant
            i + rest@.len() == original.len(),
            original.len() == count as nat,
            rows_view(rest@) == original.skip(i as int),
            by_line(rows_view(sorted@)),
            rows_view(sorted@).to_multiset() == original.take(i as int).to_multiset(),
            forall|n: nat| #[trigger] on_line(rows_view(sorted@), n) == on_line(original.take(i as int), n),
        decreases rest.len(),
    {
        let ghost rest_before = rows_view(rest@);
        let ghost raw_before = rest@;
        let row = rest.remove(0);
        proof {
            assert(rest_before[0] == row@);
            assert(row@ == original[i as int]);
            assert(original.take(i + 1) =~= original.take(i as int).push(row@));
            original.take(i as int).to_multiset_ensures();
            assert forall|q: int| 0 <= q < rest@.len() implies #[trigger] rows_view(rest@)[q] == original.skip(i + 1)[q] by {
                assert(rest@[q] == raw_before[q + 1]);
                assert(rest_before[q + 1] == raw_before[q + 1]@);
            }
            assert(rows_view(rest@) =~= original.skip(i + 1));
        }
        insert_by_line(&mut sorted, row);
        proof {
            assert forall|n: nat| #[trigger] on_line(rows_view(sorted@), n) == on_line(original.take(i + 1), n) by {
                lemma_on_line_push(original.take(i as int), original[i as int], n);
            }
        }
        i = i + 1;
    }
    assert(original.take(i as int) =~= original);
    let ghost sv = rows_view(sorted@);
    let mut out = String::new();
    if sorted.len() == 0 {
        append(&mut out, "this program declares no functions\n");
        return out;
    }
    let mut w: usize = 0;
    let mut k: usize = 0;
    while k < sorted.len()
        invariant
            0 <= k <= sorted@.len(),
            sv == rows_view(sorted@),
            w == widest(sv.take(k as int)),
        decreases sorted.len() - k,
    {
        assert(sv.take(k + 1).drop_last() =~= sv.take(k as int));
        let n = sorted[k].name.unicode_len();
        if w < n {
            w = n;
        }
        k = k + 1;
    }
    assert(sv.take(k as int) =~= sv);
    let mut j: usize = 0;
    assert(sv.take(0) =~= Seq::<MemoryRowV>::empty());
    while j < sorted.len()
        invariant
            0 <= j <= sorted@.len(),
            sv == rows_view(sorted@),
            w == widest(sv),
            out@ == rows_text(sv.take(j as int), w as nat),
        decreases sorted.len() - j,
    {
        write_row(&mut out, &sorted[j], w);
        assert(sv.take(j + 1).drop_last() =~= sv.take(j as int));
        j = j + 1;
    }
    assert(sv.take(j as int) =~= sv);
    out
}

/// The rows of the memory report before ordering: each checked function, declared on the line
/// `fn_lines` gives it, then each checked method, on the line `method_lines` gives it.
pub open spec fn report_rows(
    c: TypeChecker,
    fn_lines: Seq<usize>,
    fns: Seq<TypedFn>,
    method_lines: Seq<usize>,
    methods: Seq<TypedMethod>,
) -> Seq<MemoryRowV> {
    Seq::new(fns.len(), |i: int| MemoryRowV {
        line: fn_lines[i] as nat,
        name: fns[i].name@ + "()"@,
        causes: causes_of(c, listed(c.facts.alloc_fns@, fns[i].name@), fns[i].body@),
    }) + Seq::new(methods.len(), |i: int| MemoryRowV {
        line: method_lines[i] as nat,
        name: methods[i].receiver@ + "."@ + methods[i].name@ + "()"@,
        causes: causes_of(c, pair_listed(c.facts.alloc_methods@, methods[i].receiver@, methods[i].name@), methods[i].body@),
    })
}

impl TypeChecker {
    /// The memory report of a checked program: for each function and method, in the order they
    /// are declared (`fn_lines` and `method_lines` give the line each is declared on), whether it
    /// allocates in its caller's region and what does the allocating. See [`memory_table`].
    pub fn memory_report(
        &self,
        fn_lines: &Vec<usize>,
        fns: &Vec<TypedFn>,
        method_lines: &Vec<usize>,
        methods: &Vec<TypedMethod>,
    ) -> (r: String)
        requires
            fn_lines@.len() == fns@.len(),
            method_lines@.len() == methods@.len(),
        ensures
            exists|sorted: Seq<MemoryRowV>| {
                &&& by_line(sorted)
                &&& sorted.to_multiset() == report_rows(*self, fn_lines@, fns@, method_lines@, methods@).to_multiset()
                &&& (forall|n: nat| #[trigger] on_line(sorted, n) == on_line(report_rows(*self, fn_lines@, fns@, method_lines@, methods@), n))
                &&& r@ == table_text(sorted)
            },
    {
        let ghost want = report_rows(*self, fn_lines@, fns@, method_lines@, methods@);
        let mut rows: Vec<MemoryRow> = Vec::new();
        assert(rows_view(rows@) =~= want.take(0));
        let mut i: usize = 0;
        while i < fns.len()
            invariant
                0 <= i <= fns@.len(),
                fn_lines@.len() == fns@.len(),
                method_lines@.len() == methods@.len(),
                want == report_rows(*self, fn_lines@, fns@, method_lines@, methods@),
                want.len() == fns@.len() + methods@.len(),
                rows@.len() == i,
                rows_view(rows@) =~= want.take(i as int),
            decreases fns.len() - i,
        {
            let row = self.function_row(fn_lines[i], &fns[i].name, &fns[i].body);
            let ghost before = rows_view(rows@);
            let ghost raw = rows@;
            let ghost rv = row@;
            rows.push(row);
            assert(rows@ == raw.push(row));
            proof {
                assert(want[i as int] == rv);
                assert forall|j: int| 0 <= j < i + 1 implies #[trigger] rows_view(rows@)[j] == want.take((i + 1) as int)[j] by {
                    if j < i {
                        assert(rows@[j] == raw[j]);
                        assert(rows_view(rows@)[j] == before[j]);
                    }
                }
                assert(rows_view(rows@) =~= want.take((i + 1) as int));
            }
            i = i + 1;
        }
        let mut k: usize = 0;
        while k < methods.len()
            invariant
                0 <= k <= methods@.len(),
                fn_lines@.len() == fns@.len(),
                method_lines@.len() == methods@.len(),
                want == report_rows(*self, fn_lines@, fns@, method_lines@, methods@),
                want.len() == fns@.len() + methods@.len(),
                rows@.len() == fns@.len() + k,
                rows_view(rows@) =~= want.take(fns@.len() + k),
            decreases methods.len() - k,
        {
            let row = self.method_row(method_lines[k], &methods[k].receiver, &methods[k].name, &methods[k].body);
            let ghost before = rows_view(rows@);
            let ghost raw = rows@;
            let ghost rv = row@;
            rows.push(row);
            assert(rows@ == raw.push(row));
            proof {
                assert(want[fns@.len() + k] == rv);
                assert forall|j: int| 0 <= j < fns@.len() + k + 1 implies #[trigger] rows_view(rows@)[j] == want.take(fns@.len() + k + 1)[j] by {
                    if j < fns@.len() + k {
                        assert(rows@[j] == raw[j]);
                        assert(rows_view(rows@)[j] == before[j]);
                    }
                }
                assert(rows_view(rows@) =~= want.take(fns@.len() + k + 1));
            }
            k = k + 1;
        }
        assert(want.take(fns@.len() + k) =~= want);
        memory_table(rows)
    }
}

} // verus!
