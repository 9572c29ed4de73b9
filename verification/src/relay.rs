//! Which storage a returned value hands back: a body that returns what it was given, rather than
//! something it built, relays its parameter, and a caller must treat the answer as whatever it
//! passed in.
use vstd::prelude::*;
use crate::names::NameMap;
use crate::release::{CallFacts, index_listed, triple_listed, dyn_relays, has_index, has_triple, dyn_call_relays};
use crate::storage::{fuel_for, holds_storage, may_be_region_storage};
use crate::typed::{TypedExpr, TypedExprKind};

verus! {

/// Where a returned value's storage came from, when it came from the caller: the receiver of a
/// method, or a parameter by position.
#[derive(PartialEq, Eq, Structural, Clone, Copy, Debug)]
pub enum RelaySource {
    Receiver,
    Parameter(usize),
}

/// A parameter's position in its body's parameter list.
pub struct Position {
    pub index: usize,
}

impl View for Position {
    type V = usize;

    open spec fn view(&self) -> usize {
        self.index
    }
}

/// The sources a `match` payload name carries: whatever the matched value pointed at.
pub struct Sources {
    pub sources: Vec<RelaySource>,
}

impl View for Sources {
    type V = Seq<RelaySource>;

    open spec fn view(&self) -> Seq<RelaySource> {
        self.sources@
    }
}

/// What the body being checked knows about its names: each parameter's position, and the sources
/// of each `match` payload name in scope.
pub struct RelayScope {
    pub param_positions: NameMap<Position>,
    pub relay_aliases: NameMap<Sources>,
}

/// The sources of a name: the receiver for `self`, a parameter for a parameter, and a payload
/// name's sources for a payload name.
pub open spec fn name_sources(scope: RelayScope, name: Seq<char>) -> Seq<RelaySource> {
    if name == "self"@ {
        seq![RelaySource::Receiver]
    } else if scope.param_positions@.contains_key(name) {
        seq![RelaySource::Parameter(scope.param_positions@[name])]
    } else if scope.relay_aliases@.contains_key(name) {
        scope.relay_aliases@[name]
    } else {
        Seq::empty()
    }
}

/// Which of the body's parameters (or its receiver) the value could still be pointing at, in
/// the order they are found. Reaching into a value does not copy what it points at; an
/// aggregate built here holds what it was built from; a call that hands back an argument hands
/// back that argument's sources. Whatever builds fresh storage relays nothing.
pub open spec fn relay_sources(f: CallFacts, scope: RelayScope, e: TypedExpr) -> Seq<RelaySource>
    decreases e, 1int,
{
    match e.kind {
        TypedExprKind::Var(name) => name_sources(scope, name@),
        TypedExprKind::Field { base, .. } => relay_sources(f, scope, *base),
        TypedExprKind::Index { base, index, .. } => relay_sources(f, scope, *base) + relay_sources(f, scope, *index),
        TypedExprKind::SliceIndex { base, index } => relay_sources(f, scope, *base) + relay_sources(f, scope, *index),
        TypedExprKind::Try { value, .. } => relay_sources(f, scope, *value),
        TypedExprKind::StructLit { fields, .. } => all_sources(f, scope, fields@),
        TypedExprKind::VariantLit { arguments, .. } => all_sources(f, scope, arguments@),
        TypedExprKind::ArrayLit(items) => all_sources(f, scope, items@),
        TypedExprKind::SliceLit(items) => all_sources(f, scope, items@),
        TypedExprKind::Call { name, arguments } => call_sources(f, scope, name@, arguments@, 0),
        TypedExprKind::MethodCall { receiver, method, base, arguments, .. } =>
            (if triple_listed(f.relay_methods@, receiver@, method@, 0) { relay_sources(f, scope, *base) } else { Seq::empty() })
                + method_sources(f, scope, receiver@, method@, arguments@, 1),
        TypedExprKind::DynCall { interface_name, method, base, arguments, .. } =>
            (if dyn_relays(f, interface_name@, method@, 0) { relay_sources(f, scope, *base) } else { Seq::empty() })
                + dyn_sources(f, scope, interface_name@, method@, arguments@, 1),
        _ => Seq::empty(),
    }
}

/// [`relay_sources`] of each expression of a list, one after another.
pub open spec fn all_sources(f: CallFacts, scope: RelayScope, es: Seq<TypedExpr>) -> Seq<RelaySource>
    decreases es, 0int,
{
    if es.len() == 0 {
        Seq::empty()
    } else {
        relay_sources(f, scope, es[0]) + all_sources(f, scope, es.skip(1))
    }
}

/// The sources of the arguments, the first numbered `i`, that function `name` hands back.
pub open spec fn call_sources(f: CallFacts, scope: RelayScope, name: Seq<char>, es: Seq<TypedExpr>, i: int) -> Seq<RelaySource>
    decreases es, 0int,
{
    if es.len() == 0 {
        Seq::empty()
    } else {
        (if index_listed(f.relay_params@, name, i) { relay_sources(f, scope, es[0]) } else { Seq::empty() })
            + call_sources(f, scope, name, es.skip(1), i + 1)
    }
}

/// The sources of the arguments, the first numbered `i`, that the method hands back.
pub open spec fn method_sources(
    f: CallFacts,
    scope: RelayScope,
    receiver: Seq<char>,
    method: Seq<char>,
    es: Seq<TypedExpr>,
    i: int,
) -> Seq<RelaySource>
    decreases es, 0int,
{
    if es.len() == 0 {
        Seq::empty()
    } else {
        (if triple_listed(f.relay_methods@, receiver, method, i) { relay_sources(f, scope, es[0]) } else { Seq::empty() })
            + method_sources(f, scope, receiver, method, es.skip(1), i + 1)
    }
}

/// The sources of the arguments, the first numbered `i`, that some implementation of the
/// interface method hands back.
pub open spec fn dyn_sources(
    f: CallFacts,
    scope: RelayScope,
    interface: Seq<char>,
    method: Seq<char>,
    es: Seq<TypedExpr>,
    i: int,
) -> Seq<RelaySource>
    decreases es, 0int,
{
    if es.len() == 0 {
        Seq::empty()
    } else {
        (if dyn_relays(f, interface, method, i) { relay_sources(f, scope, es[0]) } else { Seq::empty() })
            + dyn_sources(f, scope, interface, method, es.skip(1), i + 1)
    }
}

fn is_self(name: &String) -> (r: bool)
    ensures
        r == (name@ == "self"@),
{
    proof {
        reveal_strlit("self");
    }
    let s = name.as_str();
    if s.unicode_len() != 4 {
        return false;
    }
    let r = s.get_char(0) == 's' && s.get_char(1) == 'e' && s.get_char(2) == 'l' && s.get_char(3) == 'f';
    if r {
        assert(s@ =~= "self"@);
    }
    r
}

/// Appends [`relay_sources`] of `e`.
fn collect_relayed_sources(facts: &CallFacts, scope: &RelayScope, e: &TypedExpr, found: &mut Vec<RelaySource>)
    ensures
        final(found)@ == old(found)@ + relay_sources(*facts, *scope, *e),
    decreases e, 1int,
{
    let ghost start = found@;
    match &e.kind {
        TypedExprKind::Var(name) => {
            if is_self(name) {
                found.push(RelaySource::Receiver);
            } else {
                match scope.param_positions.get(name) {
                    Some(p) => found.push(RelaySource::Parameter(p.index)),
                    None => match scope.relay_aliases.get(name) {
                        Some(sources) => {
                            let mut k: usize = 0;
                            while k < sources.sources.len()
                                invariant
                                    0 <= k <= sources.sources@.len(),
                                    found@ == start + sources.sources@.take(k as int),
                                decreases sources.sources.len() - k,
                            {
                                found.push(sources.sources[k]);
                                assert(sources.sources@.take(k + 1) =~= sources.sources@.take(k as int).push(sources.sources@[k as int]));
                                k = k + 1;
                            }
                            assert(sources.sources@.take(k as int) =~= sources.sources@);
                        },
                        None => {},
                    },
                }
            }
        },
        TypedExprKind::Field { base, .. } => collect_relayed_sources(facts, scope, base, found),
        TypedExprKind::Index { base, index, .. } | TypedExprKind::SliceIndex { base, index } => {
            collect_relayed_sources(facts, scope, base, found);
            collect_relayed_sources(facts, scope, index, found);
        },
        TypedExprKind::Try { value, .. } => collect_relayed_sources(facts, scope, value, found),
        TypedExprKind::StructLit { fields: items, .. } | TypedExprKind::VariantLit { arguments: items, .. }
        | TypedExprKind::ArrayLit(items) | TypedExprKind::SliceLit(items) => {
            collect_all(facts, scope, items, found);
        },
        TypedExprKind::Call { name, arguments } => {
            collect_call(facts, scope, name, arguments, found);
        },
        TypedExprKind::MethodCall { receiver, method, base, arguments, .. } => {
            if has_triple(&facts.relay_methods, receiver, method, 0) {
                collect_relayed_sources(facts, scope, base, found);
            }
            collect_method(facts, scope, receiver, method, arguments, found);
        },
        TypedExprKind::DynCall { interface_name, method, base, arguments, .. } => {
            if dyn_call_relays(facts, interface_name, method, 0) {
                collect_relayed_sources(facts, scope, base, found);
            }
            collect_dyn(facts, scope, interface_name, method, arguments, found);
        },
        _ => {},
    }
    assert(found@ =~= start + relay_sources(*facts, *scope, *e));
}

fn collect_all(facts: &CallFacts, scope: &RelayScope, es: &Vec<TypedExpr>, found: &mut Vec<RelaySource>)
    ensures
        final(found)@ == old(found)@ + all_sources(*facts, *scope, es@),
    decreases es, 0int,
{
    let ghost start = found@;
    proof {
        assert(es@.skip(0) =~= es@);
    }
    let mut i: usize = 0;
    while i < es.len()
        invariant
            0 <= i <= es@.len(),
            start + all_sources(*facts, *scope, es@) == found@ + all_sources(*facts, *scope, es@.skip(i as int)),
        decreases es.len() - i,
    {
        proof {
            assert(es@.skip(i as int).skip(1) =~= es@.skip(i + 1));
            assert(es@.skip(i as int)[0] == es@[i as int]);
            assert(decreases_to!(es => es@[i as int]));
        }
        let ghost before = found@;
        collect_relayed_sources(facts, scope, &es[i], found);
        assert(before + all_sources(*facts, *scope, es@.skip(i as int)) =~= found@ + all_sources(*facts, *scope, es@.skip(i + 1)));
        i = i + 1;
    }
    assert(found@ + all_sources(*facts, *scope, es@.skip(i as int)) =~= found@);
}

fn collect_call(facts: &CallFacts, scope: &RelayScope, name: &String, es: &Vec<TypedExpr>, found: &mut Vec<RelaySource>)
    ensures
        final(found)@ == old(found)@ + call_sources(*facts, *scope, name@, es@, 0),
    decreases es, 0int,
{
    let ghost start = found@;
    proof {
        assert(es@.skip(0) =~= es@);
    }
    let mut i: usize = 0;
    while i < es.len()
        invariant
            0 <= i <= es@.len(),
            start + call_sources(*facts, *scope, name@, es@, 0) == found@ + call_sources(*facts, *scope, name@, es@.skip(i as int), i as int),
        decreases es.len() - i,
    {
        proof {
            assert(es@.skip(i as int).skip(1) =~= es@.skip(i + 1));
            assert(es@.skip(i as int)[0] == es@[i as int]);
            assert(decreases_to!(es => es@[i as int]));
        }
        let ghost before = found@;
        if has_index(&facts.relay_params, name, i) {
            collect_relayed_sources(facts, scope, &es[i], found);
        }
        assert(before + call_sources(*facts, *scope, name@, es@.skip(i as int), i as int)
            =~= found@ + call_sources(*facts, *scope, name@, es@.skip(i + 1), i + 1));
        i = i + 1;
    }
    assert(found@ + call_sources(*facts, *scope, name@, es@.skip(i as int), i as int) =~= found@);
}

fn collect_method(
    facts: &CallFacts,
    scope: &RelayScope,
    receiver: &String,
    method: &String,
    es: &Vec<TypedExpr>,
    found: &mut Vec<RelaySource>,
)
    ensures
        final(found)@ == old(found)@ + method_sources(*facts, *scope, receiver@, method@, es@, 1),
    decreases es, 0int,
{
    let ghost start = found@;
    proof {
        assert(es@.skip(0) =~= es@);
    }
    let mut i: usize = 0;
    while i < es.len()
        invariant
            0 <= i <= es@.len(),
            start + method_sources(*facts, *scope, receiver@, method@, es@, 1)
                == found@ + method_sources(*facts, *scope, receiver@, method@, es@.skip(i as int), i + 1),
        decreases es.len() - i,
    {
        proof {
            assert(es@.skip(i as int).skip(1) =~= es@.skip(i + 1));
            assert(es@.skip(i as int)[0] == es@[i as int]);
            assert(decreases_to!(es => es@[i as int]));
        }
        let ghost before = found@;
        if has_triple(&facts.relay_methods, receiver, method, i + 1) {
            collect_relayed_sources(facts, scope, &es[i], found);
        }
        assert(before + method_sources(*facts, *scope, receiver@, method@, es@.skip(i as int), i + 1)
            =~= found@ + method_sources(*facts, *scope, receiver@, method@, es@.skip(i + 1), i + 2));
        i = i + 1;
    }
    assert(found@ + method_sources(*facts, *scope, receiver@, method@, es@.skip(i as int), i + 1) =~= found@);
}

fn collect_dyn(
    facts: &CallFacts,
    scope: &RelayScope,
    interface_name: &String,
    method: &String,
    es: &Vec<TypedExpr>,
    found: &mut Vec<RelaySource>,
)
    ensures
        final(found)@ == old(found)@ + dyn_sources(*facts, *scope, interface_name@, method@, es@, 1),
    decreases es, 0int,
{
    let ghost start = found@;
    proof {
        assert(es@.skip(0) =~= es@);
    }
    let mut i: usize = 0;
    while i < es.len()
        invariant
            0 <= i <= es@.len(),
            start + dyn_sources(*facts, *scope, interface_name@, method@, es@, 1)
                == found@ + dyn_sources(*facts, *scope, interface_name@, method@, es@.skip(i as int), i + 1),
        decreases es.len() - i,
    {
        proof {
            assert(es@.skip(i as int).skip(1) =~= es@.skip(i + 1));
            assert(es@.skip(i as int)[0] == es@[i as int]);
            assert(decreases_to!(es => es@[i as int]));
        }
        let ghost before = found@;
        if dyn_call_relays(facts, interface_name, method, i + 1) {
            collect_relayed_sources(facts, scope, &es[i], found);
        }
        assert(before + dyn_sources(*facts, *scope, interface_name@, method@, es@.skip(i as int), i + 1)
            =~= found@ + dyn_sources(*facts, *scope, interface_name@, method@, es@.skip(i + 1), i + 2));
        i = i + 1;
    }
    assert(found@ + dyn_sources(*facts, *scope, interface_name@, method@, es@.skip(i as int), i + 1) =~= found@);
}

/// Which of the body's parameters (or its receiver) the value could still be pointing at: see
/// [`relay_sources`].
pub fn relayed_sources(facts: &CallFacts, scope: &RelayScope, e: &TypedExpr) -> (r: Vec<RelaySource>)
    ensures
        r@ == relay_sources(*facts, *scope, *e),
{
    let mut found: Vec<RelaySource> = Vec::new();
    collect_relayed_sources(facts, scope, e, &mut found);
    assert(found@ =~= relay_sources(*facts, *scope, *e));
    found
}

pub(crate) proof fn lemma_index_listed_push(s: Seq<(String, usize)>, x: (String, usize), n: Seq<char>, k: int)
    ensures
        index_listed(s.push(x), n, k) == (index_listed(s, n, k) || (x.0@ == n && x.1 == k)),
{
    if index_listed(s, n, k) {
        let i = choose|i: int| 0 <= i < s.len() && (#[trigger] s[i]).0@ == n && s[i].1 == k;
        assert(s.push(x)[i] == s[i]);
    }
    if x.0@ == n && x.1 == k {
        assert(s.push(x)[s.len() as int] == x);
    }
    if index_listed(s.push(x), n, k) {
        let i = choose|i: int| 0 <= i < s.push(x).len() && (#[trigger] s.push(x)[i]).0@ == n && s.push(x)[i].1 == k;
        if i < s.len() {
            assert(s[i] == s.push(x)[i]);
        }
    }
}

proof fn lemma_triple_listed_push(s: Seq<(String, String, usize)>, x: (String, String, usize), a: Seq<char>, b: Seq<char>, k: int)
    ensures
        triple_listed(s.push(x), a, b, k) == (triple_listed(s, a, b, k) || (x.0@ == a && x.1@ == b && x.2 == k)),
{
    if triple_listed(s, a, b, k) {
        let i = choose|i: int| 0 <= i < s.len() && (#[trigger] s[i]).0@ == a && s[i].1@ == b && s[i].2 == k;
        assert(s.push(x)[i] == s[i]);
    }
    if x.0@ == a && x.1@ == b && x.2 == k {
        assert(s.push(x)[s.len() as int] == x);
    }
    if triple_listed(s.push(x), a, b, k) {
        let i = choose|i: int| 0 <= i < s.push(x).len() && (#[trigger] s.push(x)[i]).0@ == a && s.push(x)[i].1@ == b
            && s.push(x)[i].2 == k;
        if i < s.len() {
            assert(s[i] == s.push(x)[i]);
        }
    }
}

/// Whether parameter `k` is among the sources.
pub open spec fn relays_param(srcs: Seq<RelaySource>, k: int) -> bool {
    exists|q: int| 0 <= q < srcs.len() && ((#[trigger] srcs[q]) matches RelaySource::Parameter(i) && i == k)
}

proof fn lemma_sources_push(t: Seq<RelaySource>, x: RelaySource)
    ensures
        forall|k: int| #[trigger] relays_param(t.push(x), k) == (relays_param(t, k) || (x matches RelaySource::Parameter(i) && i == k)),
        t.push(x).contains(RelaySource::Receiver) == (t.contains(RelaySource::Receiver) || x == RelaySource::Receiver),
{
    let t2 = t.push(x);
    assert forall|k: int| #[trigger] relays_param(t2, k) == (relays_param(t, k) || (x matches RelaySource::Parameter(i) && i == k)) by {
        if relays_param(t2, k) {
            let q = choose|q: int| 0 <= q < t2.len() && ((#[trigger] t2[q]) matches RelaySource::Parameter(i) && i == k);
            if q < t.len() {
                assert(t[q] == t2[q]);
            }
        }
        if relays_param(t, k) {
            let q = choose|q: int| 0 <= q < t.len() && ((#[trigger] t[q]) matches RelaySource::Parameter(i) && i == k);
            assert(t2[q] == t[q]);
        }
        if x matches RelaySource::Parameter(i) && i == k {
            assert(t2[t.len() as int] == x);
        }
    }
    if t2.contains(RelaySource::Receiver) {
        let q = choose|q: int| 0 <= q < t2.len() && t2[q] == RelaySource::Receiver;
        if q < t.len() {
            assert(t[q] == t2[q]);
        }
    }
    if t.contains(RelaySource::Receiver) {
        let q = choose|q: int| 0 <= q < t.len() && t[q] == RelaySource::Receiver;
        assert(t2[q] == t[q]);
    }
    if x == RelaySource::Receiver {
        assert(t2[t.len() as int] == x);
    }
}

/// Whether a `return` is recorded at all: only while probing, only for a value whose type can
/// carry a pointer into a region, and only inside a function or method (`name` non-empty; the top
/// level has no signature to carry the answer).
pub open spec fn records(f: CallFacts, probing: bool, name: Seq<char>, returned: TypedExpr) -> bool {
    probing && holds_storage(f.layouts@, returned.ty@, Seq::empty(), fuel_for(f.layouts)) && name.len() > 0
}

/// Records that the body of `name` (a method of `receiver`, or a free function when `receiver`
/// is empty) may hand back storage it was given, from what it returns. A free function records a
/// relayed parameter `i` as `(name, i)`; a method records its receiver as `(receiver, name, 0)`
/// and parameter `i` as `(receiver, name, i + 1)`. A free function has no receiver to relay.
pub fn record_relay(
    facts: &CallFacts,
    scope: &RelayScope,
    probing: bool,
    receiver: &String,
    name: &String,
    returned: &TypedExpr,
    relay_params: &mut Vec<(String, usize)>,
    relay_methods: &mut Vec<(String, String, usize)>,
)
    requires
        forall|j: int| 0 <= j < relay_sources(*facts, *scope, *returned).len()
            ==> ((#[trigger] relay_sources(*facts, *scope, *returned)[j]) matches RelaySource::Parameter(i) ==> i < usize::MAX),
    ensures
        forall|n: Seq<char>, k: int| #[trigger] index_listed(final(relay_params)@, n, k) == (index_listed(old(relay_params)@, n, k)
            || (records(*facts, probing, name@, *returned) && receiver@.len() == 0 && n == name@
                && relays_param(relay_sources(*facts, *scope, *returned), k))),
        forall|a: Seq<char>, b: Seq<char>, k: int| #[trigger] triple_listed(final(relay_methods)@, a, b, k) == (triple_listed(old(relay_methods)@, a, b, k)
            || (records(*facts, probing, name@, *returned) && receiver@.len() > 0 && a == receiver@ && b == name@ && (
                (k == 0 && relay_sources(*facts, *scope, *returned).contains(RelaySource::Receiver))
                || relays_param(relay_sources(*facts, *scope, *returned), k - 1)))),
{
    let ghost srcs = relay_sources(*facts, *scope, *returned);
    if !probing || !may_be_region_storage(&facts.layouts, &returned.ty) || name.unicode_len() == 0 {
        return;
    }
    let sources = relayed_sources(facts, scope, returned);
    let free = receiver.unicode_len() == 0;
    let mut j: usize = 0;
    while j < sources.len()
        invariant
            0 <= j <= sources@.len(),
            sources@ == srcs,
            records(*facts, probing, name@, *returned),
            free == (receiver@.len() == 0),
            forall|q: int| 0 <= q < srcs.len() ==> ((#[trigger] srcs[q]) matches RelaySource::Parameter(i) ==> i < usize::MAX),
            forall|n: Seq<char>, k: int| #[trigger] index_listed(relay_params@, n, k) == (index_listed(old(relay_params)@, n, k)
                || (free && n == name@ && relays_param(srcs.take(j as int), k))),
            forall|a: Seq<char>, b: Seq<char>, k: int| #[trigger] triple_listed(relay_methods@, a, b, k) == (triple_listed(old(relay_methods)@, a, b, k)
                || (!free && a == receiver@ && b == name@ && (
                    (k == 0 && srcs.take(j as int).contains(RelaySource::Receiver))
                    || relays_param(srcs.take(j as int), k - 1)))),
        decreases sources.len() - j,
    {
        let source = sources[j];
        let ghost t = srcs.take(j as int);
        let ghost t2 = srcs.take(j + 1);
        proof {
            assert(t2 =~= t.push(source));
            lemma_sources_push(t, source);
        }
        let ghost params_before = relay_params@;
        let ghost methods_before = relay_methods@;
        match source {
            RelaySource::Receiver => {
                if !free {
                    relay_methods.push((receiver.clone(), name.clone(), 0));
                    proof {
                        assert forall|a: Seq<char>, b: Seq<char>, k: int| #[trigger] triple_listed(relay_methods@, a, b, k)
                            == (triple_listed(methods_before, a, b, k) || (a == receiver@ && b == name@ && k == 0)) by {
                            lemma_triple_listed_push(methods_before, (*receiver, *name, 0usize), a, b, k);
                        }
                    }
                }
            },
            RelaySource::Parameter(i) => {
                if free {
                    relay_params.push((name.clone(), i));
                    proof {
                        assert forall|n: Seq<char>, k: int| #[trigger] index_listed(relay_params@, n, k)
                            == (index_listed(params_before, n, k) || (n == name@ && k == i)) by {
                            lemma_index_listed_push(params_before, (*name, i), n, k);
                        }
                    }
                } else {
                    assert(srcs[j as int] == source);
                    relay_methods.push((receiver.clone(), name.clone(), i + 1));
                    proof {
                        assert forall|a: Seq<char>, b: Seq<char>, k: int| #[trigger] triple_listed(relay_methods@, a, b, k)
                            == (triple_listed(methods_before, a, b, k) || (a == receiver@ && b == name@ && k == i + 1)) by {
                            lemma_triple_listed_push(methods_before, (*receiver, *name, (i + 1) as usize), a, b, k);
                        }
                    }
                }
            },
        }
        j = j + 1;
    }
    assert(srcs.take(j as int) =~= srcs);
}

/// A value built fresh hands back nothing it was given: joining Strings, `to_string`,
/// `substring`, `byte_as_string`, reading a file or C's bytes, `push`, `argument`, and a literal
/// all relay nothing, so returning one never makes a body a relay.
pub proof fn lemma_builders_relay_nothing(f: CallFacts, scope: RelayScope, e: TypedExpr)
    requires
        e.kind is Binary || e.kind is ToString || e.kind is Substring || e.kind is ByteAsString
            || e.kind is ReadFile || e.kind is CStringAt || e.kind is CBytesAt || e.kind is Push || e.kind is Arg
            || e.kind is StrLit || e.kind is IntLit || e.kind is DecimalLit || e.kind is BoolLit,
    ensures
        relay_sources(f, scope, e).len() == 0,
{
}

} // verus!
