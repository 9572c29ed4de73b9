//! The arms of a `match` on an enum: each names one variant, once, with every payload value,
//! and together they handle every variant.
use vstd::prelude::*;
use crate::members::{find_variant, no_variant_text, variant_position};
use crate::storage::view_variants;
use crate::text::{nat_text, write_u64};
use crate::ty::{Type, TypeV, append, lemma_view_types, view_types};
use crate::messages::{shadows_a_const, shadows_text};
use crate::names::NameMap;
use crate::typed::TypedArm;

verus! {

/// The refusal of a `_` arm in a `match` on an enum.
pub open spec fn wildcard_text() -> Seq<char> {
    "Burxt has no `_` wildcard arm: it would silently absorb variants added later, which is the one thing exhaustive matching exists to prevent. List the remaining variants."@
}

/// Whether one of the arms already checked has this tag.
pub open spec fn tag_taken(tags: Seq<u32>, tag: u32) -> bool {
    exists|k: int| 0 <= k < tags.len() && tags[k] == tag
}

/// The tags of arms.
pub open spec fn arm_tags(arms: Seq<TypedArm>) -> Seq<u32> {
    Seq::new(arms.len(), |i: int| arms[i].tag)
}

/// The tag of an arm naming `v` with `n_bindings` payload names, in a `match` on a value shown as
/// `shown` whose enum has variants `vs`, after arms with tags `seen`: refused for `_`, for a
/// variant the enum does not have, for one already matched, and for a pattern that does not name
/// every payload value.
pub open spec fn arm_rule(vs: Seq<(Seq<char>, Seq<TypeV>)>, shown: Seq<char>, seen: Seq<u32>, v: Seq<char>, n_bindings: nat)
    -> Result<u32, Seq<char>> {
    if v == "_"@ {
        Err(wildcard_text())
    } else {
        match variant_position(vs, v) {
            None => Err(no_variant_text(shown, vs, v)),
            Some(t) => if tag_taken(seen, t as u32) {
                Err("`"@ + v + "` is matched twice in this `match`"@)
            } else if n_bindings != vs[t].1.len() {
                Err("`"@ + shown + "."@ + v + "` carries "@ + nat_text(vs[t].1.len()) + " value(s), but this pattern names "@
                    + nat_text(n_bindings) + ". Name every payload value, so nothing is silently dropped."@)
            } else {
                Ok(t as u32)
            },
        }
    }
}

fn tag_seen(seen: &Vec<TypedArm>, tag: u32) -> (r: bool)
    ensures
        r == tag_taken(arm_tags(seen@), tag),
{
    let mut k: usize = 0;
    while k < seen.len()
        invariant
            0 <= k <= seen@.len(),
            forall|q: int| 0 <= q < k ==> #[trigger] arm_tags(seen@)[q] != tag,
        decreases seen.len() - k,
    {
        if seen[k].tag == tag {
            assert(arm_tags(seen@)[k as int] == tag);
            return true;
        }
        k = k + 1;
    }
    false
}

/// Checks the pattern of one arm: see [`arm_rule`]. `seen` is the arms already checked.
pub fn arm_tag(
    variants: &Vec<(String, Vec<Type>)>,
    shown: &String,
    seen: &Vec<TypedArm>,
    variant: &String,
    n_bindings: usize,
) -> (r: Result<u32, String>)
    ensures
        match arm_rule(view_variants(variants@), shown@, arm_tags(seen@), variant@, n_bindings as nat) {
            Ok(t) => r == Ok::<u32, String>(t),
            Err(m) => r matches Err(e) && e@ == m,
        },
{
    proof {
        reveal_strlit("_");
    }
    let wild = String::from_str("_");
    if *variant == wild {
        return Err(String::from_str("Burxt has no `_` wildcard arm: it would silently absorb variants added later, which is the one thing exhaustive matching exists to prevent. List the remaining variants."));
    }
    let at = match find_variant(shown, variants, variant) {
        Ok(t) => t,
        Err(e) => return Err(e),
    };
    let tag = at as u32;
    if tag_seen(seen, tag) {
        let mut out = String::new();
        append(&mut out, "`");
        append(&mut out, variant.as_str());
        append(&mut out, "` is matched twice in this `match`");
        return Err(out);
    }
    assert(!tag_taken(arm_tags(seen@), tag));
    let payload = &variants[at].1;
    proof {
        lemma_view_types(payload@);
        assert(view_variants(variants@)[at as int].1 == view_types(payload@));
    }
    if n_bindings != payload.len() {
        let mut out = String::new();
        append(&mut out, "`");
        append(&mut out, shown.as_str());
        append(&mut out, ".");
        append(&mut out, variant.as_str());
        append(&mut out, "` carries ");
        write_u64(&mut out, payload.len() as u64);
        append(&mut out, " value(s), but this pattern names ");
        write_u64(&mut out, n_bindings as u64);
        append(&mut out, ". Name every payload value, so nothing is silently dropped.");
        return Err(out);
    }
    Ok(tag)
}

/// The names of the first `n` variants that no arm handles, in declaration order.
pub open spec fn unhandled_names(vs: Seq<(Seq<char>, Seq<TypeV>)>, tags: Seq<u32>, n: nat) -> Seq<Seq<char>>
    decreases n,
{
    if n == 0 {
        Seq::empty()
    } else {
        unhandled_names(vs, tags, (n - 1) as nat) + if tag_taken(tags, (n - 1) as u32) { Seq::empty() } else { seq![vs[n - 1].0] }
    }
}

/// Names, each in backticks, separated by `, `.
pub open spec fn quoted(names: Seq<Seq<char>>) -> Seq<char>
    decreases names.len(),
{
    if names.len() == 0 {
        Seq::empty()
    } else if names.len() == 1 {
        "`"@ + names[0] + "`"@
    } else {
        quoted(names.drop_last()) + ", `"@ + names.last() + "`"@
    }
}

/// The refusal of a `match` on a value shown as `shown` that leaves variants unhandled, or `None`
/// when every variant has an arm.
pub open spec fn exhaustive_rule(vs: Seq<(Seq<char>, Seq<TypeV>)>, shown: Seq<char>, tags: Seq<u32>) -> Option<Seq<char>> {
    let missing = unhandled_names(vs, tags, vs.len());
    if missing.len() == 0 {
        None
    } else {
        Some("this `match` on `"@ + shown + "` does not handle "@ + quoted(missing)
            + ". Every variant must be handled — that is what makes adding a variant later a compile error instead of a silent fall-through."@)
    }
}

/// Checks that the arms handle every variant: see [`exhaustive_rule`].
pub fn unhandled(variants: &Vec<(String, Vec<Type>)>, shown: &String, arms: &Vec<TypedArm>) -> (r: Option<String>)
    ensures
        match exhaustive_rule(view_variants(variants@), shown@, arm_tags(arms@)) {
            Some(m) => r matches Some(e) && e@ == m,
            None => r is None,
        },
{
    let ghost vs = view_variants(variants@);
    let ghost tags = arm_tags(arms@);
    let mut listed_text = String::new();
    let mut count: usize = 0;
    let mut i: usize = 0;
    while i < variants.len()
        invariant
            0 <= i <= variants@.len(),
            vs == view_variants(variants@),
            tags == arm_tags(arms@),
            count == unhandled_names(vs, tags, i as nat).len(),
            listed_text@ == quoted(unhandled_names(vs, tags, i as nat)),
            count <= i,
        decreases variants.len() - i,
    {
        let tag = i as u32;
        let mut handled = false;
        let mut k: usize = 0;
        while k < arms.len()
            invariant
                0 <= k <= arms@.len(),
                tags == arm_tags(arms@),
                handled == (exists|q: int| 0 <= q < k && tags[q] == tag),
            decreases arms.len() - k,
        {
            if arms[k].tag == tag {
                assert(tags[k as int] == tag);
                handled = true;
            }
            k = k + 1;
        }
        let ghost before = unhandled_names(vs, tags, i as nat);
        assert(handled == tag_taken(tags, i as u32));
        if !handled {
            if count > 0 {
                append(&mut listed_text, ", `");
            } else {
                append(&mut listed_text, "`");
            }
            append(&mut listed_text, variants[i].0.as_str());
            append(&mut listed_text, "`");
            count = count + 1;
            proof {
                let after = unhandled_names(vs, tags, (i + 1) as nat);
                assert(after =~= before.push(vs[i as int].0));
                assert(after.drop_last() =~= before);
            }
        } else {
            assert(unhandled_names(vs, tags, (i + 1) as nat) =~= before);
        }
        i = i + 1;
    }
    if count == 0 {
        return None;
    }
    let mut out = String::new();
    append(&mut out, "this `match` on `");
    append(&mut out, shown.as_str());
    append(&mut out, "` does not handle ");
    append(&mut out, listed_text.as_str());
    append(&mut out, ". Every variant must be handled — that is what makes adding a variant later a compile error instead of a silent fall-through.");
    Some(out)
}

/// Whether the arms come in order of their tags.
pub open spec fn by_tag(arms: Seq<TypedArm>) -> bool {
    forall|i: int, j: int| 0 <= i < j < arms.len() ==> (#[trigger] arms[i]).tag <= (#[trigger] arms[j]).tag
}

/// The arms in the order of the variants they handle, for code generation: the same arms, by tag.
pub fn arms_in_tag_order(arms: Vec<TypedArm>) -> (r: Vec<TypedArm>)
    ensures
        by_tag(r@),
        r@.to_multiset() == arms@.to_multiset(),
{
    let ghost original = arms@;
    let mut rest = arms;
    let mut out: Vec<TypedArm> = Vec::new();
    let mut i: usize = 0;
    let count = rest.len();
    proof {
        assert(original.take(0) =~= Seq::<TypedArm>::empty());
    }
    while rest.len() > 0
        invariant
            i + rest@.len() == original.len(),
            original.len() == count,
            rest@ == original.skip(i as int),
            by_tag(out@),
            out@.to_multiset() == original.take(i as int).to_multiset(),
        decreases rest.len(),
    {
        let arm = rest.remove(0);
        proof {
            assert(arm == original[i as int]);
            assert(rest@ =~= original.skip(i + 1));
            assert(original.take(i + 1) =~= original.take(i as int).push(arm));
            original.take(i as int).to_multiset_ensures();
        }
        let ghost before = out@;
        let mut k: usize = out.len();
        while k > 0 && out[k - 1].tag > arm.tag
            invariant
                0 <= k <= out@.len(),
                before == out@,
                forall|q: int| k <= q < out@.len() ==> (#[trigger] before[q]).tag > arm.tag,
            decreases k,
        {
            k = k - 1;
        }
        let ghost av = arm;
        out.insert(k, arm);
        proof {
            let after = before.insert(k as int, av);
            assert(out@ =~= after);
            assert forall|p: int, q: int| 0 <= p < q < after.len() implies (#[trigger] after[p]).tag <= (#[trigger] after[q]).tag by {
                if p < k && q < k {
                    assert(after[p] == before[p] && after[q] == before[q]);
                } else if p < k && q == k {
                    assert(after[p] == before[p]);
                    if p < k - 1 {
                        assert(before[p].tag <= before[k - 1].tag);
                    }
                } else if p < k && q > k {
                    assert(after[p] == before[p] && after[q] == before[q - 1]);
                } else if p == k {
                    assert(after[q] == before[q - 1]);
                } else {
                    assert(after[p] == before[p - 1] && after[q] == before[q - 1]);
                }
            }
            vstd::seq_lib::to_multiset_insert(before, k as int, av);
        }
        i = i + 1;
    }
    assert(original.take(i as int) =~= original);
    out
}

/// What binding the payload names `names` of an arm to the payload types `payload` does to the
/// variables in scope `env`, with `consts` the program's constants: each name, in order, becomes
/// an immutable variable of its payload type; the first name that a constant owns, or that is
/// already a variable (an earlier name of the same pattern included), is refused.
pub open spec fn payload_binding(
    consts: Map<Seq<char>, TypeV>,
    env: Map<Seq<char>, (TypeV, bool)>,
    names: Seq<String>,
    payload: Seq<TypeV>,
    n: nat,
) -> Result<Map<Seq<char>, (TypeV, bool)>, Seq<char>>
    decreases n,
{
    if n == 0 {
        Ok(env)
    } else {
        match payload_binding(consts, env, names, payload, (n - 1) as nat) {
            Err(m) => Err(m),
            Ok(e) => {
                let name = names[n - 1]@;
                if consts.contains_key(name) {
                    Err(shadows_text(name, consts[name]))
                } else if e.contains_key(name) {
                    Err("`"@ + name + "` is already declared — a pattern binding may not shadow it, the same rule `let` follows."@)
                } else {
                    Ok(e.insert(name, (payload[n - 1], false)))
                }
            },
        }
    }
}

proof fn lemma_binding_refused(
    consts: Map<Seq<char>, TypeV>,
    env: Map<Seq<char>, (TypeV, bool)>,
    names: Seq<String>,
    payload: Seq<TypeV>,
    n: nat,
    k: nat,
)
    requires
        n <= k,
        payload_binding(consts, env, names, payload, n) is Err,
    ensures
        payload_binding(consts, env, names, payload, k) == payload_binding(consts, env, names, payload, n),
    decreases k - n,
{
    if k > n {
        lemma_binding_refused(consts, env, names, payload, n, (k - 1) as nat);
    }
}

/// Binds the payload names of an arm in `env`: see [`payload_binding`]. On a refusal `env` is as
/// it was; otherwise it holds the new variables, and the answer is each name with its type, for
/// code generation.
pub fn bind_payload(
    consts: &NameMap<Type>,
    env: &mut NameMap<(Type, bool)>,
    names: &Vec<String>,
    payload: &Vec<Type>,
) -> (r: Result<Vec<(String, Type)>, String>)
    requires
        names@.len() == payload@.len(),
    ensures
        match payload_binding(consts@, old(env)@, names@, view_types(payload@), names@.len() as nat) {
            Ok(e) => (r matches Ok(b) && b@.len() == names@.len()
                && forall|i: int| 0 <= i < b@.len() ==> (#[trigger] b@[i]).0@ == names@[i]@ && b@[i].1@ == view_types(payload@)[i])
                && final(env)@ == e,
            Err(m) => (r matches Err(x) && x@ == m) && final(env)@ == old(env)@,
        },
{
    proof {
        lemma_view_types(payload@);
    }
    let ghost pv = view_types(payload@);
    let ghost start = env@;
    let ghost mut m = env@;
    let mut i: usize = 0;
    while i < names.len()
        invariant
            0 <= i <= names@.len(),
            names@.len() == payload@.len(),
            pv == view_types(payload@),
            pv.len() == payload@.len(),
            start == old(env)@,
            env@ == start,
            payload_binding(consts@, start, names@, pv, i as nat) == Ok::<Map<Seq<char>, (TypeV, bool)>, Seq<char>>(m),
            forall|x: Seq<char>| #[trigger] m.contains_key(x) == (start.contains_key(x) || exists|j: int| 0 <= j < i && names@[j]@ == x),
        decreases names.len() - i,
    {
        let name = &names[i];
        if let Some(msg) = shadows_a_const(consts, name) {
            proof {
                lemma_binding_refused(consts@, start, names@, pv, (i + 1) as nat, names@.len() as nat);
            }
            return Err(msg);
        }
        let mut seen_here = env.get(name).is_some();
        let mut j: usize = 0;
        while j < i
            invariant
                0 <= j <= i,
                i < names@.len(),
                *name == names@[i as int],
                seen_here == (start.contains_key(names@[i as int]@) || exists|q: int| 0 <= q < j && names@[q]@ == names@[i as int]@),
            decreases i - j,
        {
            if names[j] == *name {
                assert(names@[j as int]@ == names@[i as int]@);
                seen_here = true;
            }
            proof {
                if !seen_here {
                    assert forall|q: int| 0 <= q < j + 1 implies names@[q]@ != names@[i as int]@ by {
                        if q == j {
                        }
                    }
                }
            }
            j = j + 1;
        }
        assert(seen_here == m.contains_key(name@));
        if seen_here {
            proof {
                lemma_binding_refused(consts@, start, names@, pv, (i + 1) as nat, names@.len() as nat);
            }
            let mut out = String::new();
            append(&mut out, "`");
            append(&mut out, name.as_str());
            append(&mut out, "` is already declared — a pattern binding may not shadow it, the same rule `let` follows.");
            return Err(out);
        }
        proof {
            m = m.insert(name@, (pv[i as int], false));
            assert forall|x: Seq<char>| #[trigger] m.contains_key(x) == (start.contains_key(x) || exists|q: int| 0 <= q < i + 1 && names@[q]@ == x) by {
                if x == name@ {
                    assert(names@[i as int]@ == x);
                }
            }
        }
        i = i + 1;
    }
    let ghost done = m;
    let mut bound: Vec<(String, Type)> = Vec::new();
    let mut k: usize = 0;
    proof {
        lemma_binding_prefix(consts@, start, names@, pv, names@.len() as nat);
    }
    while k < names.len()
        invariant
            0 <= k <= names@.len(),
            names@.len() == payload@.len(),
            pv == view_types(payload@),
            pv.len() == payload@.len(),
            forall|q: int| 0 <= q < payload@.len() ==> #[trigger] pv[q] == payload@[q]@,
            payload_binding(consts@, start, names@, pv, names@.len() as nat) == Ok::<Map<Seq<char>, (TypeV, bool)>, Seq<char>>(done),
            forall|q: nat| q <= names@.len() ==> #[trigger] payload_binding(consts@, start, names@, pv, q) is Ok,
            payload_binding(consts@, start, names@, pv, k as nat) == Ok::<Map<Seq<char>, (TypeV, bool)>, Seq<char>>(env@),
            bound@.len() == k,
            forall|q: int| 0 <= q < k ==> (#[trigger] bound@[q]).0@ == names@[q]@ && bound@[q].1@ == pv[q],
        decreases names.len() - k,
    {
        assert(payload_binding(consts@, start, names@, pv, (k + 1) as nat) is Ok);
        env.insert(names[k].clone(), (payload[k].duplicate(), false));
        bound.push((names[k].clone(), payload[k].duplicate()));
        k = k + 1;
    }
    Ok(bound)
}

proof fn lemma_binding_prefix(
    consts: Map<Seq<char>, TypeV>,
    env: Map<Seq<char>, (TypeV, bool)>,
    names: Seq<String>,
    payload: Seq<TypeV>,
    n: nat,
)
    requires
        payload_binding(consts, env, names, payload, n) is Ok,
    ensures
        forall|q: nat| q <= n ==> #[trigger] payload_binding(consts, env, names, payload, q) is Ok,
    decreases n,
{
    if n > 0 {
        lemma_binding_prefix(consts, env, names, payload, (n - 1) as nat);
    }
}

proof fn lemma_unhandled_empty(vs: Seq<(Seq<char>, Seq<TypeV>)>, tags: Seq<u32>, n: nat)
    requires
        n <= vs.len(),
    ensures
        unhandled_names(vs, tags, n).len() == 0 <==> forall|i: int| 0 <= i < n ==> tag_taken(tags, #[trigger] (i as u32)),
    decreases n,
{
    if n > 0 {
        lemma_unhandled_empty(vs, tags, (n - 1) as nat);
        let before = unhandled_names(vs, tags, (n - 1) as nat);
        if unhandled_names(vs, tags, n).len() == 0 {
            assert forall|i: int| 0 <= i < n implies tag_taken(tags, #[trigger] (i as u32)) by {
                if i == n - 1 {
                    if !tag_taken(tags, (n - 1) as u32) {
                        assert(unhandled_names(vs, tags, n).len() == before.len() + 1);
                    }
                }
            }
        } else if forall|i: int| 0 <= i < n ==> tag_taken(tags, #[trigger] (i as u32)) {
            assert(tag_taken(tags, ((n - 1) as int) as u32));
            assert(forall|i: int| 0 <= i < n - 1 ==> tag_taken(tags, #[trigger] (i as u32)));
        }
    }
}

/// Some variant named `v` comes first: no variant before it is named `v`.
proof fn lemma_first_variant(vs: Seq<(Seq<char>, Seq<TypeV>)>, v: Seq<char>, i: int)
    requires
        0 <= i < vs.len(),
        vs[i].0 == v,
    ensures
        exists|k: int| 0 <= k < vs.len() && #[trigger] vs[k].0 == v && forall|j: int| 0 <= j < k ==> #[trigger] vs[j].0 != v,
    decreases i,
{
    if exists|j: int| 0 <= j < i && #[trigger] vs[j].0 == v {
        let j = choose|j: int| 0 <= j < i && #[trigger] vs[j].0 == v;
        lemma_first_variant(vs, v, j);
    } else {
        assert(forall|j: int| 0 <= j < i ==> #[trigger] vs[j].0 != v);
    }
}

/// An accepted arm names a variant of the enum that no earlier arm named, and names every one of
/// its payload values: the tag it answers is that variant's position, unlike every tag seen. An
/// arm naming a variant some earlier arm named is refused.
pub proof fn lemma_accepted_arm_is_new(
    vs: Seq<(Seq<char>, Seq<TypeV>)>,
    shown: Seq<char>,
    seen: Seq<u32>,
    v: Seq<char>,
    n_bindings: nat,
)
    requires
        vs.len() <= u32::MAX,
    ensures
        arm_rule(vs, shown, seen, v, n_bindings) matches Ok(t) ==> {
            &&& forall|k: int| 0 <= k < seen.len() ==> seen[k] != t
            &&& 0 <= t < vs.len()
            &&& vs[t as int].0 == v
            &&& vs[t as int].1.len() == n_bindings
            &&& v != "_"@
        },
        (exists|k: int| 0 <= k < seen.len() && 0 <= seen[k] < vs.len() && vs[seen[k] as int].0 == v
            && forall|j: int| 0 <= j < seen[k] ==> #[trigger] vs[j].0 != v)
            ==> arm_rule(vs, shown, seen, v, n_bindings) is Err,
{
    if exists|i: int| 0 <= i < vs.len() && #[trigger] vs[i].0 == v {
        let i = choose|i: int| 0 <= i < vs.len() && #[trigger] vs[i].0 == v;
        lemma_first_variant(vs, v, i);
        let t = variant_position(vs, v)->Some_0;
        assert(0 <= t < vs.len() && vs[t].0 == v && forall|j: int| 0 <= j < t ==> #[trigger] vs[j].0 != v);
        if exists|k: int| 0 <= k < seen.len() && 0 <= seen[k] < vs.len() && vs[seen[k] as int].0 == v
            && forall|j: int| 0 <= j < seen[k] ==> #[trigger] vs[j].0 != v {
            let k = choose|k: int| 0 <= k < seen.len() && 0 <= seen[k] < vs.len() && vs[seen[k] as int].0 == v
                && forall|j: int| 0 <= j < seen[k] ==> #[trigger] vs[j].0 != v;
            if (seen[k] as int) < t {
                assert(vs[seen[k] as int].0 != v);
            } else if (seen[k] as int) > t {
                assert(vs[t].0 != v);
            }
            assert(seen[k] == t as u32);
            assert(tag_taken(seen, t as u32));
        }
    }
}

/// Exhaustiveness is exactly what it says: a `match` is accepted as complete when, and only
/// when, every variant of the enum has an arm.
pub proof fn lemma_exhaustive(vs: Seq<(Seq<char>, Seq<TypeV>)>, shown: Seq<char>, tags: Seq<u32>)
    ensures
        exhaustive_rule(vs, shown, tags) is None <==> forall|i: int| 0 <= i < vs.len() ==> tag_taken(tags, #[trigger] (i as u32)),
{
    lemma_unhandled_empty(vs, tags, vs.len());
}

} // verus!
