//! Whether a class implements an interface: every method of the interface is there, with the
//! same receiver, the same parameter types and the same return type. Burxt has no default bodies.
use vstd::prelude::*;
use crate::allocation::shown_type_name;
use crate::ast::Param;
use crate::generics::{Instances, InstancesV, shown};
use crate::names::NameMap;
use crate::release::{InterfaceSig, InterfaceSigV, Signatures, has_pair, pair_listed};
use crate::storage::{Layouts, LayoutsV};
use crate::text::{nat_text, write_u64};
use crate::ty::{Type, TypeV, append, lemma_view_types, type_text, view_types};

verus! {

/// The head of a method written in an `implement` block: its name, its receiver's class and
/// whether the receiver is `mutable`, its parameters and its return type.
pub struct MethodHead {
    pub name: String,
    pub receiver: String,
    pub receiver_mut: bool,
    pub parameters: Vec<Param>,
    pub ret: Type,
}

/// An `implement Interface for Class { ... }` block, or the `implements` clause of a class
/// (`declared_on_class`), whose own methods then do the implementing.
pub struct ImplBlock {
    pub interface_name: String,
    pub class_name: String,
    pub declared_on_class: bool,
    pub methods: Vec<MethodHead>,
}

/// A method of a class as the method table records it.
pub struct MethodEntry {
    pub receiver: String,
    pub name: String,
    pub receiver_mut: bool,
    pub parameters: Vec<Type>,
    pub ret: Type,
}

/// What conformance reads of a method: whether its receiver is `mutable`, its parameter types,
/// its return type.
pub type Shape = (bool, Seq<TypeV>, TypeV);

/// The parameter types of a method written in a block.
pub open spec fn head_params(h: MethodHead) -> Seq<TypeV> {
    Seq::new(h.parameters@.len(), |i: int| h.parameters@[i].ty@)
}

/// The method the table records for `name` of class `class`: the latest entry for it.
pub open spec fn table_entry(table: Seq<MethodEntry>, class: Seq<char>, name: Seq<char>) -> Option<Shape>
    decreases table.len(),
{
    if table.len() == 0 {
        None
    } else if table.last().receiver@ == class && table.last().name@ == name {
        Some((table.last().receiver_mut, view_types(table.last().parameters@), table.last().ret@))
    } else {
        table_entry(table.drop_last(), class, name)
    }
}

/// The first method of the block named `name`.
pub open spec fn block_entry(ms: Seq<MethodHead>, name: Seq<char>) -> Option<Shape>
    decreases ms.len(),
{
    if ms.len() == 0 {
        None
    } else if ms[0].name@ == name {
        Some((ms[0].receiver_mut, head_params(ms[0]), ms[0].ret@))
    } else {
        block_entry(ms.drop_first(), name)
    }
}

/// `mutable ` before `self` when the receiver is mutable.
pub open spec fn mut_text(m: bool) -> Seq<char> {
    if m { "mutable "@ } else { ""@ }
}

/// The first position among the first `n` where the parameter types differ.
pub open spec fn first_param_mismatch(have: Seq<TypeV>, want: Seq<TypeV>, n: nat) -> Option<int>
    decreases n,
{
    if n == 0 {
        None
    } else {
        match first_param_mismatch(have, want, (n - 1) as nat) {
            Some(i) => Some(i),
            None => if have[n - 1] != want[n - 1] { Some(n - 1) } else { None },
        }
    }
}

/// The refusal of one interface method against what implements it, `found`, if anything does;
/// `head` is the declaration as written, `class C implements I` or `implement I for C`.
pub open spec fn method_refusal(head: Seq<char>, sig: InterfaceSigV, found: Option<Shape>) -> Option<Seq<char>> {
    let m = sig.name;
    match found {
        None => Some("`"@ + head + "` is missing the method `"@ + m
            + "`. Every interface method must be implemented — Burxt has no default bodies."@),
        Some((receiver_mut, have, ret)) => if receiver_mut != sig.receiver_mut {
            Some("in `"@ + head + "`, method `"@ + m + "` declares `"@ + mut_text(receiver_mut)
                + "self` but the interface declares `"@ + mut_text(sig.receiver_mut) + "self`."@)
        } else if have.len() != sig.parameters.len() {
            Some("in `"@ + head + "`, method `"@ + m + "` takes "@ + nat_text(have.len()) + " parameter(s) but the interface declares "@
                + nat_text(sig.parameters.len()) + "."@)
        } else {
            match first_param_mismatch(have, sig.parameters, have.len()) {
                Some(i) => Some("in `"@ + head + "`, method `"@ + m + "` parameter "@ + nat_text((i + 1) as nat) + " is "@
                    + type_text(have[i]) + " but the interface declares "@ + type_text(sig.parameters[i]) + "."@),
                None => if ret != sig.ret {
                    Some("in `"@ + head + "`, method `"@ + m + "` returns "@ + type_text(ret) + " but the interface declares "@
                        + type_text(sig.ret) + "."@)
                } else {
                    None
                },
            }
        },
    }
}

/// The refusal of the first of the first `n` interface methods that the class's method table
/// does not implement as declared.
pub open spec fn class_refusal(head: Seq<char>, class: Seq<char>, table: Seq<MethodEntry>, sigs: Seq<InterfaceSigV>, n: nat) -> Option<Seq<char>>
    decreases n,
{
    if n == 0 {
        None
    } else {
        match class_refusal(head, class, table, sigs, (n - 1) as nat) {
            Some(e) => Some(e),
            None => method_refusal(head, sigs[n - 1], table_entry(table, class, sigs[n - 1].name)),
        }
    }
}

/// The refusal of the first of the first `n` interface methods that the block does not
/// implement as declared.
pub open spec fn block_refusal(head: Seq<char>, ms: Seq<MethodHead>, sigs: Seq<InterfaceSigV>, n: nat) -> Option<Seq<char>>
    decreases n,
{
    if n == 0 {
        None
    } else {
        match block_refusal(head, ms, sigs, (n - 1) as nat) {
            Some(e) => Some(e),
            None => method_refusal(head, sigs[n - 1], block_entry(ms, sigs[n - 1].name)),
        }
    }
}

/// The names of an interface's methods, separated by `, `.
pub open spec fn sig_names_text(sigs: Seq<InterfaceSigV>) -> Seq<char>
    decreases sigs.len(),
{
    if sigs.len() == 0 {
        Seq::empty()
    } else if sigs.len() == 1 {
        sigs[0].name
    } else {
        sig_names_text(sigs.drop_last()) + ", "@ + sigs.last().name
    }
}

/// The refusal of one method written in the block: one the interface does not have, or one whose
/// receiver is another class.
pub open spec fn stray_refusal(shown_iface: Seq<char>, class: Seq<char>, sigs: Seq<InterfaceSigV>, m: MethodHead) -> Option<Seq<char>> {
    if !(exists|j: int| 0 <= j < sigs.len() && #[trigger] sigs[j].name == m.name@) {
        Some("`implement "@ + shown_iface + " for "@ + class + "` defines `"@ + m.name@ + "`, which is not a method of `"@
            + shown_iface + "`. Its methods are: "@ + sig_names_text(sigs) + "."@)
    } else if m.receiver@ != class {
        Some("in `implement "@ + shown_iface + " for "@ + class + "`, method `"@ + m.name@ + "` has receiver `self: "@
            + m.receiver@ + "` — it must be `self: "@ + class + "`."@)
    } else {
        None
    }
}

/// The refusal of the first of the first `n` methods written in the block that does not belong.
pub open spec fn strays_refusal(shown_iface: Seq<char>, class: Seq<char>, sigs: Seq<InterfaceSigV>, ms: Seq<MethodHead>, n: nat) -> Option<Seq<char>>
    decreases n,
{
    if n == 0 {
        None
    } else {
        match strays_refusal(shown_iface, class, sigs, ms, (n - 1) as nat) {
            Some(e) => Some(e),
            None => stray_refusal(shown_iface, class, sigs, ms[n - 1]),
        }
    }
}

/// What the checker answers for an `implement` declaration: the interface must be declared,
/// the class declared, and the pair not implemented already; then the class's own methods (for
/// `class C implements I`) or the block's methods (for `implement I for C`, whose every method
/// must belong to the interface and to the class) must implement each interface method exactly.
pub open spec fn impl_verdict(
    d: LayoutsV,
    inst: InstancesV,
    depth: nat,
    interfaces: Map<Seq<char>, Seq<InterfaceSigV>>,
    impls: Seq<(String, String)>,
    table: Seq<MethodEntry>,
    im: ImplBlock,
) -> Result<(), Seq<char>> {
    let iface = im.interface_name@;
    let class = im.class_name@;
    let shown_iface = shown(TypeV::Named(iface), inst, depth);
    if !interfaces.contains_key(iface) {
        Err("unknown interface `"@ + shown_iface + "` — declare it with `interface "@ + shown_iface + " { ... }`"@)
    } else if !d.records.contains_key(class) {
        Err("`implement "@ + shown_iface + " for "@ + class + "`: unknown type `"@ + class + "` — declare it with `class "@ + class
            + " { ... }`"@)
    } else if pair_listed(impls, iface, class) {
        Err("`"@ + class + "` already implements `"@ + shown_iface + "`"@)
    } else {
        let sigs = interfaces[iface];
        if im.declared_on_class {
            match class_refusal("class "@ + class + " implements "@ + shown_iface, class, table, sigs, sigs.len()) {
                Some(e) => Err(e),
                None => Ok(()),
            }
        } else {
            match strays_refusal(shown_iface, class, sigs, im.methods@, im.methods@.len()) {
                Some(e) => Err(e),
                None => match block_refusal("implement "@ + shown_iface + " for "@ + class, im.methods@, sigs, sigs.len()) {
                    Some(e) => Err(e),
                    None => Ok(()),
                },
            }
        }
    }
}

fn mut_word(out: &mut String, m: bool)
    ensures
        final(out)@ == old(out)@ + mut_text(m),
{
    if m {
        append(out, "mutable ");
    } else {
        proof {
            reveal_strlit("");
        }
        assert(old(out)@ + ""@ =~= old(out)@);
    }
}

/// The refusal of `sig` against what implements it: see [`method_refusal`].
#[verifier::loop_isolation(false)]
fn conformance_of(head: &String, sig: &InterfaceSig, found: Option<(bool, &Vec<Type>, &Type)>) -> (r: Option<String>)
    ensures
        match method_refusal(head@, sig@, match found {
            Some((m, ps, t)) => Some((m, view_types(ps@), t@)),
            None => None,
        }) {
            Some(e) => r matches Some(x) && x@ == e,
            None => r is None,
        },
{
    match found {
        None => {
            let mut out = String::new();
            append(&mut out, "`");
            append(&mut out, head.as_str());
            append(&mut out, "` is missing the method `");
            append(&mut out, sig.name.as_str());
            append(&mut out, "`. Every interface method must be implemented — Burxt has no default bodies.");
            Some(out)
        },
        Some((receiver_mut, have, ret)) => {
            proof {
                lemma_view_types(have@);
                lemma_view_types(sig.parameters@);
            }
            if receiver_mut != sig.receiver_mut {
                let mut out = String::new();
                append(&mut out, "in `");
                append(&mut out, head.as_str());
                append(&mut out, "`, method `");
                append(&mut out, sig.name.as_str());
                append(&mut out, "` declares `");
                mut_word(&mut out, receiver_mut);
                append(&mut out, "self` but the interface declares `");
                mut_word(&mut out, sig.receiver_mut);
                append(&mut out, "self`.");
                return Some(out);
            }
            if have.len() != sig.parameters.len() {
                let mut out = String::new();
                append(&mut out, "in `");
                append(&mut out, head.as_str());
                append(&mut out, "`, method `");
                append(&mut out, sig.name.as_str());
                append(&mut out, "` takes ");
                write_u64(&mut out, have.len() as u64);
                append(&mut out, " parameter(s) but the interface declares ");
                write_u64(&mut out, sig.parameters.len() as u64);
                append(&mut out, ".");
                return Some(out);
            }
            let ghost hv = view_types(have@);
            let ghost wv = view_types(sig.parameters@);
            let mut i: usize = 0;
            while i < have.len()
                invariant
                    0 <= i <= have@.len(),
                    have@.len() == sig.parameters@.len(),
                    hv == view_types(have@),
                    wv == view_types(sig.parameters@),
                    hv.len() == have@.len(),
                    wv.len() == sig.parameters@.len(),
                    forall|k: int| 0 <= k < have@.len() ==> #[trigger] hv[k] == have@[k]@,
                    forall|k: int| 0 <= k < sig.parameters@.len() ==> #[trigger] wv[k] == sig.parameters@[k]@,
                    first_param_mismatch(hv, wv, i as nat) is None,
                decreases have.len() - i,
            {
                if !have[i].same(&sig.parameters[i]) {
                    proof {
                        assert(first_param_mismatch(hv, wv, (i + 1) as nat) == Some(i as int));
                        lemma_mismatch_stands(hv, wv, (i + 1) as nat, hv.len());
                    }
                    let mut out = String::new();
                    append(&mut out, "in `");
                    append(&mut out, head.as_str());
                    append(&mut out, "`, method `");
                    append(&mut out, sig.name.as_str());
                    append(&mut out, "` parameter ");
                    write_u64(&mut out, i as u64 + 1);
                    append(&mut out, " is ");
                    have[i].write_text(&mut out);
                    append(&mut out, " but the interface declares ");
                    sig.parameters[i].write_text(&mut out);
                    append(&mut out, ".");
                    return Some(out);
                }
                i = i + 1;
            }
            if !ret.same(&sig.ret) {
                let mut out = String::new();
                append(&mut out, "in `");
                append(&mut out, head.as_str());
                append(&mut out, "`, method `");
                append(&mut out, sig.name.as_str());
                append(&mut out, "` returns ");
                ret.write_text(&mut out);
                append(&mut out, " but the interface declares ");
                sig.ret.write_text(&mut out);
                append(&mut out, ".");
                assert(out@ =~= "in `"@ + head@ + "`, method `"@ + sig.name@ + "` returns "@ + type_text(ret@)
                    + " but the interface declares "@ + type_text(sig.ret@) + "."@);
                return Some(out);
            }
            None
        },
    }
}

proof fn lemma_mismatch_stands(have: Seq<TypeV>, want: Seq<TypeV>, m: nat, n: nat)
    requires
        m <= n,
        first_param_mismatch(have, want, m) is Some,
    ensures
        first_param_mismatch(have, want, n) == first_param_mismatch(have, want, m),
    decreases n - m,
{
    if m < n {
        lemma_mismatch_stands(have, want, m, (n - 1) as nat);
    }
}

/// The latest entry of the table for `name` of class `class`.
fn table_lookup(table: &Vec<MethodEntry>, class: &String, name: &String) -> (r: Option<usize>)
    ensures
        match table_entry(table@, class@, name@) {
            Some(e) => r matches Some(k) && k < table@.len() && e == (table@[k as int].receiver_mut,
                view_types(table@[k as int].parameters@), table@[k as int].ret@),
            None => r is None,
        },
{
    let mut k = table.len();
    assert(table@.take(k as int) =~= table@);
    while k > 0
        invariant
            0 <= k <= table@.len(),
            table_entry(table@, class@, name@) == table_entry(table@.take(k as int), class@, name@),
        decreases k,
    {
        let j = k - 1;
        assert(table@.take(k as int).drop_last() =~= table@.take(j as int));
        assert(table@.take(k as int).last() == table@[j as int]);
        if table[j].receiver == *class && table[j].name == *name {
            return Some(j);
        }
        k = j;
    }
    None
}

/// The first method of the block named `name`.
fn block_lookup(ms: &Vec<MethodHead>, name: &String) -> (r: Option<usize>)
    ensures
        match block_entry(ms@, name@) {
            Some(e) => r matches Some(k) && k < ms@.len() && e == (ms@[k as int].receiver_mut, head_params(ms@[k as int]),
                ms@[k as int].ret@),
            None => r is None,
        },
{
    let mut k: usize = 0;
    assert(ms@.skip(0) =~= ms@);
    while k < ms.len()
        invariant
            0 <= k <= ms@.len(),
            block_entry(ms@, name@) == block_entry(ms@.skip(k as int), name@),
        decreases ms.len() - k,
    {
        assert(ms@.skip(k as int).drop_first() =~= ms@.skip(k + 1));
        assert(ms@.skip(k as int)[0] == ms@[k as int]);
        if ms[k].name == *name {
            return Some(k);
        }
        k = k + 1;
    }
    None
}

/// The parameter types of a method written in a block.
fn head_param_types(h: &MethodHead) -> (r: Vec<Type>)
    ensures
        view_types(r@) == head_params(*h),
{
    let mut out: Vec<Type> = Vec::new();
    let mut i: usize = 0;
    while i < h.parameters.len()
        invariant
            0 <= i <= h.parameters@.len(),
            out@.len() == i,
            forall|k: int| 0 <= k < i ==> (#[trigger] out@[k])@ == h.parameters@[k].ty@,
        decreases h.parameters.len() - i,
    {
        out.push(h.parameters[i].ty.duplicate());
        i = i + 1;
    }
    proof {
        lemma_view_types(out@);
        assert(view_types(out@) =~= head_params(*h));
    }
    out
}

proof fn lemma_refusal_stands_class(head: Seq<char>, class: Seq<char>, table: Seq<MethodEntry>, sigs: Seq<InterfaceSigV>, m: nat, n: nat)
    requires
        m <= n,
        class_refusal(head, class, table, sigs, m) is Some,
    ensures
        class_refusal(head, class, table, sigs, n) == class_refusal(head, class, table, sigs, m),
    decreases n - m,
{
    if m < n {
        lemma_refusal_stands_class(head, class, table, sigs, m, (n - 1) as nat);
    }
}

proof fn lemma_refusal_stands_block(head: Seq<char>, ms: Seq<MethodHead>, sigs: Seq<InterfaceSigV>, m: nat, n: nat)
    requires
        m <= n,
        block_refusal(head, ms, sigs, m) is Some,
    ensures
        block_refusal(head, ms, sigs, n) == block_refusal(head, ms, sigs, m),
    decreases n - m,
{
    if m < n {
        lemma_refusal_stands_block(head, ms, sigs, m, (n - 1) as nat);
    }
}

proof fn lemma_strays_stand(shown_iface: Seq<char>, class: Seq<char>, sigs: Seq<InterfaceSigV>, ms: Seq<MethodHead>, m: nat, n: nat)
    requires
        m <= n,
        strays_refusal(shown_iface, class, sigs, ms, m) is Some,
    ensures
        strays_refusal(shown_iface, class, sigs, ms, n) == strays_refusal(shown_iface, class, sigs, ms, m),
    decreases n - m,
{
    if m < n {
        lemma_strays_stand(shown_iface, class, sigs, ms, m, (n - 1) as nat);
    }
}

/// Checks an `implement` declaration: see [`impl_verdict`] for what is required and each
/// sentence that refuses it. `table` is the method table of the classes; `impls` the pairs of
/// interface and class already implemented.
pub fn check_impl(
    layouts: &Layouts,
    instances: &Instances,
    interfaces: &NameMap<Signatures>,
    impls: &Vec<(String, String)>,
    table: &Vec<MethodEntry>,
    im: &ImplBlock,
) -> (r: Result<(), String>)
    ensures
        match impl_verdict(layouts@, instances@, instances.count(), interfaces@, impls@, table@, *im) {
            Ok(()) => r is Ok,
            Err(e) => r matches Err(x) && x@ == e,
        },
{
    let shown_iface = shown_type_name(&im.interface_name, instances);
    let sigs = match interfaces.get(&im.interface_name) {
        Some(found) => &found.sigs,
        None => {
            let mut out = String::new();
            append(&mut out, "unknown interface `");
            append(&mut out, shown_iface.as_str());
            append(&mut out, "` — declare it with `interface ");
            append(&mut out, shown_iface.as_str());
            append(&mut out, " { ... }`");
            return Err(out);
        },
    };
    let ghost sv = Seq::new(sigs@.len(), |i: int| sigs@[i]@);
    let class = &im.class_name;
    if layouts.records.get(class).is_none() {
        let mut out = String::new();
        append(&mut out, "`implement ");
        append(&mut out, shown_iface.as_str());
        append(&mut out, " for ");
        append(&mut out, class.as_str());
        append(&mut out, "`: unknown type `");
        append(&mut out, class.as_str());
        append(&mut out, "` — declare it with `class ");
        append(&mut out, class.as_str());
        append(&mut out, " { ... }`");
        return Err(out);
    }
    if has_pair(impls, &im.interface_name, class) {
        let mut out = String::new();
        append(&mut out, "`");
        append(&mut out, class.as_str());
        append(&mut out, "` already implements `");
        append(&mut out, shown_iface.as_str());
        append(&mut out, "`");
        return Err(out);
    }
    if im.declared_on_class {
        return match class_conformance(table, class, &shown_iface, sigs) {
            Some(e) => Err(e),
            None => Ok(()),
        };
    }
    match stray_methods(class, &shown_iface, sigs, &im.methods) {
        Some(e) => return Err(e),
        None => {},
    }
    match block_conformance(&im.methods, class, &shown_iface, sigs) {
        Some(e) => Err(e),
        None => Ok(()),
    }
}


/// [`class_refusal`] for the `implements` clause of class `class`.
fn class_conformance(table: &Vec<MethodEntry>, class: &String, shown_iface: &String, sigs: &Vec<InterfaceSig>) -> (r: Option<String>)
    ensures
        match class_refusal("class "@ + class@ + " implements "@ + shown_iface@, class@, table@,
            Seq::new(sigs@.len(), |k: int| sigs@[k]@), sigs@.len()) {
            Some(e) => r matches Some(x) && x@ == e,
            None => r is None,
        },
{
    let ghost sv = Seq::new(sigs@.len(), |i: int| sigs@[i]@);
    let mut head = String::new();
    append(&mut head, "class ");
    append(&mut head, class.as_str());
    append(&mut head, " implements ");
    append(&mut head, shown_iface.as_str());
    let mut i: usize = 0;
    while i < sigs.len()
        invariant
            0 <= i <= sigs@.len(),
            sv == Seq::new(sigs@.len(), |k: int| sigs@[k]@),
            head@ == "class "@ + class@ + " implements "@ + shown_iface@,
            class_refusal(head@, class@, table@, sv, i as nat) is None,
        decreases sigs.len() - i,
    {
        let sig = &sigs[i];
        let found = match table_lookup(table, class, &sig.name) {
            Some(k) => Some((table[k].receiver_mut, &table[k].parameters, &table[k].ret)),
            None => None,
        };
        match conformance_of(&head, sig, found) {
            Some(e) => {
                proof {
                    lemma_refusal_stands_class(head@, class@, table@, sv, (i + 1) as nat, sv.len());
                }
                return Some(e);
            },
            None => {},
        }
        i = i + 1;
    }
    None
}

/// [`strays_refusal`] for the methods written in an `implement` block.
fn stray_methods(class: &String, shown_iface: &String, sigs: &Vec<InterfaceSig>, ms: &Vec<MethodHead>) -> (r: Option<String>)
    ensures
        match strays_refusal(shown_iface@, class@, Seq::new(sigs@.len(), |k: int| sigs@[k]@), ms@, ms@.len()) {
            Some(e) => r matches Some(x) && x@ == e,
            None => r is None,
        },
{
    let ghost sv = Seq::new(sigs@.len(), |i: int| sigs@[i]@);
    let mut j: usize = 0;
    while j < ms.len()
        invariant
            0 <= j <= ms@.len(),
            sv == Seq::new(sigs@.len(), |k: int| sigs@[k]@),
            strays_refusal(shown_iface@, class@, sv, ms@, j as nat) is None,
        decreases ms.len() - j,
    {
        let m = &ms[j];
        let mut known = false;
        let mut k: usize = 0;
        while k < sigs.len()
            invariant
                0 <= k <= sigs@.len(),
                sv == Seq::new(sigs@.len(), |q: int| sigs@[q]@),
                known == (exists|q: int| 0 <= q < k && #[trigger] sv[q].name == m.name@),
            decreases sigs.len() - k,
        {
            assert(sv[k as int].name == sigs@[k as int].name@);
            if sigs[k].name == m.name {
                known = true;
            }
            k = k + 1;
        }
        if !known {
            proof {
                lemma_strays_stand(shown_iface@, class@, sv, ms@, (j + 1) as nat, ms@.len());
            }
            let mut out = String::new();
            append(&mut out, "`implement ");
            append(&mut out, shown_iface.as_str());
            append(&mut out, " for ");
            append(&mut out, class.as_str());
            append(&mut out, "` defines `");
            append(&mut out, m.name.as_str());
            append(&mut out, "`, which is not a method of `");
            append(&mut out, shown_iface.as_str());
            append(&mut out, "`. Its methods are: ");
            let ghost start = out@;
            let mut q: usize = 0;
            while q < sigs.len()
                invariant
                    0 <= q <= sigs@.len(),
                    sv == Seq::new(sigs@.len(), |p: int| sigs@[p]@),
                    out@ == start + sig_names_text(sv.take(q as int)),
                decreases sigs.len() - q,
            {
                if q > 0 {
                    append(&mut out, ", ");
                }
                append(&mut out, sigs[q].name.as_str());
                assert(sv.take(q + 1).drop_last() =~= sv.take(q as int));
                assert(out@ =~= start + sig_names_text(sv.take(q + 1)));
                q = q + 1;
            }
            assert(sv.take(q as int) =~= sv);
            append(&mut out, ".");
            return Some(out);
        }
        if m.receiver != *class {
            proof {
                lemma_strays_stand(shown_iface@, class@, sv, ms@, (j + 1) as nat, ms@.len());
            }
            let mut out = String::new();
            append(&mut out, "in `implement ");
            append(&mut out, shown_iface.as_str());
            append(&mut out, " for ");
            append(&mut out, class.as_str());
            append(&mut out, "`, method `");
            append(&mut out, m.name.as_str());
            append(&mut out, "` has receiver `self: ");
            append(&mut out, m.receiver.as_str());
            append(&mut out, "` — it must be `self: ");
            append(&mut out, class.as_str());
            append(&mut out, "`.");
            return Some(out);
        }
        j = j + 1;
    }
    None
}

/// [`block_refusal`] for the methods written in an `implement` block.
fn block_conformance(ms: &Vec<MethodHead>, class: &String, shown_iface: &String, sigs: &Vec<InterfaceSig>) -> (r: Option<String>)
    ensures
        match block_refusal("implement "@ + shown_iface@ + " for "@ + class@, ms@, Seq::new(sigs@.len(), |k: int| sigs@[k]@), sigs@.len()) {
            Some(e) => r matches Some(x) && x@ == e,
            None => r is None,
        },
{
    let ghost sv = Seq::new(sigs@.len(), |i: int| sigs@[i]@);
    let mut head = String::new();
    append(&mut head, "implement ");
    append(&mut head, shown_iface.as_str());
    append(&mut head, " for ");
    append(&mut head, class.as_str());
    let mut i: usize = 0;
    while i < sigs.len()
        invariant
            0 <= i <= sigs@.len(),
            sv == Seq::new(sigs@.len(), |k: int| sigs@[k]@),
            head@ == "implement "@ + shown_iface@ + " for "@ + class@,
            block_refusal(head@, ms@, sv, i as nat) is None,
        decreases sigs.len() - i,
    {
        let sig = &sigs[i];
        let refusal = match block_lookup(ms, &sig.name) {
            Some(k) => {
                let params = head_param_types(&ms[k]);
                conformance_of(&head, sig, Some((ms[k].receiver_mut, &params, &ms[k].ret)))
            },
            None => conformance_of(&head, sig, None),
        };
        match refusal {
            Some(e) => {
                proof {
                    lemma_refusal_stands_block(head@, ms@, sv, (i + 1) as nat, sv.len());
                }
                return Some(e);
            },
            None => {},
        }
        i = i + 1;
    }
    None
}

proof fn lemma_params_match(have: Seq<TypeV>, want: Seq<TypeV>, n: nat)
    requires
        n <= have.len(),
        n <= want.len(),
    ensures
        first_param_mismatch(have, want, n) is None <==> forall|i: int| 0 <= i < n ==> #[trigger] have[i] == want[i],
    decreases n,
{
    if n > 0 {
        lemma_params_match(have, want, (n - 1) as nat);
    }
}

/// Whether what implements an interface method matches it exactly.
pub open spec fn implements_exactly(sig: InterfaceSigV, found: Option<Shape>) -> bool {
    match found {
        None => false,
        Some((receiver_mut, have, ret)) => receiver_mut == sig.receiver_mut && have == sig.parameters && ret == sig.ret,
    }
}

proof fn lemma_method_refusal(head: Seq<char>, sig: InterfaceSigV, found: Option<Shape>)
    ensures
        method_refusal(head, sig, found) is None <==> implements_exactly(sig, found),
{
    if let Some((receiver_mut, have, ret)) = found {
        if receiver_mut == sig.receiver_mut && have.len() == sig.parameters.len() {
            lemma_params_match(have, sig.parameters, have.len());
            if have == sig.parameters {
                assert(forall|i: int| 0 <= i < have.len() ==> #[trigger] have[i] == sig.parameters[i]);
            } else if first_param_mismatch(have, sig.parameters, have.len()) is None {
                assert(have =~= sig.parameters);
            }
        }
    }
}

proof fn lemma_block_refusal(head: Seq<char>, ms: Seq<MethodHead>, sigs: Seq<InterfaceSigV>, n: nat)
    requires
        n <= sigs.len(),
    ensures
        block_refusal(head, ms, sigs, n) is None
            <==> forall|j: int| 0 <= j < n ==> implements_exactly(#[trigger] sigs[j], block_entry(ms, sigs[j].name)),
    decreases n,
{
    if n > 0 {
        lemma_block_refusal(head, ms, sigs, (n - 1) as nat);
        lemma_method_refusal(head, sigs[n - 1], block_entry(ms, sigs[n - 1].name));
    }
}

proof fn lemma_strays_refusal(shown_iface: Seq<char>, class: Seq<char>, sigs: Seq<InterfaceSigV>, ms: Seq<MethodHead>, n: nat)
    requires
        n <= ms.len(),
    ensures
        strays_refusal(shown_iface, class, sigs, ms, n) is None <==> forall|k: int| 0 <= k < n ==>
            (exists|j: int| 0 <= j < sigs.len() && #[trigger] sigs[j].name == (#[trigger] ms[k]).name@) && ms[k].receiver@ == class,
    decreases n,
{
    if n > 0 {
        lemma_strays_refusal(shown_iface, class, sigs, ms, (n - 1) as nat);
    }
}

/// What an `implement I for C { ... }` block must be to be accepted, and all it must be: `I` is a
/// declared interface, `C` a declared class, `C` does not implement `I` already, every method of
/// the block is a method of `I` with receiver `C`, and every method of `I` is implemented by the
/// block's method of that name with the same receiver, parameter types and return type.
pub proof fn lemma_impl_accepted(
    d: LayoutsV,
    inst: InstancesV,
    depth: nat,
    interfaces: Map<Seq<char>, Seq<InterfaceSigV>>,
    impls: Seq<(String, String)>,
    table: Seq<MethodEntry>,
    im: ImplBlock,
)
    requires
        !im.declared_on_class,
    ensures
        impl_verdict(d, inst, depth, interfaces, impls, table, im) is Ok <==> {
            let iface = im.interface_name@;
            let class = im.class_name@;
            let ms = im.methods@;
            &&& interfaces.contains_key(iface)
            &&& d.records.contains_key(class)
            &&& !pair_listed(impls, iface, class)
            &&& forall|k: int| 0 <= k < ms.len() ==>
                (exists|j: int| 0 <= j < interfaces[iface].len() && #[trigger] interfaces[iface][j].name == (#[trigger] ms[k]).name@)
                && ms[k].receiver@ == class
            &&& forall|j: int| 0 <= j < interfaces[iface].len() ==>
                implements_exactly(#[trigger] interfaces[iface][j], block_entry(ms, interfaces[iface][j].name))
        },
{
    let iface = im.interface_name@;
    let class = im.class_name@;
    if interfaces.contains_key(iface) {
        let sigs = interfaces[iface];
        let shown_iface = shown(TypeV::Named(iface), inst, depth);
        lemma_strays_refusal(shown_iface, class, sigs, im.methods@, im.methods@.len());
        lemma_block_refusal("implement "@ + shown_iface + " for "@ + class, im.methods@, sigs, sigs.len());
    }
}

} // verus!
