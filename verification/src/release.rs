//! Per-block release: after a body is checked, every block that provably keeps nothing it
//! allocated is wrapped in a `Release`, which code generation lowers to saving the region cursor
//! on entry and restoring it at the closing brace.
//!
//! It is all or nothing per block. A bump allocator is last-in first-out, so a block that lets
//! one value escape cannot release at all. The pass runs over the already-checked body: it
//! refuses nothing and changes nothing but the wrapping, so which programs compile does not
//! depend on it.
use vstd::prelude::*;
use crate::compare::view_names;
use crate::names::NameMap;
use crate::storage::{Layouts, fuel_for, holds_storage, may_be_region_storage};
use crate::ops::BinOp;
use crate::text::push_char;
use crate::ty::{Type, TypeV, view_types};
use crate::typed::{Span, TypedArm, TypedExpr, TypedExprKind, TypedInterpPart, TypedStmt, TypedStmtKind};

verus! {

/// A function's or method's `mutable` flags, one per parameter.
pub struct Flags {
    pub flags: Vec<bool>,
}

impl View for Flags {
    type V = Seq<bool>;

    open spec fn view(&self) -> Seq<bool> {
        self.flags@
    }
}

/// One method of an interface: its name, whether its receiver is `mutable`, which of its
/// parameters are, its parameters' types and its return type.
pub struct InterfaceSig {
    pub name: String,
    pub receiver_mut: bool,
    pub writable: Vec<bool>,
    pub parameters: Vec<Type>,
    pub ret: Type,
}

/// The view of an interface method.
pub ghost struct InterfaceSigV {
    pub name: Seq<char>,
    pub receiver_mut: bool,
    pub writable: Seq<bool>,
    pub parameters: Seq<TypeV>,
    pub ret: TypeV,
}

impl View for InterfaceSig {
    type V = InterfaceSigV;

    open spec fn view(&self) -> InterfaceSigV {
        InterfaceSigV {
            name: self.name@,
            receiver_mut: self.receiver_mut,
            writable: self.writable@,
            parameters: view_types(self.parameters@),
            ret: self.ret@,
        }
    }
}

/// An interface's methods, in declaration order.
pub struct Signatures {
    pub sigs: Vec<InterfaceSig>,
}

impl View for Signatures {
    type V = Seq<InterfaceSigV>;

    open spec fn view(&self) -> Seq<InterfaceSigV> {
        Seq::new(self.sigs@.len(), |i: int| self.sigs@[i]@)
    }
}

/// What checking the whole program found out about calls, which the pass reads: the declared
/// layouts; the functions and methods that allocate; which of their parameters (for a method,
/// `0` the receiver and `i + 1` argument `i`) they hand back; which class implements which
/// interface; which methods grow their receiver; the C functions; the `mutable` flags of
/// functions and methods; and the interfaces' methods.
pub struct CallFacts {
    pub layouts: Layouts,
    pub alloc_fns: Vec<String>,
    pub relay_params: Vec<(String, usize)>,
    pub alloc_methods: Vec<(String, String)>,
    pub relay_methods: Vec<(String, String, usize)>,
    pub impls: Vec<(String, String)>,
    pub grow_self: Vec<(String, String)>,
    pub extern_names: Vec<String>,
    pub fn_writable: NameMap<Flags>,
    pub method_writable: Vec<(String, String, Vec<bool>)>,
    pub interfaces: NameMap<Signatures>,
}

/// Whether `name` is in the list.
pub open spec fn listed(s: Seq<String>, name: Seq<char>) -> bool {
    exists|i: int| 0 <= i < s.len() && (#[trigger] s[i])@ == name
}

/// Whether the pair is in the list.
pub open spec fn pair_listed(s: Seq<(String, String)>, a: Seq<char>, b: Seq<char>) -> bool {
    exists|i: int| 0 <= i < s.len() && (#[trigger] s[i]).0@ == a && s[i].1@ == b
}

/// Whether the name and position are in the list.
pub open spec fn index_listed(s: Seq<(String, usize)>, a: Seq<char>, k: int) -> bool {
    exists|i: int| 0 <= i < s.len() && (#[trigger] s[i]).0@ == a && s[i].1 == k
}

/// Whether the two names and the position are in the list.
pub open spec fn triple_listed(s: Seq<(String, String, usize)>, a: Seq<char>, b: Seq<char>, k: int) -> bool {
    exists|i: int| 0 <= i < s.len() && (#[trigger] s[i]).0@ == a && s[i].1@ == b && s[i].2 == k
}

/// Whether a call through an interface object allocates: whether any implementation's method
/// does, since the call site cannot know which one runs.
pub open spec fn dyn_allocates(f: CallFacts, interface: Seq<char>, method: Seq<char>) -> bool {
    exists|i: int|
        0 <= i < f.impls@.len() && (#[trigger] f.impls@[i]).0@ == interface
            && pair_listed(f.alloc_methods@, f.impls@[i].1@, method)
}

/// Whether a call through an interface object grows its receiver: whether any implementation's
/// method does.
pub open spec fn dyn_grows_self(f: CallFacts, interface: Seq<char>, method: Seq<char>) -> bool {
    exists|i: int|
        0 <= i < f.impls@.len() && (#[trigger] f.impls@[i]).0@ == interface
            && pair_listed(f.grow_self@, f.impls@[i].1@, method)
}

/// Whether a call through an interface object hands back what it was given at `source`:
/// whether any implementation's method does.
pub open spec fn dyn_relays(f: CallFacts, interface: Seq<char>, method: Seq<char>, source: int) -> bool {
    exists|i: int|
        0 <= i < f.impls@.len() && (#[trigger] f.impls@[i]).0@ == interface
            && triple_listed(f.relay_methods@, f.impls@[i].1@, method, source)
}

/// The `mutable` flags of a method, by its receiver and name: the last entry for it.
pub open spec fn method_flags(s: Seq<(String, String, Vec<bool>)>, receiver: Seq<char>, method: Seq<char>) -> Option<Seq<bool>>
    decreases s.len(),
{
    if s.len() == 0 {
        None
    } else if s.last().0@ == receiver && s.last().1@ == method {
        Some(s.last().2@)
    } else {
        method_flags(s.drop_last(), receiver, method)
    }
}

/// The part of a name before its first `$`, if it has one.
pub open spec fn before_dollar(s: Seq<char>) -> Option<Seq<char>>
    decreases s.len(),
{
    if s.len() == 0 {
        None
    } else if s[0] == '$' {
        Some(Seq::empty())
    } else {
        match before_dollar(s.skip(1)) {
            Some(p) => Some(seq![s[0]] + p),
            None => None,
        }
    }
}

/// A function's `mutable` flags. An instantiation `f$Int` has its generic's, because `mutable`
/// is written on the declaration and substitution only replaces types.
pub open spec fn fn_flags(f: CallFacts, name: Seq<char>) -> Option<Seq<bool>> {
    if f.fn_writable@.contains_key(name) {
        Some(f.fn_writable@[name])
    } else {
        match before_dollar(name) {
            Some(generic) => if f.fn_writable@.contains_key(generic) {
                Some(f.fn_writable@[generic])
            } else {
                None
            },
            None => None,
        }
    }
}

/// The first method of the list with the given name.
pub open spec fn find_sig(sigs: Seq<InterfaceSigV>, method: Seq<char>) -> Option<InterfaceSigV>
    decreases sigs.len(),
{
    if sigs.len() == 0 {
        None
    } else if sigs[0].name == method {
        Some(sigs[0])
    } else {
        find_sig(sigs.skip(1), method)
    }
}

/// An interface's method by name.
pub open spec fn interface_sig(f: CallFacts, interface: Seq<char>, method: Seq<char>) -> Option<InterfaceSigV> {
    if f.interfaces@.contains_key(interface) {
        find_sig(f.interfaces@[interface], method)
    } else {
        None
    }
}

/// Whether parameter `i` is written through, by the flags: a parameter past the flags counts as
/// written, the safe answer.
pub open spec fn writes(w: Seq<bool>, i: int) -> bool {
    i >= w.len() || w[i]
}

pub(crate) fn has_name(s: &Vec<String>, name: &String) -> (r: bool)
    ensures
        r == listed(s@, name@),
{
    let mut i: usize = 0;
    while i < s.len()
        invariant
            0 <= i <= s@.len(),
            forall|j: int| 0 <= j < i ==> (#[trigger] s@[j])@ != name@,
        decreases s.len() - i,
    {
        if s[i] == *name {
            return true;
        }
        i = i + 1;
    }
    false
}

pub(crate) fn has_pair(s: &Vec<(String, String)>, a: &String, b: &String) -> (r: bool)
    ensures
        r == pair_listed(s@, a@, b@),
{
    let mut i: usize = 0;
    while i < s.len()
        invariant
            0 <= i <= s@.len(),
            forall|j: int| 0 <= j < i ==> !((#[trigger] s@[j]).0@ == a@ && s@[j].1@ == b@),
        decreases s.len() - i,
    {
        if s[i].0 == *a && s[i].1 == *b {
            return true;
        }
        i = i + 1;
    }
    false
}

pub(crate) fn has_index(s: &Vec<(String, usize)>, a: &String, k: usize) -> (r: bool)
    ensures
        r == index_listed(s@, a@, k as int),
{
    let mut i: usize = 0;
    while i < s.len()
        invariant
            0 <= i <= s@.len(),
            forall|j: int| 0 <= j < i ==> !((#[trigger] s@[j]).0@ == a@ && s@[j].1 == k),
        decreases s.len() - i,
    {
        if s[i].0 == *a && s[i].1 == k {
            return true;
        }
        i = i + 1;
    }
    false
}

pub(crate) fn has_triple(s: &Vec<(String, String, usize)>, a: &String, b: &String, k: usize) -> (r: bool)
    ensures
        r == triple_listed(s@, a@, b@, k as int),
{
    let mut i: usize = 0;
    while i < s.len()
        invariant
            0 <= i <= s@.len(),
            forall|j: int| 0 <= j < i ==> !((#[trigger] s@[j]).0@ == a@ && s@[j].1@ == b@ && s@[j].2 == k),
        decreases s.len() - i,
    {
        if s[i].0 == *a && s[i].1 == *b && s[i].2 == k {
            return true;
        }
        i = i + 1;
    }
    false
}

/// Does a call through an interface object build its result in the caller's region? Yes if any
/// implementation of the interface does.
pub(crate) fn dyn_call_allocates(facts: &CallFacts, interface_name: &String, method: &String) -> (r: bool)
    ensures
        r == dyn_allocates(*facts, interface_name@, method@),
{
    let mut i: usize = 0;
    while i < facts.impls.len()
        invariant
            0 <= i <= facts.impls@.len(),
            forall|j: int| 0 <= j < i ==> !((#[trigger] facts.impls@[j]).0@ == interface_name@
                && pair_listed(facts.alloc_methods@, facts.impls@[j].1@, method@)),
        decreases facts.impls.len() - i,
    {
        if facts.impls[i].0 == *interface_name && has_pair(&facts.alloc_methods, &facts.impls[i].1, method) {
            return true;
        }
        i = i + 1;
    }
    false
}

/// Whether some entry of the list names `name`, whatever position it records.
pub open spec fn any_position(s: Seq<(String, usize)>, name: Seq<char>) -> bool {
    exists|i: int| 0 <= i < s.len() && (#[trigger] s[i]).0@ == name
}

impl CallFacts {
    /// Whether function `name` builds its result in its caller's region, whether its author
    /// wrote `allocates` or the probe worked it out.
    pub fn allocates_fn(&self, name: &String) -> (r: bool)
        ensures
            r == listed(self.alloc_fns@, name@),
    {
        has_name(&self.alloc_fns, name)
    }

    /// Whether method `name` of `receiver` builds its result in its caller's region.
    pub fn allocates_method(&self, receiver: &String, name: &String) -> (r: bool)
        ensures
            r == pair_listed(self.alloc_methods@, receiver@, name@),
    {
        has_pair(&self.alloc_methods, receiver, name)
    }

    /// Whether function `name` hands back storage that arrived as one of its parameters: its
    /// result then belongs to the caller without anything being allocated.
    pub fn relays_a_parameter(&self, name: &String) -> (r: bool)
        ensures
            r == any_position(self.relay_params@, name@),
    {
        let mut i: usize = 0;
        while i < self.relay_params.len()
            invariant
                0 <= i <= self.relay_params@.len(),
                forall|j: int| 0 <= j < i ==> (#[trigger] self.relay_params@[j]).0@ != name@,
            decreases self.relay_params.len() - i,
        {
            if self.relay_params[i].0 == *name {
                return true;
            }
            i = i + 1;
        }
        false
    }
}

/// Does a call through an interface object grow its receiver? Yes if any implementation of the
/// interface does: the call site cannot know which one runs.
pub fn dyn_call_grows_self(facts: &CallFacts, interface_name: &String, method: &String) -> (r: bool)
    ensures
        r == dyn_grows_self(*facts, interface_name@, method@),
{
    let mut i: usize = 0;
    while i < facts.impls.len()
        invariant
            0 <= i <= facts.impls@.len(),
            forall|j: int| 0 <= j < i ==> !((#[trigger] facts.impls@[j]).0@ == interface_name@
                && pair_listed(facts.grow_self@, facts.impls@[j].1@, method@)),
        decreases facts.impls.len() - i,
    {
        if facts.impls[i].0 == *interface_name && has_pair(&facts.grow_self, &facts.impls[i].1, method) {
            return true;
        }
        i = i + 1;
    }
    false
}

/// Does a call through an interface object hand back storage it was given at `source` (`0` the
/// receiver, `i + 1` argument `i`)? Yes if any implementation does.
pub(crate) fn dyn_call_relays(facts: &CallFacts, interface_name: &String, method: &String, source: usize) -> (r: bool)
    ensures
        r == dyn_relays(*facts, interface_name@, method@, source as int),
{
    let mut i: usize = 0;
    while i < facts.impls.len()
        invariant
            0 <= i <= facts.impls@.len(),
            forall|j: int| 0 <= j < i ==> !((#[trigger] facts.impls@[j]).0@ == interface_name@
                && triple_listed(facts.relay_methods@, facts.impls@[j].1@, method@, source as int)),
        decreases facts.impls.len() - i,
    {
        if facts.impls[i].0 == *interface_name
            && has_triple(&facts.relay_methods, &facts.impls[i].1, method, source) {
            return true;
        }
        i = i + 1;
    }
    false
}

/// The `mutable` flags of a method.
fn method_writable<'a>(facts: &'a CallFacts, receiver: &String, method: &String) -> (r: Option<&'a Vec<bool>>)
    ensures
        r matches Some(w) ==> method_flags(facts.method_writable@, receiver@, method@) == Some(w@),
        r is None ==> method_flags(facts.method_writable@, receiver@, method@) is None,
{
    let s = &facts.method_writable;
    let mut i = s.len();
    assert(s@.take(i as int) =~= s@);
    while i > 0
        invariant
            0 <= i <= s@.len(),
            s@ == facts.method_writable@,
            method_flags(s@, receiver@, method@) == method_flags(s@.take(i as int), receiver@, method@),
        decreases i,
    {
        let k = i - 1;
        proof {
            assert(s@.take(i as int).drop_last() =~= s@.take(k as int));
        }
        assert(s@.take(i as int).last() == s@[k as int]);
        if s[k].0 == *receiver && s[k].1 == *method {
            assert(method_flags(s@.take(i as int), receiver@, method@) == Some(s@[k as int].2@));
            return Some(&s[k].2);
        }
        i = k;
    }
    None
}

/// A name with no `$` among its first `i` characters has the same part before its first `$` as
/// what follows them, with them put back in front.
proof fn lemma_before_dollar(s: Seq<char>, i: int)
    requires
        0 <= i <= s.len(),
        forall|k: int| 0 <= k < i ==> s[k] != '$',
    ensures
        before_dollar(s) == match before_dollar(s.skip(i)) {
            Some(p) => Some(s.take(i) + p),
            None => None::<Seq<char>>,
        },
    decreases i,
{
    if i == 0 {
        assert(s.skip(0) =~= s);
        match before_dollar(s) {
            Some(p) => { assert(s.take(0) + p =~= p); },
            None => {},
        }
    } else {
        let t = s.skip(1);
        lemma_before_dollar(t, i - 1);
        assert(t.skip(i - 1) =~= s.skip(i));
        match before_dollar(s.skip(i)) {
            Some(p) => { assert(seq![s[0]] + (t.take(i - 1) + p) =~= s.take(i) + p); },
            None => {},
        }
    }
}

/// The part of `name` before its first `$`, if it has one.
pub(crate) fn generic_name(name: &String) -> (r: Option<String>)
    ensures
        r matches Some(g) ==> before_dollar(name@) == Some(g@),
        r is None ==> before_dollar(name@) is None,
{
    let s = name.as_str();
    let n = s.unicode_len();
    let mut out = String::new();
    let mut i: usize = 0;
    while i < n
        invariant
            0 <= i <= n,
            n == s@.len(),
            s@ == name@,
            out@ == s@.take(i as int),
            forall|k: int| 0 <= k < i ==> s@[k] != '$',
        decreases n - i,
    {
        let c = s.get_char(i);
        if c == '$' {
            proof {
                lemma_before_dollar(s@, i as int);
                assert(s@.skip(i as int)[0] == '$');
                assert(s@.take(i as int) + Seq::<char>::empty() =~= s@.take(i as int));
                assert(before_dollar(s@.skip(i as int)) == Some(Seq::<char>::empty()));
                assert(before_dollar(s@) == Some(out@));
                assert(s@ == name@);
            }
            return Some(out);
        }
        push_char(&mut out, c);
        assert(out@ =~= s@.take(i + 1));
        i = i + 1;
    }
    proof {
        lemma_before_dollar(s@, n as int);
        assert(s@.skip(n as int).len() == 0);
    }
    None
}

/// A function's `mutable` flags, with an instantiation falling back to its generic's.
fn fn_writable<'a>(facts: &'a CallFacts, name: &String) -> (r: Option<&'a Flags>)
    ensures
        r matches Some(w) ==> fn_flags(*facts, name@) == Some(w@),
        r is None ==> fn_flags(*facts, name@) is None,
{
    match facts.fn_writable.get(name) {
        Some(w) => Some(w),
        None => match generic_name(name) {
            Some(generic) => facts.fn_writable.get(&generic),
            None => None,
        },
    }
}

/// An interface's method by name.
fn find_interface_sig<'a>(facts: &'a CallFacts, interface_name: &String, method: &String) -> (r: Option<&'a InterfaceSig>)
    ensures
        r matches Some(s) ==> interface_sig(*facts, interface_name@, method@) == Some(s@),
        r is None ==> interface_sig(*facts, interface_name@, method@) is None,
{
    match facts.interfaces.get(interface_name) {
        Some(sigs) => {
            let ghost v = sigs@;
            proof {
                assert(v.skip(0) =~= v);
            }
            let mut i: usize = 0;
            while i < sigs.sigs.len()
                invariant
                    0 <= i <= sigs.sigs@.len(),
                    v == sigs@,
                    v == facts.interfaces@[interface_name@],
                    facts.interfaces@.contains_key(interface_name@),
                    v.len() == sigs.sigs@.len(),
                    find_sig(v, method@) == find_sig(v.skip(i as int), method@),
                decreases sigs.sigs.len() - i,
            {
                proof {
                    assert(v.skip(i as int).skip(1) =~= v.skip(i + 1));
                    assert(v.skip(i as int)[0] == sigs.sigs@[i as int]@);
                    assert(v.skip(i as int)[0].name == sigs.sigs@[i as int].name@);
                }
                if sigs.sigs[i].name == *method {
                    assert(find_sig(v.skip(i as int), method@) == Some(sigs.sigs@[i as int]@));
                    assert(facts.interfaces@[interface_name@] == v);
                    return Some(&sigs.sigs[i]);
                }
                i = i + 1;
            }
            None
        },
        None => None,
    }
}

/// What is known about one name while the pass walks a body: which block's lifetime the storage
/// behind it belongs to (`None`: outside this function, a parameter or anything reached through
/// one), and whether it holds storage built in this function.
#[derive(PartialEq, Eq, Structural, Clone, Copy, Debug)]
pub struct Owned {
    pub owner: Option<usize>,
    pub allocated: bool,
}

impl View for Owned {
    type V = Owned;

    open spec fn view(&self) -> Owned {
        *self
    }
}

/// One open block: the names declared directly in it, whether something allocated inside it is
/// reachable after it ends, and whether anything at all was built in it.
pub struct Frame {
    pub declared: Vec<String>,
    pub leaks: bool,
    pub allocates: bool,
}

/// The view of an open block.
pub ghost struct FrameV {
    pub declared: Seq<Seq<char>>,
    pub leaks: bool,
    pub allocates: bool,
}

impl View for Frame {
    type V = FrameV;

    open spec fn view(&self) -> FrameV {
        FrameV { declared: view_names(self.declared@), leaks: self.leaks, allocates: self.allocates }
    }
}

/// The pass's state while it walks one body: the open blocks, innermost last, and what is known
/// of each name in scope.
pub ghost struct PassV {
    pub frames: Seq<FrameV>,
    pub names: Map<Seq<char>, Owned>,
}

/// The depth of the innermost open block.
pub open spec fn depth_of(st: PassV) -> int {
    st.frames.len() - 1
}

/// Every block inside `owner`'s can no longer release: an allocation that lands in storage
/// owned by block `k` has to survive until `k` ends. `None` taints every block.
pub open spec fn tainted(st: PassV, owner: Option<usize>) -> PassV {
    let from: int = match owner {
        Some(d) => d + 1,
        None => 0,
    };
    PassV {
        frames: Seq::new(st.frames.len(), |j: int| if j >= from {
            FrameV { declared: st.frames[j].declared, leaks: true, allocates: st.frames[j].allocates }
        } else {
            st.frames[j]
        }),
        names: st.names,
    }
}

/// Every open block has built something.
pub open spec fn all_allocating(st: PassV) -> PassV {
    PassV {
        frames: Seq::new(st.frames.len(), |j: int|
            FrameV { declared: st.frames[j].declared, leaks: st.frames[j].leaks, allocates: true }),
        names: st.names,
    }
}

/// `name` declared in the innermost block, with what is known of it.
pub open spec fn with_declared(st: PassV, name: Seq<char>, owner: Option<usize>, allocated: bool) -> PassV {
    PassV {
        frames: if st.frames.len() > 0 {
            st.frames.update(st.frames.len() - 1, FrameV {
                declared: st.frames.last().declared.push(name),
                leaks: st.frames.last().leaks,
                allocates: st.frames.last().allocates,
            })
        } else {
            st.frames
        },
        names: st.names.insert(name, Owned { owner, allocated }),
    }
}

/// Whose storage `name` holds: `None` for a name not in scope.
pub open spec fn owner_in(st: PassV, name: Seq<char>) -> Option<usize> {
    if st.names.contains_key(name) {
        st.names[name].owner
    } else {
        None
    }
}

/// Whether `name` holds storage built in this function.
pub open spec fn allocated_in(st: PassV, name: Seq<char>) -> bool {
    st.names.contains_key(name) && st.names[name].allocated
}

/// `name`, if in scope, now holds storage built in this function.
pub open spec fn with_allocated(st: PassV, name: Seq<char>) -> PassV {
    if st.names.contains_key(name) {
        PassV { frames: st.frames, names: st.names.insert(name, Owned { owner: st.names[name].owner, allocated: true }) }
    } else {
        st
    }
}

/// `name`, if in scope, now holds storage owned by `owner`.
pub open spec fn with_owner(st: PassV, name: Seq<char>, owner: Option<usize>) -> PassV {
    if st.names.contains_key(name) {
        PassV { frames: st.frames, names: st.names.insert(name, Owned { owner, allocated: st.names[name].allocated }) }
    } else {
        st
    }
}

/// The shorter of two lifetimes, with `None` (outside the function) the shortest of all: it is
/// the one that permits nothing.
pub open spec fn shorter(a: Option<usize>, b: Option<usize>) -> Option<usize> {
    match (a, b) {
        (Some(x), Some(y)) => Some(if x < y { x } else { y }),
        _ => None,
    }
}

/// Every name the expression reads, in the order the pass collects them.
pub open spec fn vars_of(e: TypedExpr) -> Seq<Seq<char>>
    decreases e, 1int,
{
    match e.kind {
        TypedExprKind::Hold { value, .. } => vars_of(*value),
        TypedExprKind::Held { handle, .. } => vars_of(*handle),
        TypedExprKind::Var(n) => seq![n@],
        TypedExprKind::DynCoerce { var, .. } => seq![var@],
        TypedExprKind::IntLit(_) => Seq::empty(),
        TypedExprKind::DecimalLit { .. } => Seq::empty(),
        TypedExprKind::BoolLit(_) => Seq::empty(),
        TypedExprKind::StrLit(_) => Seq::empty(),
        TypedExprKind::ArgCount => Seq::empty(),
        TypedExprKind::Old(_) => Seq::empty(),
        TypedExprKind::Neg(i) => vars_of(*i),
        TypedExprKind::Not(i) => vars_of(*i),
        TypedExprKind::Arg(i) => vars_of(*i),
        TypedExprKind::ReadFile(i) => vars_of(*i),
        TypedExprKind::CIsNull(i) => vars_of(*i),
        TypedExprKind::CStringAt(i) => vars_of(*i),
        TypedExprKind::ByteAsString(i) => vars_of(*i),
        TypedExprKind::ToString(i) => vars_of(*i),
        TypedExprKind::Hash(i) => vars_of(*i),
        TypedExprKind::StrLen(i) => vars_of(*i),
        TypedExprKind::SliceLen(i) => vars_of(*i),
        TypedExprKind::Field { base, .. } => vars_of(*base),
        TypedExprKind::Try { value, .. } => vars_of(*value),
        TypedExprKind::Truncate { place, length } => vars_of(*place) + vars_of(*length),
        TypedExprKind::WriteFile { path, contents } => vars_of(*path) + vars_of(*contents),
        TypedExprKind::WriteBytes { path, buffer } => vars_of(*path) + vars_of(*buffer),
        TypedExprKind::CBytesAt { pointer, count } => vars_of(*pointer) + vars_of(*count),
        TypedExprKind::CBytesTo { pointer, bytes } => vars_of(*pointer) + vars_of(*bytes),
        TypedExprKind::ByteAt { s, index } => vars_of(*s) + vars_of(*index),
        TypedExprKind::IntDiv { lhs, rhs, .. } => vars_of(*lhs) + vars_of(*rhs),
        TypedExprKind::Logical { lhs, rhs, .. } => vars_of(*lhs) + vars_of(*rhs),
        TypedExprKind::Binary { lhs, rhs, .. } => vars_of(*lhs) + vars_of(*rhs),
        TypedExprKind::Compare { lhs, rhs, .. } => vars_of(*lhs) + vars_of(*rhs),
        TypedExprKind::Push { place, value } => vars_of(*place) + vars_of(*value),
        TypedExprKind::SliceIndex { base, index } => vars_of(*base) + vars_of(*index),
        TypedExprKind::Index { base, index, .. } => vars_of(*base) + vars_of(*index),
        TypedExprKind::Substring { source, at, len } => vars_of(*source) + vars_of(*at) + vars_of(*len),
        TypedExprKind::Bit { lhs, rhs, .. } => match rhs {
            Some(r) => vars_of(*lhs) + vars_of(*r),
            None => vars_of(*lhs),
        },
        TypedExprKind::Call { arguments, .. } => vars_of_all(arguments@),
        TypedExprKind::VariantLit { arguments, .. } => vars_of_all(arguments@),
        TypedExprKind::StructLit { fields, .. } => vars_of_all(fields@),
        TypedExprKind::ArrayLit(items) => vars_of_all(items@),
        TypedExprKind::SliceLit(items) => vars_of_all(items@),
        TypedExprKind::MethodCall { base, arguments, .. } => vars_of(*base) + vars_of_all(arguments@),
        TypedExprKind::DynCall { base, arguments, .. } => vars_of(*base) + vars_of_all(arguments@),
    }
}

/// [`vars_of`] of each expression of a list, one after another.
pub open spec fn vars_of_all(es: Seq<TypedExpr>) -> Seq<Seq<char>>
    decreases es, 0int,
{
    if es.len() == 0 {
        Seq::empty()
    } else {
        vars_of(es[0]) + vars_of_all(es.skip(1))
    }
}

/// `acc` shortened by the owner of each name in turn.
pub open spec fn owner_fold(st: PassV, acc: Option<usize>, vs: Seq<Seq<char>>) -> Option<usize>
    decreases vs.len(),
{
    if vs.len() == 0 {
        acc
    } else {
        owner_fold(st, shorter(acc, owner_in(st, vs[0])), vs.skip(1))
    }
}

/// Whose storage this expression could be pointing into: the innermost block's, unless it
/// mentions a name that belongs further out, whose buffer it may well alias.
pub open spec fn place_owner_in(st: PassV, e: TypedExpr) -> Option<usize> {
    owner_fold(st, Some(depth_of(st) as usize), vars_of(e))
}

/// The binding a place expression ultimately reaches through.
pub open spec fn root_of(e: TypedExpr) -> Option<Seq<char>>
    decreases e,
{
    match e.kind {
        TypedExprKind::Var(n) => Some(n@),
        TypedExprKind::DynCoerce { var, .. } => Some(var@),
        TypedExprKind::Field { base, .. } => root_of(*base),
        TypedExprKind::Index { base, .. } => root_of(*base),
        TypedExprKind::SliceIndex { base, .. } => root_of(*base),
        _ => None,
    }
}

/// The direct subexpressions of an expression, in order.
pub open spec fn children_of(e: TypedExpr) -> Seq<TypedExpr> {
    match e.kind {
        TypedExprKind::Hold { value, .. } => seq![*value],
        TypedExprKind::Held { handle, .. } => seq![*handle],
        TypedExprKind::IntLit(_) => Seq::empty(),
        TypedExprKind::DecimalLit { .. } => Seq::empty(),
        TypedExprKind::BoolLit(_) => Seq::empty(),
        TypedExprKind::StrLit(_) => Seq::empty(),
        TypedExprKind::Var(_) => Seq::empty(),
        TypedExprKind::DynCoerce { .. } => Seq::empty(),
        TypedExprKind::ArgCount => Seq::empty(),
        TypedExprKind::Old(_) => Seq::empty(),
        TypedExprKind::Neg(i) => seq![*i],
        TypedExprKind::Not(i) => seq![*i],
        TypedExprKind::Arg(i) => seq![*i],
        TypedExprKind::ReadFile(i) => seq![*i],
        TypedExprKind::CIsNull(i) => seq![*i],
        TypedExprKind::CStringAt(i) => seq![*i],
        TypedExprKind::ByteAsString(i) => seq![*i],
        TypedExprKind::ToString(i) => seq![*i],
        TypedExprKind::Hash(i) => seq![*i],
        TypedExprKind::StrLen(i) => seq![*i],
        TypedExprKind::SliceLen(i) => seq![*i],
        TypedExprKind::Field { base, .. } => seq![*base],
        TypedExprKind::Try { value, .. } => seq![*value],
        TypedExprKind::Truncate { place, length } => seq![*place, *length],
        TypedExprKind::WriteFile { path, contents } => seq![*path, *contents],
        TypedExprKind::WriteBytes { path, buffer } => seq![*path, *buffer],
        TypedExprKind::CBytesAt { pointer, count } => seq![*pointer, *count],
        TypedExprKind::CBytesTo { pointer, bytes } => seq![*pointer, *bytes],
        TypedExprKind::ByteAt { s, index } => seq![*s, *index],
        TypedExprKind::IntDiv { lhs, rhs, .. } => seq![*lhs, *rhs],
        TypedExprKind::Logical { lhs, rhs, .. } => seq![*lhs, *rhs],
        TypedExprKind::Binary { lhs, rhs, .. } => seq![*lhs, *rhs],
        TypedExprKind::Compare { lhs, rhs, .. } => seq![*lhs, *rhs],
        TypedExprKind::Push { place, value } => seq![*place, *value],
        TypedExprKind::SliceIndex { base, index } => seq![*base, *index],
        TypedExprKind::Index { base, index, .. } => seq![*base, *index],
        TypedExprKind::Substring { source, at, len } => seq![*source, *at, *len],
        TypedExprKind::Bit { lhs, rhs, .. } => match rhs {
            Some(r) => seq![*lhs, *r],
            None => seq![*lhs],
        },
        TypedExprKind::Call { arguments, .. } => arguments@,
        TypedExprKind::VariantLit { arguments, .. } => arguments@,
        TypedExprKind::StructLit { fields, .. } => fields@,
        TypedExprKind::ArrayLit(items) => items@,
        TypedExprKind::SliceLit(items) => items@,
        TypedExprKind::MethodCall { base, arguments, .. } => seq![*base] + arguments@,
        TypedExprKind::DynCall { base, arguments, .. } => seq![*base] + arguments@,
    }
}

/// The expressions a list of references points at.
pub open spec fn deref_all(s: Seq<&TypedExpr>) -> Seq<TypedExpr> {
    s.map_values(|x: &TypedExpr| *x)
}

/// Each direct subexpression is smaller than the expression.
proof fn lemma_children_smaller(e: TypedExpr, i: int)
    requires
        0 <= i < children_of(e).len(),
    ensures
        decreases_to!(e => children_of(e)[i]),
{
    assert(decreases_to!(e => e.kind));
    match e.kind {
        TypedExprKind::Call { arguments, .. } => { assert(decreases_to!(arguments => arguments@[i])); },
        TypedExprKind::VariantLit { arguments, .. } => { assert(decreases_to!(arguments => arguments@[i])); },
        TypedExprKind::StructLit { fields, .. } => { assert(decreases_to!(fields => fields@[i])); },
        TypedExprKind::ArrayLit(items) => { assert(decreases_to!(items => items@[i])); },
        TypedExprKind::SliceLit(items) => { assert(decreases_to!(items => items@[i])); },
        TypedExprKind::MethodCall { base, arguments, .. } => {
            if i > 0 {
                assert(children_of(e)[i] == arguments@[i - 1]);
                assert(decreases_to!(arguments => arguments@[i - 1]));
            }
        },
        TypedExprKind::DynCall { base, arguments, .. } => {
            if i > 0 {
                assert(children_of(e)[i] == arguments@[i - 1]);
                assert(decreases_to!(arguments => arguments@[i - 1]));
            }
        },
        TypedExprKind::Bit { lhs, rhs, .. } => {
            match rhs {
                Some(r) => { assert(decreases_to!(rhs => r)); },
                None => {},
            }
        },
        _ => {},
    }
}

/// Whether the expression produces storage built in this function. The type is asked first: a
/// value whose type cannot hold region storage carries no escape, whatever it was computed from.
pub open spec fn allocates_in(f: CallFacts, st: PassV, e: TypedExpr) -> bool
    decreases e, 1int,
{
    if !holds_storage(f.layouts@, e.ty@, Seq::empty(), fuel_for(f.layouts)) {
        false
    } else {
        match e.kind {
            TypedExprKind::Hold { .. } => true,
            TypedExprKind::Held { .. } => false,
            TypedExprKind::StrLit(_) => false,
            TypedExprKind::IntLit(_) => false,
            TypedExprKind::DecimalLit { .. } => false,
            TypedExprKind::BoolLit(_) => false,
            TypedExprKind::ArgCount => false,
            TypedExprKind::Old(_) => false,
            TypedExprKind::Var(n) => allocated_in(st, n@),
            TypedExprKind::DynCoerce { var, .. } => allocated_in(st, var@),
            TypedExprKind::SliceLit(_) => true,
            TypedExprKind::Push { .. } => true,
            TypedExprKind::ReadFile(_) => true,
            TypedExprKind::CStringAt(_) => true,
            TypedExprKind::CBytesAt { .. } => true,
            TypedExprKind::ByteAsString(_) => true,
            TypedExprKind::Substring { .. } => true,
            TypedExprKind::Arg(_) => true,
            TypedExprKind::ToString(v) => v.ty@ != TypeV::Bool,
            TypedExprKind::CBytesTo { .. } => false,
            TypedExprKind::Binary { op, lhs, rhs } => if op == BinOp::Add && lhs.ty@ == TypeV::String
                && rhs.ty@ == TypeV::String {
                true
            } else {
                allocates_in(f, st, *lhs) || allocates_in(f, st, *rhs)
            },
            TypedExprKind::Call { name, arguments } => listed(f.alloc_fns@, name@)
                || relayed(f, st, name@, arguments@, 0),
            TypedExprKind::MethodCall { receiver, method, base, arguments, .. } =>
                pair_listed(f.alloc_methods@, receiver@, method@)
                || (triple_listed(f.relay_methods@, receiver@, method@, 0) && allocates_in(f, st, *base))
                || method_relayed(f, st, receiver@, method@, arguments@, 1),
            TypedExprKind::DynCall { interface_name, method, base, arguments, .. } =>
                dyn_allocates(f, interface_name@, method@)
                || (dyn_relays(f, interface_name@, method@, 0) && allocates_in(f, st, *base))
                || dyn_relayed(f, st, interface_name@, method@, arguments@, 1),
            TypedExprKind::Try { value, .. } => allocates_in(f, st, *value),
            TypedExprKind::StructLit { fields, .. } => any_allocates(f, st, fields@),
            TypedExprKind::VariantLit { arguments, .. } => any_allocates(f, st, arguments@),
            TypedExprKind::ArrayLit(items) => any_allocates(f, st, items@),
            TypedExprKind::Field { base, .. } => allocates_in(f, st, *base),
            TypedExprKind::Index { base, index, .. } => allocates_in(f, st, *base) || allocates_in(f, st, *index),
            TypedExprKind::SliceIndex { base, index } => allocates_in(f, st, *base) || allocates_in(f, st, *index),
            TypedExprKind::Neg(_) => true,
            TypedExprKind::Not(_) => true,
            TypedExprKind::Truncate { .. } => true,
            TypedExprKind::WriteFile { .. } => true,
            TypedExprKind::WriteBytes { .. } => true,
            TypedExprKind::IntDiv { .. } => true,
            TypedExprKind::Bit { .. } => true,
            TypedExprKind::CIsNull(_) => true,
            TypedExprKind::ByteAt { .. } => true,
            TypedExprKind::Hash(_) => true,
            TypedExprKind::StrLen(_) => true,
            TypedExprKind::SliceLen(_) => true,
            TypedExprKind::Logical { .. } => true,
            TypedExprKind::Compare { .. } => true,
        }
    }
}

/// Whether some expression of the list allocates.
pub open spec fn any_allocates(f: CallFacts, st: PassV, es: Seq<TypedExpr>) -> bool
    decreases es, 0int,
{
    es.len() > 0 && (allocates_in(f, st, es[0]) || any_allocates(f, st, es.skip(1)))
}

/// Whether some argument, the first numbered `i`, is handed back by function `name` and allocates.
pub open spec fn relayed(f: CallFacts, st: PassV, name: Seq<char>, es: Seq<TypedExpr>, i: int) -> bool
    decreases es, 0int,
{
    es.len() > 0 && ((index_listed(f.relay_params@, name, i) && allocates_in(f, st, es[0]))
        || relayed(f, st, name, es.skip(1), i + 1))
}

/// Whether some argument, the first numbered `i`, is handed back by the method and allocates.
pub open spec fn method_relayed(
    f: CallFacts,
    st: PassV,
    receiver: Seq<char>,
    method: Seq<char>,
    es: Seq<TypedExpr>,
    i: int,
) -> bool
    decreases es, 0int,
{
    es.len() > 0 && ((triple_listed(f.relay_methods@, receiver, method, i) && allocates_in(f, st, es[0]))
        || method_relayed(f, st, receiver, method, es.skip(1), i + 1))
}

/// Whether some argument, the first numbered `i`, is handed back by some implementation of the
/// interface method and allocates.
pub open spec fn dyn_relayed(
    f: CallFacts,
    st: PassV,
    interface: Seq<char>,
    method: Seq<char>,
    es: Seq<TypedExpr>,
    i: int,
) -> bool
    decreases es, 0int,
{
    es.len() > 0 && ((dyn_relays(f, interface, method, i) && allocates_in(f, st, es[0]))
        || dyn_relayed(f, st, interface, method, es.skip(1), i + 1))
}

/// The pass over one body.
struct ReleasePass {
    frames: Vec<Frame>,
    names: NameMap<Owned>,
}

impl View for ReleasePass {
    type V = PassV;

    closed spec fn view(&self) -> PassV {
        PassV { frames: Seq::new(self.frames@.len(), |i: int| self.frames@[i]@), names: self.names@ }
    }
}

impl ReleasePass {
    /// The depth of the innermost open block.
    fn depth(&self) -> (r: usize)
        requires
            self@.frames.len() > 0,
        ensures
            r == depth_of(self@),
    {
        self.frames.len() - 1
    }

    /// Marks every block inside `owner`'s as unable to release.
    fn taint(&mut self, owner: Option<usize>)
        ensures
            final(self)@ == tainted(old(self)@, owner),
            final(self)@.frames.len() == old(self)@.frames.len(),
    {
        let n = self.frames.len();
        let from: usize = match owner {
            None => 0,
            Some(d) => if d < n { d + 1 } else { n },
        };
        let mut j: usize = from;
        while j < n
            invariant
                from <= j <= n,
                n == self.frames@.len(),
                self.names == old(self).names,
                self.frames@.len() == old(self).frames@.len(),
                forall|k: int| 0 <= k < n ==> #[trigger] self.frames@[k].declared == old(self).frames@[k].declared
                    && self.frames@[k].allocates == old(self).frames@[k].allocates,
                forall|k: int| 0 <= k < n ==> (#[trigger] self.frames@[k].leaks) == if from <= k < j {
                    true
                } else {
                    old(self).frames@[k].leaks
                },
            decreases n - j,
        {
            self.frames[j].leaks = true;
            j = j + 1;
        }
        assert(self@.frames =~= tainted(old(self)@, owner).frames);
    }

    /// Marks every open block as having built something.
    fn mark_allocates(&mut self)
        ensures
            final(self)@ == all_allocating(old(self)@),
            final(self)@.frames.len() == old(self)@.frames.len(),
    {
        let n = self.frames.len();
        let mut j: usize = 0;
        while j < n
            invariant
                j <= n,
                n == self.frames@.len(),
                self.names == old(self).names,
                self.frames@.len() == old(self).frames@.len(),
                forall|k: int| 0 <= k < n ==> #[trigger] self.frames@[k].declared == old(self).frames@[k].declared
                    && self.frames@[k].leaks == old(self).frames@[k].leaks,
                forall|k: int| 0 <= k < n ==> (#[trigger] self.frames@[k].allocates) == if k < j {
                    true
                } else {
                    old(self).frames@[k].allocates
                },
            decreases n - j,
        {
            self.frames[j].allocates = true;
            j = j + 1;
        }
        assert(self@.frames =~= all_allocating(old(self)@).frames);
    }

    /// Declares `name` in the innermost block.
    fn declare(&mut self, name: &String, owner: Option<usize>, allocated: bool)
        ensures
            final(self)@ == with_declared(old(self)@, name@, owner, allocated),
    {
        let n = self.frames.len();
        if n > 0 {
            let ghost before = self.frames@[n - 1];
            self.frames[n - 1].declared.push(name.clone());
            assert(view_names(self.frames@[n - 1].declared@) =~= view_names(before.declared@).push(name@));
            assert(self@.frames[n - 1] == FrameV {
                declared: old(self)@.frames.last().declared.push(name@),
                leaks: old(self)@.frames.last().leaks,
                allocates: old(self)@.frames.last().allocates,
            });
        }
        self.names.insert(name.clone(), Owned { owner, allocated });
        assert(self@.frames =~= with_declared(old(self)@, name@, owner, allocated).frames);
    }

    /// Whose storage `name` holds.
    fn owner_of(&self, name: &String) -> (r: Option<usize>)
        ensures
            r == owner_in(self@, name@),
    {
        match self.names.get(name) {
            Some(o) => o.owner,
            None => None,
        }
    }

    /// Whether `name` holds storage built in this function.
    fn allocated(&self, name: &String) -> (r: bool)
        ensures
            r == allocated_in(self@, name@),
    {
        match self.names.get(name) {
            Some(o) => o.allocated,
            None => false,
        }
    }

    /// `name`, if in scope, now holds storage built here.
    fn mark_allocated(&mut self, name: &String)
        ensures
            final(self)@ == with_allocated(old(self)@, name@),
            final(self)@.frames.len() == old(self)@.frames.len(),
    {
        match self.names.get(name) {
            Some(o) => {
                let owner = o.owner;
                self.names.insert(name.clone(), Owned { owner, allocated: true });
            },
            None => {},
        }
    }

    /// `name`, if in scope, now holds storage owned by `owner`.
    fn set_owner(&mut self, name: &String, owner: Option<usize>)
        ensures
            final(self)@ == with_owner(old(self)@, name@, owner),
            final(self)@.frames.len() == old(self)@.frames.len(),
    {
        match self.names.get(name) {
            Some(o) => {
                let allocated = o.allocated;
                self.names.insert(name.clone(), Owned { owner, allocated });
            },
            None => {},
        }
    }

    /// The shorter of two lifetimes.
    fn shorter(a: Option<usize>, b: Option<usize>) -> (r: Option<usize>)
        ensures
            r == shorter(a, b),
    {
        match (a, b) {
            (Some(x), Some(y)) => Some(if x < y { x } else { y }),
            _ => None,
        }
    }

    /// Whose storage this expression could be pointing into.
    fn place_owner(&self, e: &TypedExpr) -> (r: Option<usize>)
        requires
            self@.frames.len() > 0,
        ensures
            r == place_owner_in(self@, *e),
    {
        let mut acc = Some(self.depth());
        let mut vars: Vec<String> = Vec::new();
        Self::collect_vars(e, &mut vars);
        let ghost vs = view_names(vars@);
        proof {
            assert(view_names(Seq::<String>::empty()) + vars_of(*e) =~= vars_of(*e));
            assert(vs.skip(0) =~= vs);
        }
        let mut i: usize = 0;
        while i < vars.len()
            invariant
                0 <= i <= vars@.len(),
                vs == view_names(vars@),
                vs == vars_of(*e),
                owner_fold(self@, Some(depth_of(self@) as usize), vs) == owner_fold(self@, acc, vs.skip(i as int)),
            decreases vars.len() - i,
        {
            proof {
                assert(vs.skip(i as int).skip(1) =~= vs.skip(i + 1));
                assert(vs.skip(i as int)[0] == vars@[i as int]@);
            }
            acc = Self::shorter(acc, self.owner_of(&vars[i]));
            i = i + 1;
        }
        acc
    }

    /// Appends every name the expression reads.
    fn collect_vars(e: &TypedExpr, out: &mut Vec<String>)
        ensures
            view_names(final(out)@) == view_names(old(out)@) + vars_of(*e),
        decreases e,
    {
        let ghost start = view_names(out@);
        match &e.kind {
            TypedExprKind::Hold { value, .. } => Self::collect_vars(value, out),
            TypedExprKind::Held { handle, .. } => Self::collect_vars(handle, out),
            TypedExprKind::Var(n) => {
                out.push(n.clone());
                assert(view_names(out@) =~= start + vars_of(*e));
            },
            TypedExprKind::DynCoerce { var, .. } => {
                out.push(var.clone());
                assert(view_names(out@) =~= start + vars_of(*e));
            },
            TypedExprKind::IntLit(_) | TypedExprKind::DecimalLit { .. } | TypedExprKind::BoolLit(_)
            | TypedExprKind::StrLit(_) | TypedExprKind::ArgCount | TypedExprKind::Old(_) => {
                assert(view_names(out@) =~= start + vars_of(*e));
            },
            TypedExprKind::Neg(i) | TypedExprKind::Not(i) | TypedExprKind::Arg(i) | TypedExprKind::ReadFile(i)
            | TypedExprKind::CIsNull(i) | TypedExprKind::CStringAt(i) | TypedExprKind::ByteAsString(i)
            | TypedExprKind::ToString(i) | TypedExprKind::Hash(i) | TypedExprKind::StrLen(i)
            | TypedExprKind::SliceLen(i) | TypedExprKind::Field { base: i, .. }
            | TypedExprKind::Try { value: i, .. } => Self::collect_vars(i, out),
            TypedExprKind::Truncate { place: a, length: b } | TypedExprKind::WriteFile { path: a, contents: b }
            | TypedExprKind::WriteBytes { path: a, buffer: b } | TypedExprKind::CBytesAt { pointer: a, count: b }
            | TypedExprKind::CBytesTo { pointer: a, bytes: b } | TypedExprKind::ByteAt { s: a, index: b }
            | TypedExprKind::IntDiv { lhs: a, rhs: b, .. } | TypedExprKind::Logical { lhs: a, rhs: b, .. }
            | TypedExprKind::Binary { lhs: a, rhs: b, .. } | TypedExprKind::Compare { lhs: a, rhs: b, .. }
            | TypedExprKind::Push { place: a, value: b } | TypedExprKind::SliceIndex { base: a, index: b }
            | TypedExprKind::Index { base: a, index: b, .. } => {
                Self::collect_vars(a, out);
                Self::collect_vars(b, out);
                assert(view_names(out@) =~= start + vars_of(*e));
            },
            TypedExprKind::Substring { source, at, len } => {
                Self::collect_vars(source, out);
                Self::collect_vars(at, out);
                Self::collect_vars(len, out);
                assert(view_names(out@) =~= start + vars_of(*e));
            },
            TypedExprKind::Bit { lhs, rhs, .. } => {
                Self::collect_vars(lhs, out);
                match rhs {
                    Some(r) => {
                        assert(decreases_to!(rhs => *r));
                        Self::collect_vars(r, out);
                    },
                    None => {},
                }
                assert(view_names(out@) =~= start + vars_of(*e));
            },
            TypedExprKind::Call { arguments, .. } | TypedExprKind::VariantLit { arguments, .. }
            | TypedExprKind::StructLit { fields: arguments, .. } | TypedExprKind::ArrayLit(arguments)
            | TypedExprKind::SliceLit(arguments) => {
                Self::collect_all(arguments, out);
            },
            TypedExprKind::MethodCall { base, arguments, .. } | TypedExprKind::DynCall { base, arguments, .. } => {
                Self::collect_vars(base, out);
                Self::collect_all(arguments, out);
                assert(view_names(out@) =~= start + vars_of(*e));
            },
        }
    }

    /// Appends every name each expression of the list reads.
    fn collect_all(es: &Vec<TypedExpr>, out: &mut Vec<String>)
        ensures
            view_names(final(out)@) == view_names(old(out)@) + vars_of_all(es@),
        decreases es,
    {
        let ghost start = view_names(out@);
        proof {
            assert(es@.skip(0) =~= es@);
            assert(start + vars_of_all(es@) =~= view_names(out@) + vars_of_all(es@.skip(0)));
        }
        let mut i: usize = 0;
        while i < es.len()
            invariant
                0 <= i <= es@.len(),
                start + vars_of_all(es@) == view_names(out@) + vars_of_all(es@.skip(i as int)),
            decreases es.len() - i,
        {
            proof {
                assert(es@.skip(i as int).skip(1) =~= es@.skip(i + 1));
                assert(es@.skip(i as int)[0] == es@[i as int]);
                assert(decreases_to!(es => es@[i as int]));
            }
            let ghost before = view_names(out@);
            Self::collect_vars(&es[i], out);
            assert(before + vars_of_all(es@.skip(i as int)) =~= view_names(out@) + vars_of_all(es@.skip(i + 1)));
            i = i + 1;
        }
        assert(view_names(out@) + vars_of_all(es@.skip(i as int)) =~= view_names(out@));
    }

    /// The binding a place expression ultimately reaches through.
    fn root_name(e: &TypedExpr) -> (r: Option<String>)
        ensures
            r matches Some(n) ==> root_of(*e) == Some(n@),
            r is None ==> root_of(*e) is None,
        decreases e,
    {
        match &e.kind {
            TypedExprKind::Var(n) => Some(n.clone()),
            TypedExprKind::DynCoerce { var, .. } => Some(var.clone()),
            TypedExprKind::Field { base, .. } | TypedExprKind::Index { base, .. }
            | TypedExprKind::SliceIndex { base, .. } => Self::root_name(base),
            _ => None,
        }
    }

    /// Appends the direct subexpressions of `e`, in order.
    fn children<'e>(e: &'e TypedExpr, out: &mut Vec<&'e TypedExpr>)
        ensures
            deref_all(final(out)@) == deref_all(old(out)@) + children_of(*e),
    {
        let ghost start = deref_all(out@);
        match &e.kind {
            TypedExprKind::Hold { value, .. } => out.push(value),
            TypedExprKind::Held { handle, .. } => out.push(handle),
            TypedExprKind::IntLit(_) | TypedExprKind::DecimalLit { .. } | TypedExprKind::BoolLit(_)
            | TypedExprKind::StrLit(_) | TypedExprKind::Var(_) | TypedExprKind::DynCoerce { .. }
            | TypedExprKind::ArgCount | TypedExprKind::Old(_) => {},
            TypedExprKind::Neg(i) | TypedExprKind::Not(i) | TypedExprKind::Arg(i) | TypedExprKind::ReadFile(i)
            | TypedExprKind::CIsNull(i) | TypedExprKind::CStringAt(i) | TypedExprKind::ByteAsString(i)
            | TypedExprKind::ToString(i) | TypedExprKind::Hash(i) | TypedExprKind::StrLen(i)
            | TypedExprKind::SliceLen(i) | TypedExprKind::Field { base: i, .. }
            | TypedExprKind::Try { value: i, .. } => out.push(i),
            TypedExprKind::Truncate { place: a, length: b } | TypedExprKind::WriteFile { path: a, contents: b }
            | TypedExprKind::WriteBytes { path: a, buffer: b } | TypedExprKind::CBytesAt { pointer: a, count: b }
            | TypedExprKind::CBytesTo { pointer: a, bytes: b } | TypedExprKind::ByteAt { s: a, index: b }
            | TypedExprKind::IntDiv { lhs: a, rhs: b, .. } | TypedExprKind::Logical { lhs: a, rhs: b, .. }
            | TypedExprKind::Binary { lhs: a, rhs: b, .. } | TypedExprKind::Compare { lhs: a, rhs: b, .. }
            | TypedExprKind::Push { place: a, value: b } | TypedExprKind::SliceIndex { base: a, index: b }
            | TypedExprKind::Index { base: a, index: b, .. } => {
                out.push(a);
                out.push(b);
            },
            TypedExprKind::Substring { source, at, len } => {
                out.push(source);
                out.push(at);
                out.push(len);
            },
            TypedExprKind::Bit { lhs, rhs, .. } => {
                out.push(lhs);
                match rhs {
                    Some(r) => out.push(r),
                    None => {},
                }
            },
            TypedExprKind::Call { arguments, .. } | TypedExprKind::VariantLit { arguments, .. }
            | TypedExprKind::StructLit { fields: arguments, .. } | TypedExprKind::ArrayLit(arguments)
            | TypedExprKind::SliceLit(arguments) => Self::extend_refs(arguments, out),
            TypedExprKind::MethodCall { base, arguments, .. } | TypedExprKind::DynCall { base, arguments, .. } => {
                out.push(base);
                Self::extend_refs(arguments, out);
            },
        }
        assert(deref_all(out@) =~= start + children_of(*e));
    }

    /// Appends a reference to each expression of the list.
    fn extend_refs<'e>(es: &'e Vec<TypedExpr>, out: &mut Vec<&'e TypedExpr>)
        ensures
            deref_all(final(out)@) == deref_all(old(out)@) + es@,
    {
        let ghost start = deref_all(out@);
        let mut k: usize = 0;
        while k < es.len()
            invariant
                k <= es@.len(),
                deref_all(out@) =~= start + es@.take(k as int),
            decreases es.len() - k,
        {
            let ghost before = out@;
            out.push(&es[k]);
            assert(deref_all(out@) =~= deref_all(before).push(es@[k as int]));
            assert(es@.take(k + 1) =~= es@.take(k as int).push(es@[k as int]));
            k = k + 1;
        }
        assert(es@.take(k as int) =~= es@);
    }
}

impl ReleasePass {
    /// Whether the expression produces storage built in this function: see [`allocates_in`].
    fn allocates(&self, facts: &CallFacts, e: &TypedExpr) -> (r: bool)
        ensures
            r == allocates_in(*facts, self@, *e),
        decreases e,
    {
        if !may_be_region_storage(&facts.layouts, &e.ty) {
            return false;
        }
        match &e.kind {
            TypedExprKind::Hold { .. } => true,
            TypedExprKind::Held { .. } => false,
            TypedExprKind::StrLit(_) | TypedExprKind::IntLit(_) | TypedExprKind::DecimalLit { .. }
            | TypedExprKind::BoolLit(_) | TypedExprKind::ArgCount => false,
            TypedExprKind::Old(_) => false,
            TypedExprKind::Var(n) => self.allocated(n),
            TypedExprKind::DynCoerce { var, .. } => self.allocated(var),
            TypedExprKind::SliceLit(_) | TypedExprKind::Push { .. } | TypedExprKind::ReadFile(_)
            | TypedExprKind::CStringAt(_) | TypedExprKind::CBytesAt { .. } | TypedExprKind::ByteAsString(_)
            | TypedExprKind::Substring { .. } | TypedExprKind::Arg(_) => true,
            TypedExprKind::ToString(v) => match v.ty {
                Type::Bool => false,
                _ => true,
            },
            TypedExprKind::CBytesTo { .. } => false,
            TypedExprKind::Binary { op, lhs, rhs } => {
                let both_strings = match (&lhs.ty, &rhs.ty) {
                    (Type::String, Type::String) => true,
                    _ => false,
                };
                if *op == BinOp::Add && both_strings {
                    true
                } else {
                    self.allocates(facts, lhs) || self.allocates(facts, rhs)
                }
            },
            TypedExprKind::Call { name, arguments } => {
                has_name(&facts.alloc_fns, name) || self.relays_to(facts, name, arguments)
            },
            TypedExprKind::MethodCall { receiver, method, base, arguments, .. } => {
                has_pair(&facts.alloc_methods, receiver, method)
                    || (has_triple(&facts.relay_methods, receiver, method, 0) && self.allocates(facts, base))
                    || self.method_relays_to(facts, receiver, method, arguments)
            },
            TypedExprKind::DynCall { interface_name, method, base, arguments, .. } => {
                dyn_call_allocates(facts, interface_name, method)
                    || (dyn_call_relays(facts, interface_name, method, 0) && self.allocates(facts, base))
                    || self.dyn_relays_to(facts, interface_name, method, arguments)
            },
            TypedExprKind::Try { value, .. } => self.allocates(facts, value),
            TypedExprKind::StructLit { fields: items, .. } | TypedExprKind::VariantLit { arguments: items, .. }
            | TypedExprKind::ArrayLit(items) => self.any_allocates(facts, items),
            TypedExprKind::Field { base, .. } => self.allocates(facts, base),
            TypedExprKind::Index { base, index, .. } | TypedExprKind::SliceIndex { base, index } => {
                self.allocates(facts, base) || self.allocates(facts, index)
            },
            TypedExprKind::Neg(_) | TypedExprKind::Not(_) | TypedExprKind::Truncate { .. }
            | TypedExprKind::WriteFile { .. } | TypedExprKind::WriteBytes { .. } | TypedExprKind::IntDiv { .. }
            | TypedExprKind::Bit { .. } | TypedExprKind::CIsNull(_) | TypedExprKind::ByteAt { .. }
            | TypedExprKind::Hash(_) | TypedExprKind::StrLen(_) | TypedExprKind::SliceLen(_)
            | TypedExprKind::Logical { .. } | TypedExprKind::Compare { .. } => true,
        }
    }

    /// Whether some expression of the list allocates.
    fn any_allocates(&self, facts: &CallFacts, es: &Vec<TypedExpr>) -> (r: bool)
        ensures
            r == any_allocates(*facts, self@, es@),
        decreases es,
    {
        assert(es@.skip(0) =~= es@);
        let mut i: usize = 0;
        while i < es.len()
            invariant
                0 <= i <= es@.len(),
                any_allocates(*facts, self@, es@) == any_allocates(*facts, self@, es@.skip(i as int)),
            decreases es.len() - i,
        {
            proof {
                assert(es@.skip(i as int).skip(1) =~= es@.skip(i + 1));
                assert(es@.skip(i as int)[0] == es@[i as int]);
                assert(decreases_to!(es => es@[i as int]));
            }
            if self.allocates(facts, &es[i]) {
                return true;
            }
            i = i + 1;
        }
        false
    }

    /// Whether some argument is handed back by function `name` and allocates.
    fn relays_to(&self, facts: &CallFacts, name: &String, es: &Vec<TypedExpr>) -> (r: bool)
        ensures
            r == relayed(*facts, self@, name@, es@, 0),
        decreases es,
    {
        assert(es@.skip(0) =~= es@);
        let mut i: usize = 0;
        while i < es.len()
            invariant
                0 <= i <= es@.len(),
                relayed(*facts, self@, name@, es@, 0) == relayed(*facts, self@, name@, es@.skip(i as int), i as int),
            decreases es.len() - i,
        {
            proof {
                assert(es@.skip(i as int).skip(1) =~= es@.skip(i + 1));
                assert(es@.skip(i as int)[0] == es@[i as int]);
                assert(decreases_to!(es => es@[i as int]));
            }
            if has_index(&facts.relay_params, name, i) && self.allocates(facts, &es[i]) {
                return true;
            }
            i = i + 1;
        }
        false
    }

    /// Whether some argument is handed back by the method and allocates.
    fn method_relays_to(&self, facts: &CallFacts, receiver: &String, method: &String, es: &Vec<TypedExpr>) -> (r: bool)
        ensures
            r == method_relayed(*facts, self@, receiver@, method@, es@, 1),
        decreases es,
    {
        assert(es@.skip(0) =~= es@);
        let mut i: usize = 0;
        while i < es.len()
            invariant
                0 <= i <= es@.len(),
                method_relayed(*facts, self@, receiver@, method@, es@, 1)
                    == method_relayed(*facts, self@, receiver@, method@, es@.skip(i as int), i + 1),
            decreases es.len() - i,
        {
            proof {
                assert(es@.skip(i as int).skip(1) =~= es@.skip(i + 1));
                assert(es@.skip(i as int)[0] == es@[i as int]);
                assert(decreases_to!(es => es@[i as int]));
            }
            if has_triple(&facts.relay_methods, receiver, method, i + 1) && self.allocates(facts, &es[i]) {
                return true;
            }
            i = i + 1;
        }
        false
    }

    /// Whether some argument is handed back by some implementation of the interface method and
    /// allocates.
    fn dyn_relays_to(&self, facts: &CallFacts, interface_name: &String, method: &String, es: &Vec<TypedExpr>) -> (r: bool)
        ensures
            r == dyn_relayed(*facts, self@, interface_name@, method@, es@, 1),
        decreases es,
    {
        assert(es@.skip(0) =~= es@);
        let mut i: usize = 0;
        while i < es.len()
            invariant
                0 <= i <= es@.len(),
                dyn_relayed(*facts, self@, interface_name@, method@, es@, 1)
                    == dyn_relayed(*facts, self@, interface_name@, method@, es@.skip(i as int), i + 1),
            decreases es.len() - i,
        {
            proof {
                assert(es@.skip(i as int).skip(1) =~= es@.skip(i + 1));
                assert(es@.skip(i as int)[0] == es@[i as int]);
                assert(decreases_to!(es => es@[i as int]));
            }
            if dyn_call_relays(facts, interface_name, method, i + 1) && self.allocates(facts, &es[i]) {
                return true;
            }
            i = i + 1;
        }
        false
    }
}

/// Storage behind `place` grows: whoever owns it keeps the growth, and the binding it is reached
/// through now holds storage built here.
pub open spec fn written_place(st: PassV, place: TypedExpr) -> PassV {
    let st1 = tainted(st, place_owner_in(st, place));
    match root_of(place) {
        Some(r) => with_allocated(st1, r),
        None => st1,
    }
}

/// Each argument that its parameter's flag says is written through, the first numbered `i`,
/// counts as a growing place.
pub open spec fn taint_args(st: PassV, es: Seq<TypedExpr>, w: Seq<bool>, i: int) -> PassV
    decreases es.len(),
{
    if es.len() == 0 {
        st
    } else {
        let st1 = if writes(w, i) { written_place(st, es[0]) } else { st };
        taint_args(st1, es.skip(1), w, i + 1)
    }
}

/// The state after the pass walks an expression: what it builds is classed, and the ways it can
/// hand storage to somebody who outlives this block taint the blocks that cannot release.
pub open spec fn scanned(f: CallFacts, st: PassV, e: TypedExpr) -> PassV
    decreases e, 2int,
{
    let st1 = if allocates_in(f, st, e) { all_allocating(st) } else { st };
    match e.kind {
        TypedExprKind::Push { place, value } => {
            let st2 = all_allocating(written_place(st1, *place));
            scanned(f, scanned(f, st2, *place), *value)
        },
        TypedExprKind::Call { name, arguments } => {
            let st2 = if listed(f.extern_names@, name@) {
                tainted(st1, None)
            } else {
                match fn_flags(f, name@) {
                    Some(w) => taint_args(st1, arguments@, w, 0),
                    None => tainted(st1, None),
                }
            };
            scan_all(f, st2, arguments@)
        },
        TypedExprKind::MethodCall { receiver, method, receiver_mut, base, arguments } => {
            let st2 = if receiver_mut { written_place(st1, *base) } else { st1 };
            let st3 = match method_flags(f.method_writable@, receiver@, method@) {
                Some(w) => taint_args(st2, arguments@, w, 0),
                None => tainted(st2, None),
            };
            scan_all(f, scanned(f, st3, *base), arguments@)
        },
        TypedExprKind::DynCall { interface_name, method, base, arguments, .. } => {
            let st3 = match interface_sig(f, interface_name@, method@) {
                Some(sig) => {
                    let st2 = if sig.receiver_mut { written_place(st1, *base) } else { st1 };
                    taint_args(st2, arguments@, sig.writable, 0)
                },
                None => tainted(st1, None),
            };
            scan_all(f, scanned(f, st3, *base), arguments@)
        },
        TypedExprKind::Try { value, .. } => scanned(f, tainted(st1, None), *value),
        _ => scan_children(f, st1, e),
    }
}

/// The state after the pass walks each direct subexpression in turn.
pub open spec fn scan_children(f: CallFacts, st: PassV, e: TypedExpr) -> PassV
    decreases e, 1int,
{
    match e.kind {
        TypedExprKind::Hold { value, .. } => scanned(f, st, *value),
        TypedExprKind::Held { handle, .. } => scanned(f, st, *handle),
        TypedExprKind::IntLit(_) | TypedExprKind::DecimalLit { .. } | TypedExprKind::BoolLit(_)
        | TypedExprKind::StrLit(_) | TypedExprKind::Var(_) | TypedExprKind::DynCoerce { .. }
        | TypedExprKind::ArgCount | TypedExprKind::Old(_) => st,
        TypedExprKind::Neg(i) | TypedExprKind::Not(i) | TypedExprKind::Arg(i) | TypedExprKind::ReadFile(i)
        | TypedExprKind::CIsNull(i) | TypedExprKind::CStringAt(i) | TypedExprKind::ByteAsString(i)
        | TypedExprKind::ToString(i) | TypedExprKind::Hash(i) | TypedExprKind::StrLen(i)
        | TypedExprKind::SliceLen(i) | TypedExprKind::Field { base: i, .. }
        | TypedExprKind::Try { value: i, .. } => scanned(f, st, *i),
        TypedExprKind::Truncate { place: a, length: b } | TypedExprKind::WriteFile { path: a, contents: b }
        | TypedExprKind::WriteBytes { path: a, buffer: b } | TypedExprKind::CBytesAt { pointer: a, count: b }
        | TypedExprKind::CBytesTo { pointer: a, bytes: b } | TypedExprKind::ByteAt { s: a, index: b }
        | TypedExprKind::IntDiv { lhs: a, rhs: b, .. } | TypedExprKind::Logical { lhs: a, rhs: b, .. }
        | TypedExprKind::Binary { lhs: a, rhs: b, .. } | TypedExprKind::Compare { lhs: a, rhs: b, .. }
        | TypedExprKind::Push { place: a, value: b } | TypedExprKind::SliceIndex { base: a, index: b }
        | TypedExprKind::Index { base: a, index: b, .. } => scanned(f, scanned(f, st, *a), *b),
        TypedExprKind::Substring { source, at, len } => scanned(f, scanned(f, scanned(f, st, *source), *at), *len),
        TypedExprKind::Bit { lhs, rhs, .. } => match rhs {
            Some(r) => scanned(f, scanned(f, st, *lhs), *r),
            None => scanned(f, st, *lhs),
        },
        TypedExprKind::Call { arguments, .. } | TypedExprKind::VariantLit { arguments, .. }
        | TypedExprKind::StructLit { fields: arguments, .. } | TypedExprKind::ArrayLit(arguments)
        | TypedExprKind::SliceLit(arguments) => scan_all(f, st, arguments@),
        TypedExprKind::MethodCall { base, arguments, .. } | TypedExprKind::DynCall { base, arguments, .. } =>
            scan_all(f, scanned(f, st, *base), arguments@),
    }
}

/// The state after the pass walks each expression of the list in turn.
pub open spec fn scan_all(f: CallFacts, st: PassV, es: Seq<TypedExpr>) -> PassV
    decreases es, 0int,
{
    if es.len() == 0 {
        st
    } else {
        scan_all(f, scanned(f, st, es[0]), es.skip(1))
    }
}

proof fn lemma_scan_all_cons(f: CallFacts, st: PassV, x: TypedExpr, xs: Seq<TypedExpr>)
    ensures
        scan_all(f, st, seq![x] + xs) == scan_all(f, scanned(f, st, x), xs),
{
    assert((seq![x] + xs).skip(1) =~= xs);
    assert((seq![x] + xs)[0] == x);
}

/// Walking the direct subexpressions as a list is walking them one by one.
proof fn lemma_scan_children(f: CallFacts, st: PassV, e: TypedExpr)
    ensures
        scan_all(f, st, children_of(e)) == scan_children(f, st, e),
{
    let kids = children_of(e);
    if kids.len() == 0 {
    } else if kids.len() == 1 {
        lemma_scan_all_cons(f, st, kids[0], Seq::empty());
        assert(seq![kids[0]] + Seq::<TypedExpr>::empty() =~= kids);
    } else {
        match e.kind {
            TypedExprKind::Call { arguments, .. } | TypedExprKind::VariantLit { arguments, .. }
            | TypedExprKind::StructLit { fields: arguments, .. } | TypedExprKind::ArrayLit(arguments)
            | TypedExprKind::SliceLit(arguments) => {},
            TypedExprKind::MethodCall { base, arguments, .. } | TypedExprKind::DynCall { base, arguments, .. } => {
                lemma_scan_all_cons(f, st, *base, arguments@);
            },
            TypedExprKind::Substring { source, at, len } => {
                lemma_scan_all_cons(f, st, *source, seq![*at, *len]);
                assert(seq![*source] + seq![*at, *len] =~= kids);
                let s1 = scanned(f, st, *source);
                lemma_scan_all_cons(f, s1, *at, seq![*len]);
                assert(seq![*at] + seq![*len] =~= seq![*at, *len]);
                let s2 = scanned(f, s1, *at);
                lemma_scan_all_cons(f, s2, *len, Seq::empty());
                assert(seq![*len] + Seq::<TypedExpr>::empty() =~= seq![*len]);
            },
            _ => {
                let a = kids[0];
                let b = kids[1];
                assert(kids.len() == 2);
                lemma_scan_all_cons(f, st, a, seq![b]);
                assert(seq![a] + seq![b] =~= kids);
                lemma_scan_all_cons(f, scanned(f, st, a), b, Seq::empty());
                assert(seq![b] + Seq::<TypedExpr>::empty() =~= seq![b]);
            },
        }
    }
}

impl ReleasePass {
    /// The storage behind `place` grows: see [`written_place`].
    fn write_through(&mut self, place: &TypedExpr)
        requires
            old(self)@.frames.len() > 0,
        ensures
            final(self)@ == written_place(old(self)@, *place),
            final(self)@.frames.len() == old(self)@.frames.len(),
    {
        let owner = self.place_owner(place);
        self.taint(owner);
        match Self::root_name(place) {
            Some(root) => self.mark_allocated(&root),
            None => {},
        }
    }

    /// Each argument written through, by the flags, grows its place: see [`taint_args`].
    fn taint_arguments(&mut self, arguments: &Vec<TypedExpr>, writable: &Vec<bool>)
        requires
            old(self)@.frames.len() > 0,
        ensures
            final(self)@ == taint_args(old(self)@, arguments@, writable@, 0),
            final(self)@.frames.len() == old(self)@.frames.len(),
    {
        assert(arguments@.skip(0) =~= arguments@);
        let mut i: usize = 0;
        while i < arguments.len()
            invariant
                0 <= i <= arguments@.len(),
                self@.frames.len() == old(self)@.frames.len(),
                self@.frames.len() > 0,
                taint_args(old(self)@, arguments@, writable@, 0)
                    == taint_args(self@, arguments@.skip(i as int), writable@, i as int),
            decreases arguments.len() - i,
        {
            proof {
                assert(arguments@.skip(i as int).skip(1) =~= arguments@.skip(i + 1));
                assert(arguments@.skip(i as int)[0] == arguments@[i as int]);
            }
            let w = if i < writable.len() { writable[i] } else { true };
            if w {
                self.write_through(&arguments[i]);
            }
            i = i + 1;
        }
    }

    /// Walks an expression: see [`scanned`].
    fn scan(&mut self, facts: &CallFacts, e: &TypedExpr)
        requires
            old(self)@.frames.len() > 0,
        ensures
            final(self)@ == scanned(*facts, old(self)@, *e),
            final(self)@.frames.len() == old(self)@.frames.len(),
        decreases e, 2int,
    {
        if self.allocates(facts, e) {
            self.mark_allocates();
        }
        match &e.kind {
            TypedExprKind::Push { place, value } => {
                self.write_through(place);
                self.mark_allocates();
                self.scan(facts, place);
                self.scan(facts, value);
            },
            TypedExprKind::Call { name, arguments } => {
                if has_name(&facts.extern_names, name) {
                    self.taint(None);
                } else {
                    match fn_writable(facts, name) {
                        Some(writable) => self.taint_arguments(arguments, &writable.flags),
                        None => self.taint(None),
                    }
                }
                self.scan_each(facts, arguments);
            },
            TypedExprKind::MethodCall { receiver, method, receiver_mut, base, arguments } => {
                if *receiver_mut {
                    self.write_through(base);
                }
                match method_writable(facts, receiver, method) {
                    Some(writable) => self.taint_arguments(arguments, writable),
                    None => self.taint(None),
                }
                self.scan(facts, base);
                self.scan_each(facts, arguments);
            },
            TypedExprKind::DynCall { interface_name, method, base, arguments, .. } => {
                match find_interface_sig(facts, interface_name, method) {
                    Some(sig) => {
                        if sig.receiver_mut {
                            self.write_through(base);
                        }
                        self.taint_arguments(arguments, &sig.writable);
                    },
                    None => self.taint(None),
                }
                self.scan(facts, base);
                self.scan_each(facts, arguments);
            },
            TypedExprKind::Try { value, .. } => {
                self.taint(None);
                self.scan(facts, value);
            },
            _ => {
                let ghost st1 = self@;
                let mut children: Vec<&TypedExpr> = Vec::new();
                Self::children(e, &mut children);
                let ghost kids = children_of(*e);
                proof {
                    assert(deref_all(Seq::<&TypedExpr>::empty()) + kids =~= kids);
                    assert(kids.skip(0) =~= kids);
                }
                let mut k: usize = 0;
                while k < children.len()
                    invariant
                        0 <= k <= children@.len(),
                        deref_all(children@) == kids,
                        kids == children_of(*e),
                        self@.frames.len() == st1.frames.len(),
                        self@.frames.len() > 0,
                        scan_all(*facts, st1, kids) == scan_all(*facts, self@, kids.skip(k as int)),
                    decreases children.len() - k,
                {
                    proof {
                        lemma_children_smaller(*e, k as int);
                        assert(kids.skip(k as int).skip(1) =~= kids.skip(k + 1));
                        assert(kids.skip(k as int)[0] == kids[k as int]);
                        assert(deref_all(children@)[k as int] == *children@[k as int]);
                    }
                    let c = children[k];
                    self.scan(facts, c);
                    k = k + 1;
                }
                proof {
                    lemma_scan_children(*facts, st1, *e);
                }
            },
        }
    }

    /// Walks each expression of the list in turn.
    fn scan_each(&mut self, facts: &CallFacts, es: &Vec<TypedExpr>)
        requires
            old(self)@.frames.len() > 0,
        ensures
            final(self)@ == scan_all(*facts, old(self)@, es@),
            final(self)@.frames.len() == old(self)@.frames.len(),
        decreases es, 0int,
    {
        assert(es@.skip(0) =~= es@);
        let mut i: usize = 0;
        while i < es.len()
            invariant
                0 <= i <= es@.len(),
                self@.frames.len() == old(self)@.frames.len(),
                self@.frames.len() > 0,
                scan_all(*facts, old(self)@, es@) == scan_all(*facts, self@, es@.skip(i as int)),
            decreases es.len() - i,
        {
            proof {
                assert(es@.skip(i as int).skip(1) =~= es@.skip(i + 1));
                assert(es@.skip(i as int)[0] == es@[i as int]);
                assert(decreases_to!(es => es@[i as int]));
            }
            self.scan(facts, &es[i]);
            i = i + 1;
        }
    }
}

/// A binding a block opens with: the name, whose storage it holds, and whether that storage was
/// built here.
pub type Bind = (Seq<char>, Option<usize>, bool);

/// The view of a list of bindings.
pub open spec fn view_binds(s: Seq<(String, Option<usize>, bool)>) -> Seq<Bind> {
    Seq::new(s.len(), |i: int| (s[i].0@, s[i].1, s[i].2))
}

/// Each binding declared in the innermost block, in order.
pub open spec fn declare_all(st: PassV, binds: Seq<Bind>) -> PassV
    decreases binds.len(),
{
    if binds.len() == 0 {
        st
    } else {
        let b = binds.last();
        with_declared(declare_all(st, binds.drop_last()), b.0, b.1, b.2)
    }
}

/// A new innermost block, opened with `binds`.
pub open spec fn opened(st: PassV, binds: Seq<Bind>) -> PassV {
    declare_all(
        PassV {
            frames: st.frames.push(FrameV { declared: Seq::empty(), leaks: false, allocates: false }),
            names: st.names,
        },
        binds,
    )
}

/// `m` with each of `names` unbound in turn.
pub open spec fn removed_all(m: Map<Seq<char>, Owned>, names: Seq<Seq<char>>) -> Map<Seq<char>, Owned>
    decreases names.len(),
{
    if names.len() == 0 {
        m
    } else {
        removed_all(m, names.drop_last()).remove(names.last())
    }
}

/// The innermost block closed: the names declared directly in it go out of scope, so two sibling
/// blocks that use the same name cannot inherit each other's answers.
pub open spec fn closed_block(st: PassV) -> PassV {
    PassV { frames: st.frames.drop_last(), names: removed_all(st.names, st.frames.last().declared) }
}

/// A store into `name`: if what is stored was built here, whoever owns `name`'s storage keeps
/// it, and no block inside them may release.
pub open spec fn stored(f: CallFacts, st: PassV, name: Seq<char>, value: TypedExpr) -> PassV {
    if allocates_in(f, st, value) {
        with_allocated(tainted(st, owner_in(st, name)), name)
    } else {
        st
    }
}

/// The state after the pass walks the expression parts of an interpolated string.
pub open spec fn scan_parts(f: CallFacts, st: PassV, parts: Seq<TypedInterpPart>) -> PassV
    decreases parts.len(),
{
    if parts.len() == 0 {
        st
    } else {
        let st1 = match parts[0] {
            TypedInterpPart::Expr(e) => scanned(f, st, e),
            TypedInterpPart::Lit(_) => st,
        };
        scan_parts(f, st1, parts.skip(1))
    }
}

/// The bindings a `match` arm opens its block with: each payload name, holding the storage the
/// matched value holds.
pub open spec fn arm_binds(bindings: Seq<(String, Type)>, owner: Option<usize>, allocated: bool) -> Seq<Bind> {
    Seq::new(bindings.len(), |i: int| (bindings[i].0@, owner, allocated))
}

/// The state after the pass walks one statement.
pub open spec fn stmt_state(f: CallFacts, st: PassV, s: TypedStmt) -> PassV
    decreases s, 0int,
{
    match s.kind {
        TypedStmtKind::Let { name, value, .. } => {
            let st1 = scanned(f, st, value);
            with_declared(st1, name@, place_owner_in(st1, value), allocates_in(f, st1, value))
        },
        TypedStmtKind::Assign { name, value } => {
            let st1 = scanned(f, st, value);
            let st2 = with_owner(st1, name@, shorter(owner_in(st1, name@), place_owner_in(st1, value)));
            stored(f, st2, name@, value)
        },
        TypedStmtKind::AssignField { name, value, .. } => stored(f, scanned(f, st, value), name@, value),
        TypedStmtKind::AssignFieldIndex { name, index, value, .. } =>
            stored(f, scanned(f, scanned(f, st, index), value), name@, value),
        TypedStmtKind::AssignIndex { name, index, value, .. } =>
            stored(f, scanned(f, scanned(f, st, index), value), name@, value),
        TypedStmtKind::ExprStmt(e) => scanned(f, st, e),
        TypedStmtKind::Exit(e) => scanned(f, st, e),
        TypedStmtKind::Print { value, .. } => scanned(f, st, value),
        TypedStmtKind::PrintInterp { parts, .. } => scan_parts(f, st, parts@),
        TypedStmtKind::Return(e) => {
            let st1 = scanned(f, st, e);
            if allocates_in(f, st1, e) { tainted(st1, None) } else { st1 }
        },
        TypedStmtKind::TailReturn { arguments, .. } => tainted(scan_all(f, st, arguments@), None),
        TypedStmtKind::Break => st,
        TypedStmtKind::Continue => st,
        TypedStmtKind::While { cond, body } => closed_block(block_inner(f, scanned(f, st, cond), body@, Seq::empty())),
        TypedStmtKind::If { cond, then_block, else_block } => {
            let st1 = scanned(f, st, cond);
            let st2 = closed_block(block_inner(f, st1, then_block@, Seq::empty()));
            match else_block {
                Some(b) => closed_block(block_inner(f, st2, b@, Seq::empty())),
                None => st2,
            }
        },
        TypedStmtKind::For { name, iterable, body, .. } => {
            let st1 = scanned(f, st, iterable);
            closed_block(block_inner(f, st1, body@,
                seq![(name@, place_owner_in(st1, iterable), allocates_in(f, st1, iterable))]))
        },
        TypedStmtKind::ForRange { name, start, end, body } => {
            let here = depth_of(st) as usize;
            let st1 = scanned(f, scanned(f, st, start), end);
            closed_block(block_inner(f, st1, body@, seq![(name@, Some(here), false)]))
        },
        TypedStmtKind::Match { value, arms } => {
            let st1 = scanned(f, st, value);
            arms_state(f, st1, arms@, place_owner_in(st1, value), allocates_in(f, st1, value))
        },
        TypedStmtKind::Region { body, .. } => closed_block(block_inner(f, st, body@, Seq::empty())),
        TypedStmtKind::Release { .. } => st,
    }
}

/// The state after the pass walks a list of statements in turn.
pub open spec fn walk_state(f: CallFacts, st: PassV, stmts: Seq<TypedStmt>) -> PassV
    decreases stmts, 0int,
{
    if stmts.len() == 0 {
        st
    } else {
        stmt_state(f, walk_state(f, st, stmts.drop_last()), stmts.last())
    }
}

/// The state just before a block closes: opened with `binds`, its statements walked.
pub open spec fn block_inner(f: CallFacts, st: PassV, stmts: Seq<TypedStmt>, binds: Seq<Bind>) -> PassV
    decreases stmts, 1int,
{
    walk_state(f, opened(st, binds), stmts)
}

/// The state after the pass walks the arms of a `match` in turn.
pub open spec fn arms_state(f: CallFacts, st: PassV, arms: Seq<TypedArm>, owner: Option<usize>, allocated: bool) -> PassV
    decreases arms, 0int,
{
    if arms.len() == 0 {
        st
    } else {
        let a = arms.last();
        closed_block(block_inner(f, arms_state(f, st, arms.drop_last(), owner, allocated), a.body@,
            arm_binds(a.bindings@, owner, allocated)))
    }
}

/// Where a `Release` is written: at the first statement it wraps, since that is where its code
/// goes; the start of the file for an empty body.
pub open spec fn first_span(body: Seq<TypedStmt>) -> Span {
    if body.len() > 0 { body[0].span } else { Span { start: 0, end: 0 } }
}

/// Whether a block is released: it may be, it built something, and nothing it built is
/// reachable after it ends.
pub open spec fn releases(f: CallFacts, st: PassV, stmts: Seq<TypedStmt>, may_release: bool, binds: Seq<Bind>) -> bool {
    let inner = block_inner(f, st, stmts, binds);
    may_release && inner.frames.last().allocates && !inner.frames.last().leaks
}

/// `r` is what the pass makes of statement `s`: the same statement at the same place, with each
/// block inside it made over as [`block_out`] says.
pub open spec fn stmt_out(f: CallFacts, st: PassV, s: TypedStmt, r: TypedStmt) -> bool
    decreases s, 0int,
{
    r.span == s.span && match s.kind {
        TypedStmtKind::While { cond, body } => {
            &&& r.kind matches TypedStmtKind::While { cond: c, body: b }
            &&& c == cond
            &&& block_out(f, scanned(f, st, cond), body@, true, Seq::empty(), b@)
        },
        TypedStmtKind::If { cond, then_block, else_block } => {
            let st1 = scanned(f, st, cond);
            let st2 = closed_block(block_inner(f, st1, then_block@, Seq::empty()));
            &&& r.kind matches TypedStmtKind::If { cond: c, then_block: t, else_block: e }
            &&& c == cond
            &&& block_out(f, st1, then_block@, true, Seq::empty(), t@)
            &&& match (else_block, e) {
                (Some(b), Some(b2)) => block_out(f, st2, b@, true, Seq::empty(), b2@),
                (None, None) => true,
                _ => false,
            }
        },
        TypedStmtKind::For { name, elem, iterable, body } => {
            let st1 = scanned(f, st, iterable);
            &&& r.kind matches TypedStmtKind::For { name: n, elem: t, iterable: i, body: b }
            &&& n == name && t == elem && i == iterable
            &&& block_out(f, st1, body@, true,
                seq![(name@, place_owner_in(st1, iterable), allocates_in(f, st1, iterable))], b@)
        },
        TypedStmtKind::ForRange { name, start, end, body } => {
            let here = depth_of(st) as usize;
            let st1 = scanned(f, scanned(f, st, start), end);
            &&& r.kind matches TypedStmtKind::ForRange { name: n, start: a, end: z, body: b }
            &&& n == name && a == start && z == end
            &&& block_out(f, st1, body@, true, seq![(name@, Some(here), false)], b@)
        },
        TypedStmtKind::Match { value, arms } => {
            let st1 = scanned(f, st, value);
            &&& r.kind matches TypedStmtKind::Match { value: v, arms: a }
            &&& v == value
            &&& arms_out(f, st1, arms@, place_owner_in(st1, value), allocates_in(f, st1, value), a@)
        },
        TypedStmtKind::Region { name, body } => {
            &&& r.kind matches TypedStmtKind::Region { name: n, body: b }
            &&& n == name
            &&& block_out(f, st, body@, false, Seq::empty(), b@)
        },
        _ => r.kind == s.kind,
    }
}

/// `out` is what the pass makes of a block: its statements made over in turn, wrapped in one
/// `Release` exactly when the block [`releases`].
pub open spec fn block_out(
    f: CallFacts,
    st: PassV,
    stmts: Seq<TypedStmt>,
    may_release: bool,
    binds: Seq<Bind>,
    out: Seq<TypedStmt>,
) -> bool
    decreases stmts, 1int,
{
    if releases(f, st, stmts, may_release, binds) {
        &&& out.len() == 1
        &&& out[0].kind matches TypedStmtKind::Release { body }
        &&& walk_out(f, opened(st, binds), stmts, body@)
        &&& out[0].span == first_span(body@)
    } else {
        walk_out(f, opened(st, binds), stmts, out)
    }
}

/// `outs` is what the pass makes of each statement in turn.
pub open spec fn walk_out(f: CallFacts, st: PassV, stmts: Seq<TypedStmt>, outs: Seq<TypedStmt>) -> bool
    decreases stmts, 0int,
{
    if stmts.len() == 0 {
        outs.len() == 0
    } else {
        &&& outs.len() == stmts.len()
        &&& walk_out(f, st, stmts.drop_last(), outs.drop_last())
        &&& stmt_out(f, walk_state(f, st, stmts.drop_last()), stmts.last(), outs.last())
    }
}

/// `outs` is what the pass makes of each arm of a `match` in turn: the same tag and bindings,
/// the body made over as a block that may release.
pub open spec fn arms_out(
    f: CallFacts,
    st: PassV,
    arms: Seq<TypedArm>,
    owner: Option<usize>,
    allocated: bool,
    outs: Seq<TypedArm>,
) -> bool
    decreases arms, 0int,
{
    if arms.len() == 0 {
        outs.len() == 0
    } else {
        let a = arms.last();
        let o = outs.last();
        &&& outs.len() == arms.len()
        &&& arms_out(f, st, arms.drop_last(), owner, allocated, outs.drop_last())
        &&& o.tag == a.tag
        &&& o.bindings == a.bindings
        &&& block_out(f, arms_state(f, st, arms.drop_last(), owner, allocated), a.body@, true,
            arm_binds(a.bindings@, owner, allocated), o.body@)
    }
}

impl ReleasePass {
    /// A store into `name`: see [`stored`].
    fn store(&mut self, facts: &CallFacts, name: &String, value: &TypedExpr)
        ensures
            final(self)@ == stored(*facts, old(self)@, name@, *value),
            final(self)@.frames.len() == old(self)@.frames.len(),
    {
        if self.allocates(facts, value) {
            let owner = self.owner_of(name);
            self.taint(owner);
            self.mark_allocated(name);
        }
    }

    /// Walks the expression parts of an interpolated string.
    fn scan_parts(&mut self, facts: &CallFacts, parts: &Vec<TypedInterpPart>)
        requires
            old(self)@.frames.len() > 0,
        ensures
            final(self)@ == scan_parts(*facts, old(self)@, parts@),
            final(self)@.frames.len() == old(self)@.frames.len(),
    {
        assert(parts@.skip(0) =~= parts@);
        let mut i: usize = 0;
        while i < parts.len()
            invariant
                0 <= i <= parts@.len(),
                self@.frames.len() == old(self)@.frames.len(),
                self@.frames.len() > 0,
                scan_parts(*facts, old(self)@, parts@) == scan_parts(*facts, self@, parts@.skip(i as int)),
            decreases parts.len() - i,
        {
            proof {
                assert(parts@.skip(i as int).skip(1) =~= parts@.skip(i + 1));
                assert(parts@.skip(i as int)[0] == parts@[i as int]);
            }
            match &parts[i] {
                TypedInterpPart::Expr(e) => self.scan(facts, e),
                TypedInterpPart::Lit(_) => {},
            }
            i = i + 1;
        }
    }

    /// Walks a list of statements in turn, making each over.
    fn walk(&mut self, facts: &CallFacts, stmts: Vec<TypedStmt>) -> (r: Vec<TypedStmt>)
        requires
            old(self)@.frames.len() > 0,
        ensures
            final(self)@ == walk_state(*facts, old(self)@, stmts@),
            walk_out(*facts, old(self)@, stmts@, r@),
            final(self)@.frames.len() == old(self)@.frames.len(),
        decreases stmts, 0int,
    {
        let ghost all = stmts@;
        let ghost whole = stmts;
        let mut rest = stmts;
        let n = rest.len();
        let mut out: Vec<TypedStmt> = Vec::new();
        let mut i: usize = 0;
        proof {
            assert(all.take(0) =~= Seq::<TypedStmt>::empty());
            assert(all.skip(0) =~= all);
        }
        while rest.len() > 0
            invariant
                0 <= i <= all.len(),
                whole == stmts,
                all == whole@,
                all.len() == n,
                rest@ == all.skip(i as int),
                out@.len() == i,
                self@.frames.len() == old(self)@.frames.len(),
                self@.frames.len() > 0,
                self@ == walk_state(*facts, old(self)@, all.take(i as int)),
                walk_out(*facts, old(self)@, all.take(i as int), out@),
            decreases rest.len(),
        {
            let s = rest.remove(0);
            proof {
                assert(s == all[i as int]);
                assert(decreases_to!(whole => whole@[i as int]));
                assert(rest@ =~= all.skip(i + 1));
            }
            let ghost before = self@;
            let r = self.stmt(facts, s);
            let ghost prev = out@;
            out.push(r);
            proof {
                let t = all.take(i + 1);
                assert(t.drop_last() =~= all.take(i as int));
                assert(t.last() == all[i as int]);
                assert(out@.drop_last() =~= prev);
                assert(out@.last() == r);
            }
            i = i + 1;
        }
        proof {
            assert(all.take(i as int) =~= all);
        }
        out
    }

    /// Walks the arms of a `match` in turn, each as a block opened with its payload names.
    fn walk_arms(&mut self, facts: &CallFacts, arms: Vec<TypedArm>, owner: Option<usize>, allocated: bool) -> (r: Vec<TypedArm>)
        requires
            old(self)@.frames.len() > 0,
        ensures
            final(self)@ == arms_state(*facts, old(self)@, arms@, owner, allocated),
            arms_out(*facts, old(self)@, arms@, owner, allocated, r@),
            final(self)@.frames.len() == old(self)@.frames.len(),
        decreases arms, 0int,
    {
        let ghost all = arms@;
        let ghost whole = arms;
        let mut rest = arms;
        let n = rest.len();
        let mut out: Vec<TypedArm> = Vec::new();
        let mut i: usize = 0;
        proof {
            assert(all.take(0) =~= Seq::<TypedArm>::empty());
            assert(all.skip(0) =~= all);
        }
        while rest.len() > 0
            invariant
                0 <= i <= all.len(),
                whole == arms,
                all == whole@,
                all.len() == n,
                rest@ == all.skip(i as int),
                out@.len() == i,
                self@.frames.len() == old(self)@.frames.len(),
                self@.frames.len() > 0,
                self@ == arms_state(*facts, old(self)@, all.take(i as int), owner, allocated),
                arms_out(*facts, old(self)@, all.take(i as int), owner, allocated, out@),
            decreases rest.len(),
        {
            let a = rest.remove(0);
            proof {
                assert(a == all[i as int]);
                assert(decreases_to!(whole => whole@[i as int]));
                assert(decreases_to!(whole@[i as int] => whole@[i as int].body));
                assert(rest@ =~= all.skip(i + 1));
            }
            let TypedArm { tag, bindings, body } = a;
            let binds = Self::arm_bindings(&bindings, owner, allocated);
            let body = self.block(facts, body, true, &binds);
            let ghost prev = out@;
            out.push(TypedArm { tag, bindings, body });
            proof {
                let t = all.take(i + 1);
                assert(t.drop_last() =~= all.take(i as int));
                assert(t.last() == all[i as int]);
                assert(out@.drop_last() =~= prev);
            }
            i = i + 1;
        }
        proof {
            assert(all.take(i as int) =~= all);
        }
        out
    }

    /// The bindings a `match` arm opens its block with: see [`arm_binds`].
    fn arm_bindings(bindings: &Vec<(String, Type)>, owner: Option<usize>, allocated: bool) -> (r: Vec<(String, Option<usize>, bool)>)
        ensures
            view_binds(r@) == arm_binds(bindings@, owner, allocated),
    {
        let mut binds: Vec<(String, Option<usize>, bool)> = Vec::new();
        let mut k: usize = 0;
        while k < bindings.len()
            invariant
                0 <= k <= bindings@.len(),
                binds@.len() == k,
                forall|j: int| 0 <= j < k ==> (#[trigger] binds@[j]).0@ == bindings@[j].0@ && binds@[j].1 == owner
                    && binds@[j].2 == allocated,
            decreases bindings.len() - k,
        {
            let name = bindings[k].0.clone();
            let ghost prev = binds@;
            binds.push((name, owner, allocated));
            assert forall|j: int| 0 <= j < k + 1 implies (#[trigger] binds@[j]).0@ == bindings@[j].0@
                && binds@[j].1 == owner && binds@[j].2 == allocated by {
                if j < k {
                    assert(binds@[j] == prev[j]);
                }
            }
            k = k + 1;
        }
        assert(view_binds(binds@) =~= arm_binds(bindings@, owner, allocated));
        binds
    }

    /// A block, opened with the bindings the enclosing construct gives it, walked, closed, and
    /// wrapped in a `Release` when it [`releases`].
    fn block(
        &mut self,
        facts: &CallFacts,
        stmts: Vec<TypedStmt>,
        may_release: bool,
        binds: &Vec<(String, Option<usize>, bool)>,
    ) -> (r: Vec<TypedStmt>)
        ensures
            final(self)@ == closed_block(block_inner(*facts, old(self)@, stmts@, view_binds(binds@))),
            block_out(*facts, old(self)@, stmts@, may_release, view_binds(binds@), r@),
            final(self)@.frames.len() == old(self)@.frames.len(),
        decreases stmts, 1int,
    {
        let ghost start = self@;
        self.frames.push(Frame { declared: Vec::new(), leaks: false, allocates: false });
        proof {
            assert(view_names(Seq::<String>::empty()) =~= Seq::<Seq<char>>::empty());
            assert(self@ == declare_all(
                PassV {
                    frames: start.frames.push(FrameV { declared: Seq::empty(), leaks: false, allocates: false }),
                    names: start.names,
                },
                view_binds(binds@).take(0),
            )) by {
                assert(self@.frames =~= start.frames.push(FrameV { declared: Seq::empty(), leaks: false, allocates: false }));
            }
        }
        let mut k: usize = 0;
        while k < binds.len()
            invariant
                0 <= k <= binds@.len(),
                self@.frames.len() == start.frames.len() + 1,
                self@ == declare_all(
                    PassV {
                        frames: start.frames.push(FrameV { declared: Seq::empty(), leaks: false, allocates: false }),
                        names: start.names,
                    },
                    view_binds(binds@).take(k as int),
                ),
            decreases binds.len() - k,
        {
            proof {
                let t = view_binds(binds@).take(k + 1);
                assert(t.drop_last() =~= view_binds(binds@).take(k as int));
            }
            self.declare(&binds[k].0, binds[k].1, binds[k].2);
            k = k + 1;
        }
        proof {
            assert(view_binds(binds@).take(k as int) =~= view_binds(binds@));
        }
        let body = self.walk(facts, stmts);
        let ghost inner = self@;
        let frame = match self.frames.pop() {
            Some(fr) => fr,
            None => Frame { declared: Vec::new(), leaks: false, allocates: false },
        };
        proof {
            assert(frame@ == inner.frames.last());
        }
        let mut j: usize = 0;
        while j < frame.declared.len()
            invariant
                0 <= j <= frame.declared@.len(),
                self@.frames == inner.frames.drop_last(),
                self@.names == removed_all(inner.names, view_names(frame.declared@).take(j as int)),
            decreases frame.declared.len() - j,
        {
            proof {
                let t = view_names(frame.declared@).take(j + 1);
                assert(t.drop_last() =~= view_names(frame.declared@).take(j as int));
            }
            self.names.remove(&frame.declared[j]);
            j = j + 1;
        }
        proof {
            assert(view_names(frame.declared@).take(j as int) =~= view_names(frame.declared@));
            assert(self@ == closed_block(inner));
        }
        if may_release && frame.allocates && !frame.leaks {
            let span = if body.len() > 0 { body[0].span } else { Span { start: 0, end: 0 } };
            let mut out: Vec<TypedStmt> = Vec::new();
            out.push(TypedStmt::new(TypedStmtKind::Release { body }, span));
            out
        } else {
            body
        }
    }

    /// Makes one statement over, keeping the place it was written at: see [`stmt_out`].
    fn stmt(&mut self, facts: &CallFacts, s: TypedStmt) -> (r: TypedStmt)
        requires
            old(self)@.frames.len() > 0,
        ensures
            final(self)@ == stmt_state(*facts, old(self)@, s),
            stmt_out(*facts, old(self)@, s, r),
            final(self)@.frames.len() == old(self)@.frames.len(),
        decreases s, 0int,
    {
        let here = self.depth();
        let span = s.span;
        let kind = match s.kind {
            TypedStmtKind::Let { name, ty, value } => {
                self.scan(facts, &value);
                let owner = self.place_owner(&value);
                let allocated = self.allocates(facts, &value);
                self.declare(&name, owner, allocated);
                TypedStmtKind::Let { name, ty, value }
            },
            TypedStmtKind::Assign { name, value } => {
                self.scan(facts, &value);
                let owner = Self::shorter(self.owner_of(&name), self.place_owner(&value));
                self.set_owner(&name, owner);
                self.store(facts, &name, &value);
                TypedStmtKind::Assign { name, value }
            },
            TypedStmtKind::AssignField { name, indices, value } => {
                self.scan(facts, &value);
                self.store(facts, &name, &value);
                TypedStmtKind::AssignField { name, indices, value }
            },
            TypedStmtKind::AssignFieldIndex { name, indices, len, index, value } => {
                self.scan(facts, &index);
                self.scan(facts, &value);
                self.store(facts, &name, &value);
                TypedStmtKind::AssignFieldIndex { name, indices, len, index, value }
            },
            TypedStmtKind::AssignIndex { name, len, index, value } => {
                self.scan(facts, &index);
                self.scan(facts, &value);
                self.store(facts, &name, &value);
                TypedStmtKind::AssignIndex { name, len, index, value }
            },
            TypedStmtKind::ExprStmt(e) => {
                self.scan(facts, &e);
                TypedStmtKind::ExprStmt(e)
            },
            TypedStmtKind::Exit(e) => {
                self.scan(facts, &e);
                TypedStmtKind::Exit(e)
            },
            TypedStmtKind::Print { value, to_stderr } => {
                self.scan(facts, &value);
                TypedStmtKind::Print { value, to_stderr }
            },
            TypedStmtKind::PrintInterp { parts, to_stderr } => {
                self.scan_parts(facts, &parts);
                TypedStmtKind::PrintInterp { parts, to_stderr }
            },
            TypedStmtKind::Return(e) => {
                self.scan(facts, &e);
                if self.allocates(facts, &e) {
                    self.taint(None);
                }
                TypedStmtKind::Return(e)
            },
            TypedStmtKind::TailReturn { name, arguments } => {
                self.scan_each(facts, &arguments);
                self.taint(None);
                TypedStmtKind::TailReturn { name, arguments }
            },
            TypedStmtKind::Break => TypedStmtKind::Break,
            TypedStmtKind::Continue => TypedStmtKind::Continue,
            TypedStmtKind::While { cond, body } => {
                self.scan(facts, &cond);
                let none: Vec<(String, Option<usize>, bool)> = Vec::new();
                proof { assert(view_binds(none@) =~= Seq::<Bind>::empty()); }
                let body = self.block(facts, body, true, &none);
                TypedStmtKind::While { cond, body }
            },
            TypedStmtKind::If { cond, then_block, else_block } => {
                self.scan(facts, &cond);
                let none: Vec<(String, Option<usize>, bool)> = Vec::new();
                proof { assert(view_binds(none@) =~= Seq::<Bind>::empty()); }
                let then_block = self.block(facts, then_block, true, &none);
                let else_block = match else_block {
                    Some(b) => Some(self.block(facts, b, true, &none)),
                    None => None,
                };
                TypedStmtKind::If { cond, then_block, else_block }
            },
            TypedStmtKind::For { name, elem, iterable, body } => {
                self.scan(facts, &iterable);
                let owner = self.place_owner(&iterable);
                let allocated = self.allocates(facts, &iterable);
                let mut binds: Vec<(String, Option<usize>, bool)> = Vec::new();
                binds.push((name.clone(), owner, allocated));
                proof { assert(view_binds(binds@) =~= seq![(name@, owner, allocated)]); }
                let body = self.block(facts, body, true, &binds);
                TypedStmtKind::For { name, elem, iterable, body }
            },
            TypedStmtKind::ForRange { name, start, end, body } => {
                self.scan(facts, &start);
                self.scan(facts, &end);
                let mut binds: Vec<(String, Option<usize>, bool)> = Vec::new();
                binds.push((name.clone(), Some(here), false));
                proof { assert(view_binds(binds@) =~= seq![(name@, Some(here), false)]); }
                let body = self.block(facts, body, true, &binds);
                TypedStmtKind::ForRange { name, start, end, body }
            },
            TypedStmtKind::Match { value, arms } => {
                self.scan(facts, &value);
                let owner = self.place_owner(&value);
                let allocated = self.allocates(facts, &value);
                let arms = self.walk_arms(facts, arms, owner, allocated);
                TypedStmtKind::Match { value, arms }
            },
            TypedStmtKind::Region { name, body } => {
                let none: Vec<(String, Option<usize>, bool)> = Vec::new();
                proof { assert(view_binds(none@) =~= Seq::<Bind>::empty()); }
                let body = self.block(facts, body, false, &none);
                TypedStmtKind::Region { name, body }
            },
            TypedStmtKind::Release { body } => TypedStmtKind::Release { body },
        };
        TypedStmt { kind, span }
    }
}

/// Places a `Release` on every block of a body that provably keeps nothing. `params` are the
/// names that arrived from outside: their storage is the caller's, so nothing this body does to
/// them may be released here. `may_release` is false for the top level, which has nothing after
/// it to release into, and true for a function or method body.
pub fn place_releases(facts: &CallFacts, params: &Vec<String>, body: Vec<TypedStmt>, may_release: bool) -> (r: Vec<TypedStmt>)
    ensures
        block_out(
            *facts,
            PassV { frames: Seq::empty(), names: Map::empty() },
            body@,
            may_release,
            Seq::new(params@.len(), |i: int| (params@[i]@, None::<usize>, false)),
            r@,
        ),
        kept_block(body@, r@),
        !may_release ==> kept_all(body@, r@),
{
    let mut pass = ReleasePass { frames: Vec::new(), names: NameMap::new() };
    let mut binds: Vec<(String, Option<usize>, bool)> = Vec::new();
    let mut k: usize = 0;
    while k < params.len()
        invariant
            0 <= k <= params@.len(),
            binds@.len() == k,
            forall|j: int| 0 <= j < k ==> #[trigger] binds@[j].0@ == params@[j]@ && binds@[j].1 is None
                && !binds@[j].2,
        decreases params.len() - k,
    {
        binds.push((params[k].clone(), None, false));
        k = k + 1;
    }
    proof {
        assert(view_binds(binds@) =~= Seq::new(params@.len(), |i: int| (params@[i]@, None::<usize>, false)));
        assert(pass@ == PassV { frames: Seq::empty(), names: Map::empty() }) by {
            assert(pass@.frames =~= Seq::<FrameV>::empty());
        }
    }
    let r = pass.block(facts, body, may_release, &binds);
    proof {
        lemma_only_wraps(*facts, PassV { frames: Seq::empty(), names: Map::empty() }, body@, may_release,
            Seq::new(params@.len(), |i: int| (params@[i]@, None::<usize>, false)), r@);
    }
    r
}

/// `r` is `s` with some of the blocks inside it, none or all, wrapped in a `Release`: the same
/// statement at the same place, everything else unchanged.
pub open spec fn kept_stmt(s: TypedStmt, r: TypedStmt) -> bool
    decreases s, 0int,
{
    r.span == s.span && match s.kind {
        TypedStmtKind::While { cond, body } => {
            &&& r.kind matches TypedStmtKind::While { cond: c, body: b }
            &&& c == cond
            &&& kept_block(body@, b@)
        },
        TypedStmtKind::If { cond, then_block, else_block } => {
            &&& r.kind matches TypedStmtKind::If { cond: c, then_block: t, else_block: e }
            &&& c == cond
            &&& kept_block(then_block@, t@)
            &&& match (else_block, e) {
                (Some(b), Some(b2)) => kept_block(b@, b2@),
                (None, None) => true,
                _ => false,
            }
        },
        TypedStmtKind::For { name, elem, iterable, body } => {
            &&& r.kind matches TypedStmtKind::For { name: n, elem: t, iterable: i, body: b }
            &&& n == name && t == elem && i == iterable
            &&& kept_block(body@, b@)
        },
        TypedStmtKind::ForRange { name, start, end, body } => {
            &&& r.kind matches TypedStmtKind::ForRange { name: n, start: a, end: z, body: b }
            &&& n == name && a == start && z == end
            &&& kept_block(body@, b@)
        },
        TypedStmtKind::Match { value, arms } => {
            &&& r.kind matches TypedStmtKind::Match { value: v, arms: a }
            &&& v == value
            &&& kept_arms(arms@, a@)
        },
        TypedStmtKind::Region { name, body } => {
            &&& r.kind matches TypedStmtKind::Region { name: n, body: b }
            &&& n == name
            &&& kept_block(body@, b@)
        },
        _ => r.kind == s.kind,
    }
}

/// `out` is the block `stmts`, each statement kept, and the whole perhaps wrapped in one
/// `Release`.
pub open spec fn kept_block(stmts: Seq<TypedStmt>, out: Seq<TypedStmt>) -> bool
    decreases stmts, 1int,
{
    ||| kept_all(stmts, out)
    ||| {
        &&& out.len() == 1
        &&& out[0].kind matches TypedStmtKind::Release { body }
        &&& kept_all(stmts, body@)
    }
}

/// Each statement of `outs` keeps the statement of `stmts` at its index.
pub open spec fn kept_all(stmts: Seq<TypedStmt>, outs: Seq<TypedStmt>) -> bool
    decreases stmts, 0int,
{
    if stmts.len() == 0 {
        outs.len() == 0
    } else {
        &&& outs.len() == stmts.len()
        &&& kept_all(stmts.drop_last(), outs.drop_last())
        &&& kept_stmt(stmts.last(), outs.last())
    }
}

/// Each arm of `outs` keeps the arm of `arms` at its index: the same tag and bindings, the body
/// kept as a block.
pub open spec fn kept_arms(arms: Seq<TypedArm>, outs: Seq<TypedArm>) -> bool
    decreases arms, 0int,
{
    if arms.len() == 0 {
        outs.len() == 0
    } else {
        &&& outs.len() == arms.len()
        &&& kept_arms(arms.drop_last(), outs.drop_last())
        &&& outs.last().tag == arms.last().tag
        &&& outs.last().bindings == arms.last().bindings
        &&& kept_block(arms.last().body@, outs.last().body@)
    }
}

/// What the pass makes of a statement keeps it: see [`lemma_only_wraps`].
pub proof fn lemma_stmt_kept(f: CallFacts, st: PassV, s: TypedStmt, r: TypedStmt)
    requires
        stmt_out(f, st, s, r),
    ensures
        kept_stmt(s, r),
    decreases s, 0int,
{
    match s.kind {
        TypedStmtKind::While { cond, body } => {
            let b = r.kind->While_body;
            lemma_block_kept(f, scanned(f, st, cond), body@, true, Seq::empty(), b@);
        },
        TypedStmtKind::If { cond, then_block, else_block } => {
            let st1 = scanned(f, st, cond);
            let st2 = closed_block(block_inner(f, st1, then_block@, Seq::empty()));
            lemma_block_kept(f, st1, then_block@, true, Seq::empty(), r.kind->If_then_block@);
            match (else_block, r.kind->If_else_block) {
                (Some(b), Some(b2)) => { lemma_block_kept(f, st2, b@, true, Seq::empty(), b2@); },
                _ => {},
            }
        },
        TypedStmtKind::For { name, iterable, body, .. } => {
            let st1 = scanned(f, st, iterable);
            lemma_block_kept(f, st1, body@, true,
                seq![(name@, place_owner_in(st1, iterable), allocates_in(f, st1, iterable))], r.kind->For_body@);
        },
        TypedStmtKind::ForRange { name, start, end, body } => {
            let here = depth_of(st) as usize;
            let st1 = scanned(f, scanned(f, st, start), end);
            lemma_block_kept(f, st1, body@, true, seq![(name@, Some(here), false)], r.kind->ForRange_body@);
        },
        TypedStmtKind::Match { value, arms } => {
            let st1 = scanned(f, st, value);
            lemma_arms_kept(f, st1, arms@, place_owner_in(st1, value), allocates_in(f, st1, value), r.kind->Match_arms@);
        },
        TypedStmtKind::Region { body, .. } => {
            lemma_block_kept(f, st, body@, false, Seq::empty(), r.kind->Region_body@);
        },
        _ => {},
    }
}

/// What the pass makes of a block keeps it.
pub proof fn lemma_block_kept(
    f: CallFacts,
    st: PassV,
    stmts: Seq<TypedStmt>,
    may_release: bool,
    binds: Seq<Bind>,
    out: Seq<TypedStmt>,
)
    requires
        block_out(f, st, stmts, may_release, binds, out),
    ensures
        kept_block(stmts, out),
    decreases stmts, 1int,
{
    if releases(f, st, stmts, may_release, binds) {
        lemma_walk_kept(f, opened(st, binds), stmts, out[0].kind->Release_body@);
    } else {
        lemma_walk_kept(f, opened(st, binds), stmts, out);
    }
}

/// What the pass makes of a list of statements keeps each one.
pub proof fn lemma_walk_kept(f: CallFacts, st: PassV, stmts: Seq<TypedStmt>, outs: Seq<TypedStmt>)
    requires
        walk_out(f, st, stmts, outs),
    ensures
        kept_all(stmts, outs),
    decreases stmts, 0int,
{
    if stmts.len() > 0 {
        lemma_walk_kept(f, st, stmts.drop_last(), outs.drop_last());
        lemma_stmt_kept(f, walk_state(f, st, stmts.drop_last()), stmts.last(), outs.last());
    }
}

/// What the pass makes of the arms of a `match` keeps each one.
pub proof fn lemma_arms_kept(
    f: CallFacts,
    st: PassV,
    arms: Seq<TypedArm>,
    owner: Option<usize>,
    allocated: bool,
    outs: Seq<TypedArm>,
)
    requires
        arms_out(f, st, arms, owner, allocated, outs),
    ensures
        kept_arms(arms, outs),
    decreases arms, 0int,
{
    if arms.len() > 0 {
        let a = arms.last();
        lemma_arms_kept(f, st, arms.drop_last(), owner, allocated, outs.drop_last());
        lemma_block_kept(f, arms_state(f, st, arms.drop_last(), owner, allocated), a.body@, true,
            arm_binds(a.bindings@, owner, allocated), outs.last().body@);
    }
}

/// The pass refuses nothing and rewrites nothing: what it hands back is the body it was given,
/// with some of its blocks (none, or all) wrapped in a `Release`. So which programs compile, and
/// what each statement does, does not depend on it.
pub proof fn lemma_only_wraps(
    f: CallFacts,
    st: PassV,
    stmts: Seq<TypedStmt>,
    may_release: bool,
    binds: Seq<Bind>,
    out: Seq<TypedStmt>,
)
    requires
        block_out(f, st, stmts, may_release, binds, out),
    ensures
        kept_block(stmts, out),
        !may_release ==> kept_all(stmts, out),
{
    lemma_block_kept(f, st, stmts, may_release, binds, out);
    if !may_release {
        lemma_walk_kept(f, opened(st, binds), stmts, out);
    }
}

/// `st2` has the same blocks open as `st`, and every block that could no longer release in `st`
/// still cannot in `st2`.
pub open spec fn grows(st: PassV, st2: PassV) -> bool {
    &&& st2.frames.len() == st.frames.len()
    &&& forall|j: int| 0 <= j < st.frames.len() && #[trigger] st.frames[j].leaks ==> st2.frames[j].leaks
}

proof fn lemma_grows_trans(a: PassV, b: PassV, c: PassV)
    requires
        grows(a, b),
        grows(b, c),
    ensures
        grows(a, c),
{
    assert forall|j: int| 0 <= j < a.frames.len() && #[trigger] a.frames[j].leaks implies c.frames[j].leaks by {
        assert(b.frames[j].leaks);
    }
}

proof fn lemma_written_grows(st: PassV, place: TypedExpr)
    ensures
        grows(st, written_place(st, place)),
{
}

proof fn lemma_taint_args_grows(st: PassV, es: Seq<TypedExpr>, w: Seq<bool>, i: int)
    ensures
        grows(st, taint_args(st, es, w, i)),
    decreases es.len(),
{
    if es.len() > 0 {
        let st1 = if writes(w, i) { written_place(st, es[0]) } else { st };
        lemma_taint_args_grows(st1, es.skip(1), w, i + 1);
        lemma_grows_trans(st, st1, taint_args(st1, es.skip(1), w, i + 1));
    }
}

proof fn lemma_scanned_grows(f: CallFacts, st: PassV, e: TypedExpr)
    ensures
        grows(st, scanned(f, st, e)),
    decreases e, 2int,
{
    let st1 = if allocates_in(f, st, e) { all_allocating(st) } else { st };
    assert(grows(st, st1));
    match e.kind {
        TypedExprKind::Push { place, value } => {
            let st2 = all_allocating(written_place(st1, *place));
            let st3 = scanned(f, st2, *place);
            lemma_scanned_grows(f, st2, *place);
            lemma_scanned_grows(f, st3, *value);
            lemma_grows_trans(st, st1, st2);
            lemma_grows_trans(st, st2, st3);
            lemma_grows_trans(st, st3, scanned(f, st3, *value));
        },
        TypedExprKind::Call { name, arguments } => {
            let st2 = if listed(f.extern_names@, name@) {
                tainted(st1, None)
            } else {
                match fn_flags(f, name@) {
                    Some(w) => taint_args(st1, arguments@, w, 0),
                    None => tainted(st1, None),
                }
            };
            match fn_flags(f, name@) {
                Some(w) => lemma_taint_args_grows(st1, arguments@, w, 0),
                None => {},
            }
            lemma_grows_trans(st, st1, st2);
            lemma_scan_all_grows(f, st2, arguments@);
            lemma_grows_trans(st, st2, scan_all(f, st2, arguments@));
        },
        TypedExprKind::MethodCall { receiver, method, receiver_mut, base, arguments } => {
            let st2 = if receiver_mut { written_place(st1, *base) } else { st1 };
            let st3 = match method_flags(f.method_writable@, receiver@, method@) {
                Some(w) => taint_args(st2, arguments@, w, 0),
                None => tainted(st2, None),
            };
            match method_flags(f.method_writable@, receiver@, method@) {
                Some(w) => lemma_taint_args_grows(st2, arguments@, w, 0),
                None => {},
            }
            let st4 = scanned(f, st3, *base);
            lemma_scanned_grows(f, st3, *base);
            lemma_scan_all_grows(f, st4, arguments@);
            lemma_grows_trans(st, st1, st2);
            lemma_grows_trans(st, st2, st3);
            lemma_grows_trans(st, st3, st4);
            lemma_grows_trans(st, st4, scan_all(f, st4, arguments@));
        },
        TypedExprKind::DynCall { interface_name, method, base, arguments, .. } => {
            let st3 = match interface_sig(f, interface_name@, method@) {
                Some(sig) => {
                    let st2 = if sig.receiver_mut { written_place(st1, *base) } else { st1 };
                    lemma_taint_args_grows(st2, arguments@, sig.writable, 0);
                    lemma_grows_trans(st1, st2, taint_args(st2, arguments@, sig.writable, 0));
                    taint_args(st2, arguments@, sig.writable, 0)
                },
                None => tainted(st1, None),
            };
            let st4 = scanned(f, st3, *base);
            lemma_scanned_grows(f, st3, *base);
            lemma_scan_all_grows(f, st4, arguments@);
            lemma_grows_trans(st, st1, st3);
            lemma_grows_trans(st, st3, st4);
            lemma_grows_trans(st, st4, scan_all(f, st4, arguments@));
        },
        TypedExprKind::Try { value, .. } => {
            let st2 = tainted(st1, None);
            lemma_scanned_grows(f, st2, *value);
            lemma_grows_trans(st, st1, st2);
            lemma_grows_trans(st, st2, scanned(f, st2, *value));
        },
        _ => {
            lemma_scan_children_grows(f, st1, e);
            lemma_grows_trans(st, st1, scan_children(f, st1, e));
        },
    }
}

proof fn lemma_scan_children_grows(f: CallFacts, st: PassV, e: TypedExpr)
    ensures
        grows(st, scan_children(f, st, e)),
    decreases e, 1int,
{
    match e.kind {
        TypedExprKind::Hold { value: i, .. } | TypedExprKind::Held { handle: i, .. }
        | TypedExprKind::Neg(i) | TypedExprKind::Not(i) | TypedExprKind::Arg(i) | TypedExprKind::ReadFile(i)
        | TypedExprKind::CIsNull(i) | TypedExprKind::CStringAt(i) | TypedExprKind::ByteAsString(i)
        | TypedExprKind::ToString(i) | TypedExprKind::Hash(i) | TypedExprKind::StrLen(i)
        | TypedExprKind::SliceLen(i) | TypedExprKind::Field { base: i, .. }
        | TypedExprKind::Try { value: i, .. } => {
            lemma_scanned_grows(f, st, *i);
        },
        TypedExprKind::Truncate { place: a, length: b } | TypedExprKind::WriteFile { path: a, contents: b }
        | TypedExprKind::WriteBytes { path: a, buffer: b } | TypedExprKind::CBytesAt { pointer: a, count: b }
        | TypedExprKind::CBytesTo { pointer: a, bytes: b } | TypedExprKind::ByteAt { s: a, index: b }
        | TypedExprKind::IntDiv { lhs: a, rhs: b, .. } | TypedExprKind::Logical { lhs: a, rhs: b, .. }
        | TypedExprKind::Binary { lhs: a, rhs: b, .. } | TypedExprKind::Compare { lhs: a, rhs: b, .. }
        | TypedExprKind::Push { place: a, value: b } | TypedExprKind::SliceIndex { base: a, index: b }
        | TypedExprKind::Index { base: a, index: b, .. } => {
            let st1 = scanned(f, st, *a);
            lemma_scanned_grows(f, st, *a);
            lemma_scanned_grows(f, st1, *b);
            lemma_grows_trans(st, st1, scanned(f, st1, *b));
        },
        TypedExprKind::Substring { source, at, len } => {
            let st1 = scanned(f, st, *source);
            let st2 = scanned(f, st1, *at);
            lemma_scanned_grows(f, st, *source);
            lemma_scanned_grows(f, st1, *at);
            lemma_scanned_grows(f, st2, *len);
            lemma_grows_trans(st, st1, st2);
            lemma_grows_trans(st, st2, scanned(f, st2, *len));
        },
        TypedExprKind::Bit { lhs, rhs, .. } => {
            let st1 = scanned(f, st, *lhs);
            lemma_scanned_grows(f, st, *lhs);
            match rhs {
                Some(r) => {
                    lemma_scanned_grows(f, st1, *r);
                    lemma_grows_trans(st, st1, scanned(f, st1, *r));
                },
                None => {},
            }
        },
        TypedExprKind::Call { arguments, .. } | TypedExprKind::VariantLit { arguments, .. }
        | TypedExprKind::StructLit { fields: arguments, .. } | TypedExprKind::ArrayLit(arguments)
        | TypedExprKind::SliceLit(arguments) => {
            lemma_scan_all_grows(f, st, arguments@);
        },
        TypedExprKind::MethodCall { base, arguments, .. } | TypedExprKind::DynCall { base, arguments, .. } => {
            let st1 = scanned(f, st, *base);
            lemma_scanned_grows(f, st, *base);
            lemma_scan_all_grows(f, st1, arguments@);
            lemma_grows_trans(st, st1, scan_all(f, st1, arguments@));
        },
        _ => {},
    }
}

proof fn lemma_scan_all_grows(f: CallFacts, st: PassV, es: Seq<TypedExpr>)
    ensures
        grows(st, scan_all(f, st, es)),
    decreases es, 0int,
{
    if es.len() > 0 {
        let st1 = scanned(f, st, es[0]);
        lemma_scanned_grows(f, st, es[0]);
        lemma_scan_all_grows(f, st1, es.skip(1));
        lemma_grows_trans(st, st1, scan_all(f, st1, es.skip(1)));
    }
}

proof fn lemma_declare_all_keeps(st: PassV, binds: Seq<Bind>)
    ensures
        declare_all(st, binds).frames.len() == st.frames.len(),
        forall|j: int| 0 <= j < st.frames.len() ==> #[trigger] declare_all(st, binds).frames[j].leaks == st.frames[j].leaks,
    decreases binds.len(),
{
    if binds.len() > 0 {
        lemma_declare_all_keeps(st, binds.drop_last());
    }
}

proof fn lemma_scan_parts_grows(f: CallFacts, st: PassV, parts: Seq<TypedInterpPart>)
    ensures
        grows(st, scan_parts(f, st, parts)),
    decreases parts.len(),
{
    if parts.len() > 0 {
        let st1 = match parts[0] {
            TypedInterpPart::Expr(e) => {
                lemma_scanned_grows(f, st, e);
                scanned(f, st, e)
            },
            TypedInterpPart::Lit(_) => st,
        };
        lemma_scan_parts_grows(f, st1, parts.skip(1));
        lemma_grows_trans(st, st1, scan_parts(f, st1, parts.skip(1)));
    }
}

proof fn lemma_stored_grows(f: CallFacts, st: PassV, name: Seq<char>, value: TypedExpr)
    ensures
        grows(st, stored(f, st, name, value)),
{
}

proof fn lemma_stmt_grows(f: CallFacts, st: PassV, s: TypedStmt)
    ensures
        grows(st, stmt_state(f, st, s)),
    decreases s, 0int,
{
    match s.kind {
        TypedStmtKind::Let { name, value, .. } => {
            let st1 = scanned(f, st, value);
            lemma_scanned_grows(f, st, value);
            lemma_grows_trans(st, st1, stmt_state(f, st, s));
        },
        TypedStmtKind::Assign { name, value } => {
            let st1 = scanned(f, st, value);
            let st2 = with_owner(st1, name@, shorter(owner_in(st1, name@), place_owner_in(st1, value)));
            lemma_scanned_grows(f, st, value);
            lemma_stored_grows(f, st2, name@, value);
            lemma_grows_trans(st, st1, st2);
            lemma_grows_trans(st, st2, stored(f, st2, name@, value));
        },
        TypedStmtKind::AssignField { name, value, .. } => {
            let st1 = scanned(f, st, value);
            lemma_scanned_grows(f, st, value);
            lemma_stored_grows(f, st1, name@, value);
            lemma_grows_trans(st, st1, stored(f, st1, name@, value));
        },
        TypedStmtKind::AssignFieldIndex { name, index, value, .. } | TypedStmtKind::AssignIndex { name, index, value, .. } => {
            let st1 = scanned(f, st, index);
            let st2 = scanned(f, st1, value);
            lemma_scanned_grows(f, st, index);
            lemma_scanned_grows(f, st1, value);
            lemma_stored_grows(f, st2, name@, value);
            lemma_grows_trans(st, st1, st2);
            lemma_grows_trans(st, st2, stored(f, st2, name@, value));
        },
        TypedStmtKind::ExprStmt(e) | TypedStmtKind::Exit(e) | TypedStmtKind::Print { value: e, .. } => {
            lemma_scanned_grows(f, st, e);
        },
        TypedStmtKind::PrintInterp { parts, .. } => {
            lemma_scan_parts_grows(f, st, parts@);
        },
        TypedStmtKind::Return(e) => {
            let st1 = scanned(f, st, e);
            lemma_scanned_grows(f, st, e);
            lemma_grows_trans(st, st1, stmt_state(f, st, s));
        },
        TypedStmtKind::TailReturn { arguments, .. } => {
            let st1 = scan_all(f, st, arguments@);
            lemma_scan_all_grows(f, st, arguments@);
            lemma_grows_trans(st, st1, tainted(st1, None));
        },
        TypedStmtKind::While { cond, body } => {
            let st1 = scanned(f, st, cond);
            lemma_scanned_grows(f, st, cond);
            lemma_block_grows(f, st1, body@, Seq::empty());
            lemma_grows_trans(st, st1, stmt_state(f, st, s));
        },
        TypedStmtKind::If { cond, then_block, else_block } => {
            let st1 = scanned(f, st, cond);
            let st2 = closed_block(block_inner(f, st1, then_block@, Seq::empty()));
            lemma_scanned_grows(f, st, cond);
            lemma_block_grows(f, st1, then_block@, Seq::empty());
            lemma_grows_trans(st, st1, st2);
            match else_block {
                Some(b) => {
                    lemma_block_grows(f, st2, b@, Seq::empty());
                    lemma_grows_trans(st, st2, closed_block(block_inner(f, st2, b@, Seq::empty())));
                },
                None => {},
            }
        },
        TypedStmtKind::For { name, iterable, body, .. } => {
            let st1 = scanned(f, st, iterable);
            lemma_scanned_grows(f, st, iterable);
            lemma_block_grows(f, st1, body@,
                seq![(name@, place_owner_in(st1, iterable), allocates_in(f, st1, iterable))]);
            lemma_grows_trans(st, st1, stmt_state(f, st, s));
        },
        TypedStmtKind::ForRange { name, start, end, body } => {
            let here = depth_of(st) as usize;
            let st0 = scanned(f, st, start);
            let st1 = scanned(f, st0, end);
            lemma_scanned_grows(f, st, start);
            lemma_scanned_grows(f, st0, end);
            lemma_grows_trans(st, st0, st1);
            lemma_block_grows(f, st1, body@, seq![(name@, Some(here), false)]);
            lemma_grows_trans(st, st1, stmt_state(f, st, s));
        },
        TypedStmtKind::Match { value, arms } => {
            let st1 = scanned(f, st, value);
            lemma_scanned_grows(f, st, value);
            lemma_arms_grows(f, st1, arms@, place_owner_in(st1, value), allocates_in(f, st1, value));
            lemma_grows_trans(st, st1, stmt_state(f, st, s));
        },
        TypedStmtKind::Region { body, .. } => {
            lemma_block_grows(f, st, body@, Seq::empty());
        },
        _ => {},
    }
}

/// Walking statements only adds to what stops a block from releasing: every block open before
/// the walk is still open after it, and one that could no longer release still cannot. So once
/// something a block built has escaped, nothing later in the block makes it releasable again.
pub proof fn lemma_walk_grows(f: CallFacts, st: PassV, stmts: Seq<TypedStmt>)
    ensures
        grows(st, walk_state(f, st, stmts)),
    decreases stmts, 0int,
{
    if stmts.len() > 0 {
        let st1 = walk_state(f, st, stmts.drop_last());
        lemma_walk_grows(f, st, stmts.drop_last());
        lemma_stmt_grows(f, st1, stmts.last());
        lemma_grows_trans(st, st1, stmt_state(f, st1, stmts.last()));
    }
}

proof fn lemma_block_grows(f: CallFacts, st: PassV, stmts: Seq<TypedStmt>, binds: Seq<Bind>)
    ensures
        grows(st, closed_block(block_inner(f, st, stmts, binds))),
    decreases stmts, 1int,
{
    let pushed = PassV {
        frames: st.frames.push(FrameV { declared: Seq::empty(), leaks: false, allocates: false }),
        names: st.names,
    };
    let o = opened(st, binds);
    lemma_declare_all_keeps(pushed, binds);
    lemma_walk_grows(f, o, stmts);
    let w = walk_state(f, o, stmts);
    assert forall|j: int| 0 <= j < st.frames.len() && #[trigger] st.frames[j].leaks
        implies closed_block(w).frames[j].leaks by {
        assert(pushed.frames[j] == st.frames[j]);
        assert(o.frames[j].leaks);
    }
}

proof fn lemma_arms_grows(f: CallFacts, st: PassV, arms: Seq<TypedArm>, owner: Option<usize>, allocated: bool)
    ensures
        grows(st, arms_state(f, st, arms, owner, allocated)),
    decreases arms, 0int,
{
    if arms.len() > 0 {
        let a = arms.last();
        let st1 = arms_state(f, st, arms.drop_last(), owner, allocated);
        lemma_arms_grows(f, st, arms.drop_last(), owner, allocated);
        lemma_block_grows(f, st1, a.body@, arm_binds(a.bindings@, owner, allocated));
        lemma_grows_trans(st, st1, arms_state(f, st, arms, owner, allocated));
    }
}

proof fn lemma_walk_split(f: CallFacts, st: PassV, a: Seq<TypedStmt>, b: Seq<TypedStmt>)
    ensures
        walk_state(f, st, a + b) == walk_state(f, walk_state(f, st, a), b),
    decreases b.len(),
{
    if b.len() == 0 {
        assert(a + b =~= a);
    } else {
        assert((a + b).drop_last() =~= a + b.drop_last());
        assert((a + b).last() == b.last());
        lemma_walk_split(f, st, a, b.drop_last());
    }
}

/// A block with a guaranteed tail call directly in it is never released: the tail call must sit
/// immediately before the return, and a release would come in between.
pub proof fn lemma_tail_call_blocks_release(
    f: CallFacts,
    st: PassV,
    stmts: Seq<TypedStmt>,
    may_release: bool,
    binds: Seq<Bind>,
    i: int,
)
    requires
        0 <= i < stmts.len(),
        stmts[i].kind is TailReturn,
    ensures
        !releases(f, st, stmts, may_release, binds),
{
    let pushed = PassV {
        frames: st.frames.push(FrameV { declared: Seq::empty(), leaks: false, allocates: false }),
        names: st.names,
    };
    let o = opened(st, binds);
    lemma_declare_all_keeps(pushed, binds);
    let before = stmts.take(i);
    let upto = stmts.take(i + 1);
    let after = stmts.skip(i + 1);
    assert(upto + after =~= stmts);
    assert(upto.drop_last() =~= before);
    lemma_walk_split(f, o, upto, after);
    lemma_walk_grows(f, o, before);
    let s1 = walk_state(f, o, before);
    let s2 = walk_state(f, o, upto);
    assert(s2 == stmt_state(f, s1, stmts[i]));
    let args = stmts[i].kind->TailReturn_arguments;
    lemma_scan_all_grows(f, s1, args@);
    let last = st.frames.len() as int;
    assert(s2.frames[last].leaks);
    lemma_walk_grows(f, s2, after);
    assert(walk_state(f, s2, after).frames[last].leaks);
}

/// A `?` or a call into C taints every open block: after the pass walks `x?`, or a call to an
/// external function, no block open at that point may release, because the early exit or the C
/// callee may keep storage built there. Walking only adds to this (see [`lemma_walk_grows`]), so
/// it holds however deep in an expression the exit sits.
pub proof fn lemma_exits_taint_every_block(f: CallFacts, st: PassV, e: TypedExpr)
    requires
        e.kind is Try || (e.kind matches TypedExprKind::Call { name, .. } && listed(f.extern_names@, name@)),
    ensures
        scanned(f, st, e).frames.len() == st.frames.len(),
        forall|j: int| 0 <= j < st.frames.len() ==> (#[trigger] scanned(f, st, e).frames[j]).leaks,
{
    let st1 = if allocates_in(f, st, e) { all_allocating(st) } else { st };
    let st2 = tainted(st1, None);
    assert(forall|j: int| 0 <= j < st2.frames.len() ==> #[trigger] st2.frames[j].leaks);
    match e.kind {
        TypedExprKind::Try { value, .. } => {
            lemma_scanned_grows(f, st2, *value);
            let fin = scanned(f, st2, *value);
            assert(fin == scanned(f, st, e));
            assert forall|j: int| 0 <= j < st.frames.len() implies (#[trigger] fin.frames[j]).leaks by {
                assert(st2.frames[j].leaks);
            }
        },
        TypedExprKind::Call { name, arguments } => {
            lemma_scan_all_grows(f, st2, arguments@);
            let fin = scan_all(f, st2, arguments@);
            assert(fin == scanned(f, st, e));
            assert forall|j: int| 0 <= j < st.frames.len() implies (#[trigger] fin.frames[j]).leaks by {
                assert(st2.frames[j].leaks);
            }
        },
        _ => {},
    }
}

/// A value whose type cannot hold region storage never counts as built in a region, whatever it
/// was computed from, even a call to a function that allocates: there is nothing in it to escape.
pub proof fn lemma_storage_free_never_allocates(f: CallFacts, st: PassV, e: TypedExpr)
    requires
        !holds_storage(f.layouts@, e.ty@, Seq::empty(), fuel_for(f.layouts)),
    ensures
        !allocates_in(f, st, e),
{
}

} // verus!
