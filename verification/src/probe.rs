//! What a probing pass records about the body it checks: a pass over each body that refuses
//! nothing and notes what the body does with the storage it was handed, so that the facts about
//! calls can be worked out from the bodies rather than declared.
use vstd::prelude::*;
use crate::names::NameMap;
use crate::relay::{Position, lemma_index_listed_push};
use crate::release::{index_listed, listed, pair_listed};
use crate::text::same_text;

verus! {

proof fn lemma_pair_listed_push(s: Seq<(String, String)>, x: (String, String), a: Seq<char>, b: Seq<char>)
    ensures
        pair_listed(s.push(x), a, b) == (pair_listed(s, a, b) || (x.0@ == a && x.1@ == b)),
{
    if pair_listed(s, a, b) {
        let i = choose|i: int| 0 <= i < s.len() && (#[trigger] s[i]).0@ == a && s[i].1@ == b;
        assert(s.push(x)[i] == s[i]);
    }
    if x.0@ == a && x.1@ == b {
        assert(s.push(x)[s.len() as int] == x);
    }
    if pair_listed(s.push(x), a, b) {
        let i = choose|i: int| 0 <= i < s.push(x).len() && (#[trigger] s.push(x)[i]).0@ == a && s.push(x)[i].1@ == b;
        if i < s.len() {
            assert(s.push(x)[i] == s[i]);
        }
    }
}

/// Whether growing a place rooted at `root` records a method growing its receiver: only while
/// probing, only inside a method (`name` non-empty, `receiver` non-empty) whose receiver is
/// `mutable`, and only when the root is `self`.
pub open spec fn grows_receiver(probing: bool, receiver: Seq<char>, name: Seq<char>, self_writable: bool, root: Seq<char>) -> bool {
    probing && name.len() > 0 && root == "self"@ && self_writable && receiver.len() > 0
}

/// Whether growing a place rooted at `root` records a free function growing its parameter: only
/// while probing, only inside a free function (`name` non-empty, `receiver` empty), and only
/// when the root is one of its writable parameters.
pub open spec fn grows_parameter(
    probing: bool,
    receiver: Seq<char>,
    name: Seq<char>,
    writable_params: Map<Seq<char>, usize>,
    root: Seq<char>,
) -> bool {
    probing && name.len() > 0 && root != "self"@ && writable_params.contains_key(root) && receiver.len() == 0
}

/// Records that the body of `name` (a method of `receiver`, or a free function when `receiver`
/// is empty) grows storage it was handed, from the root of the place it grows: a method with a
/// `mutable` receiver records `(receiver, name)` when the root is `self`; a free function records
/// `(name, i)` when the root is its writable parameter at position `i`. Nothing is recorded
/// outside a probing pass, nor at the top level, which owns its storage.
pub fn record_param_growth(
    probing: bool,
    receiver: &String,
    name: &String,
    self_writable: bool,
    writable_params: &NameMap<Position>,
    root: &String,
    grow_self: &mut Vec<(String, String)>,
    grow_params: &mut Vec<(String, usize)>,
)
    ensures
        forall|a: Seq<char>, b: Seq<char>| #[trigger] pair_listed(final(grow_self)@, a, b) == (pair_listed(old(grow_self)@, a, b)
            || (grows_receiver(probing, receiver@, name@, self_writable, root@) && a == receiver@ && b == name@)),
        forall|n: Seq<char>, k: int| #[trigger] index_listed(final(grow_params)@, n, k) == (index_listed(old(grow_params)@, n, k)
            || (grows_parameter(probing, receiver@, name@, writable_params@, root@) && n == name@
                && k == writable_params@[root@])),
{
    if !probing || name.unicode_len() == 0 {
        return;
    }
    if same_text(root.as_str(), "self") {
        if self_writable && receiver.unicode_len() > 0 {
            let ghost before = grow_self@;
            grow_self.push((receiver.clone(), name.clone()));
            proof {
                assert forall|a: Seq<char>, b: Seq<char>| #[trigger] pair_listed(grow_self@, a, b)
                    == (pair_listed(before, a, b) || (a == receiver@ && b == name@)) by {
                    lemma_pair_listed_push(before, (*receiver, *name), a, b);
                }
            }
        }
        return;
    }
    match writable_params.get(root) {
        Some(position) => {
            if receiver.unicode_len() == 0 {
                let ghost before = grow_params@;
                let at = position.index;
                grow_params.push((name.clone(), at));
                proof {
                    assert forall|n: Seq<char>, k: int| #[trigger] index_listed(grow_params@, n, k)
                        == (index_listed(before, n, k) || (n == name@ && k == at)) by {
                        lemma_index_listed_push(before, (*name, at), n, k);
                    }
                }
            }
        },
        None => {},
    }
}

proof fn lemma_listed_push(s: Seq<String>, x: String, n: Seq<char>)
    ensures
        listed(s.push(x), n) == (listed(s, n) || x@ == n),
{
    if listed(s, n) {
        let i = choose|i: int| 0 <= i < s.len() && (#[trigger] s[i])@ == n;
        assert(s.push(x)[i] == s[i]);
    }
    if x@ == n {
        assert(s.push(x)[s.len() as int] == x);
    }
    if listed(s.push(x), n) {
        let i = choose|i: int| 0 <= i < s.push(x).len() && (#[trigger] s.push(x)[i])@ == n;
        if i < s.len() {
            assert(s.push(x)[i] == s[i]);
        }
    }
}

/// Whether building a value here records the body as building in its caller's region: only
/// while probing, only with no region open, and only inside a function or method (`name`
/// non-empty; the top level is where the program's own region lives).
pub open spec fn builds_in_caller(probing: bool, current_region: Option<Seq<char>>, name: Seq<char>) -> bool {
    probing && current_region is None && name.len() > 0
}

/// Whether there is somewhere to build a value at this point: always, because building never
/// needed a region (a `region` block only decides where storage is released). While probing,
/// building with no region open is what it means for the body of `name` to allocate in its
/// caller's region, so it is recorded: a free function (`receiver` empty) in `alloc_fns`, a
/// method of `receiver` in `alloc_methods`.
pub fn has_region(
    probing: bool,
    current_region: &Option<String>,
    receiver: &String,
    name: &String,
    alloc_fns: &mut Vec<String>,
    alloc_methods: &mut Vec<(String, String)>,
) -> (r: bool)
    ensures
        r,
        forall|n: Seq<char>| #[trigger] listed(final(alloc_fns)@, n) == (listed(old(alloc_fns)@, n)
            || (builds_in_caller(probing, match current_region { Some(c) => Some(c@), None => None }, name@)
                && receiver@.len() == 0 && n == name@)),
        forall|a: Seq<char>, b: Seq<char>| #[trigger] pair_listed(final(alloc_methods)@, a, b) == (pair_listed(old(alloc_methods)@, a, b)
            || (builds_in_caller(probing, match current_region { Some(c) => Some(c@), None => None }, name@)
                && receiver@.len() > 0 && a == receiver@ && b == name@)),
{
    if probing && current_region.is_none() && name.unicode_len() > 0 {
        if receiver.unicode_len() == 0 {
            let ghost before = alloc_fns@;
            alloc_fns.push(name.clone());
            proof {
                assert forall|n: Seq<char>| #[trigger] listed(alloc_fns@, n) == (listed(before, n) || n == name@) by {
                    lemma_listed_push(before, *name, n);
                }
            }
        } else {
            let ghost before = alloc_methods@;
            alloc_methods.push((receiver.clone(), name.clone()));
            proof {
                assert forall|a: Seq<char>, b: Seq<char>| #[trigger] pair_listed(alloc_methods@, a, b)
                    == (pair_listed(before, a, b) || (a == receiver@ && b == name@)) by {
                    lemma_pair_listed_push(before, (*receiver, *name), a, b);
                }
            }
        }
    }
    true
}

} // verus!
