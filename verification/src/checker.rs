//! The checker's state, as far as the library models it, and the questions asked of it from
//! outside: which allocations a body names, and every expression's type as its author wrote it.
use vstd::prelude::*;
use crate::allocation::{collect_allocations, collected, first_occurrences, lemma_listed_once};
use crate::compare::{seen_contains, view_names};
use crate::diagnostics::{Diagnostic, at, conclude, in_reading_order, once_per_place, pending};
use crate::generics::{Instances, written, written_form};
use crate::names::NameMap;
use crate::release::CallFacts;
use crate::storage::Layouts;
use crate::ty::Type;
use crate::typed::{Span, TypedProgram, TypedStmt};
use crate::validity::{Owner, Packages};

verus! {

/// The checker's state: what it worked out about calls, the names bound to region storage in the
/// body being checked, the instantiations made so far, which package hides what, and every
/// expression's type as it was checked, and the errors recorded so far.
pub struct TypeChecker {
    pub facts: CallFacts,
    pub region_locals: Vec<String>,
    pub instances: Instances,
    pub packages: Packages,
    pub expr_types: Vec<(Span, Type)>,
    pub errors: Vec<Diagnostic>,
}

impl TypeChecker {
    /// A checker that knows nothing yet.
    pub fn new() -> (r: TypeChecker)
        ensures
            r.facts.alloc_fns@.len() == 0,
            r.facts.relay_params@.len() == 0,
            r.facts.alloc_methods@.len() == 0,
            r.facts.relay_methods@.len() == 0,
            r.facts.impls@.len() == 0,
            r.facts.extern_names@.len() == 0,
            r.facts.method_writable@.len() == 0,
            r.facts.fn_writable@ == Map::<Seq<char>, Seq<bool>>::empty(),
            r.facts.layouts.records@ == Map::<Seq<char>, Seq<(Seq<char>, crate::ty::TypeV)>>::empty(),
            r.facts.layouts.made_records@ == Map::<Seq<char>, Seq<(Seq<char>, crate::ty::TypeV)>>::empty(),
            r.facts.layouts.enums@ == Map::<Seq<char>, Seq<(Seq<char>, Seq<crate::ty::TypeV>)>>::empty(),
            r.region_locals@.len() == 0,
            r.instances@ == Map::<Seq<char>, (Seq<char>, Seq<crate::ty::TypeV>)>::empty(),
            r.packages.private@ == Map::<Seq<char>, Seq<char>>::empty(),
            r.packages.ranges@.len() == 0,
            r.expr_types@.len() == 0,
            r.errors@.len() == 0,
    {
        TypeChecker {
            facts: CallFacts {
                layouts: Layouts {
                    records: NameMap::new(),
                    made_records: NameMap::new(),
                    enums: NameMap::new(),
                    generic_records: NameMap::new(),
                    generic_enums: NameMap::new(),
                },
                alloc_fns: Vec::new(),
                relay_params: Vec::new(),
                alloc_methods: Vec::new(),
                relay_methods: Vec::new(),
                impls: Vec::new(),
                grow_self: Vec::new(),
                extern_names: Vec::new(),
                fn_writable: NameMap::new(),
                method_writable: Vec::new(),
                interfaces: NameMap::new(),
            },
            region_locals: Vec::new(),
            instances: NameMap::new(),
            packages: Packages { private: NameMap::new(), ranges: Vec::new() },
            expr_types: Vec::new(),
            errors: Vec::new(),
        }
    }

    /// How checking a whole program ends, given what checking its declarations and bodies gave
    /// (`checked`): a failure that stopped a declaration-level pass is recorded too, at `at_span`
    /// where the checker stood; the program is handed back only when nothing at all was
    /// recorded; otherwise every error, in the order a reader meets them, and none twice at one
    /// place. The checker keeps no error afterwards.
    pub fn check(&mut self, checked: Result<TypedProgram, String>, at_span: Span)
        -> (r: Result<TypedProgram, Vec<Diagnostic>>)
        ensures
            final(self).errors@.len() == 0,
            r is Ok <==> (checked is Ok && old(self).errors@.len() == 0),
            r is Ok ==> checked is Ok && r->Ok_0 == checked->Ok_0,
            ({
                let rest = pending(old(self).errors@, match checked { Err(m) => Some(m), Ok(_) => None }, at_span);
                r matches Err(ds) ==> {
                    &&& ds@.len() > 0
                    &&& in_reading_order(ds@)
                    &&& ds@.to_multiset() == rest.to_multiset()
                    &&& forall|sp: Span| #[trigger] at(ds@, sp) == at(rest, sp)
                    &&& once_per_place(old(self).errors@) ==> once_per_place(ds@)
                }
            }),
    {
        conclude(&mut self.errors, checked, at_span)
    }

    /// Tells the checker which declarations belong to which package: each dependency's private
    /// names by owner, and the stretch of source each package occupies.
    pub fn with_packages(&mut self, private: NameMap<Owner>, ranges: Vec<(usize, usize, String)>)
        ensures
            final(self).packages.private@ == private@,
            final(self).packages.ranges@ == ranges@,
            final(self).facts == old(self).facts,
            final(self).region_locals == old(self).region_locals,
            final(self).instances == old(self).instances,
            final(self).expr_types == old(self).expr_types,
    {
        self.packages = Packages { private, ranges };
    }

    /// Every checked expression's type, spelled the way its author would write it: an
    /// instantiation symbol turned back into the generic applied to its arguments.
    pub fn expr_types(&self) -> (r: Vec<(Span, Type)>)
        ensures
            r@.len() == self.expr_types@.len(),
            forall|i: int| 0 <= i < r@.len() ==> (#[trigger] r@[i]).0 == self.expr_types@[i].0
                && r@[i].1@ == written(self.expr_types@[i].1@, self.instances@, self.instances.count()),
    {
        let mut out: Vec<(Span, Type)> = Vec::new();
        let mut i: usize = 0;
        while i < self.expr_types.len()
            invariant
                0 <= i <= self.expr_types@.len(),
                out@.len() == i,
                forall|k: int| 0 <= k < i ==> (#[trigger] out@[k]).0 == self.expr_types@[k].0
                    && out@[k].1@ == written(self.expr_types@[k].1@, self.instances@, self.instances.count()),
            decreases self.expr_types.len() - i,
        {
            let ghost before = out@;
            let t = written_form(&self.expr_types[i].1, &self.instances);
            out.push((self.expr_types[i].0, t));
            assert forall|k: int| 0 <= k < i + 1 implies (#[trigger] out@[k]).0 == self.expr_types@[k].0
                && out@[k].1@ == written(self.expr_types@[k].1@, self.instances@, self.instances.count()) by {
                if k < i {
                    assert(out@[k] == before[k]);
                }
            }
            i = i + 1;
        }
        out
    }

    /// Every nameable allocation in a body, in source order, each named once: what the memory
    /// report lists for a function that allocates.
    pub fn all_allocations(&self, body: &Vec<TypedStmt>) -> (r: Vec<String>)
        ensures
            view_names(r@) == first_occurrences(collected(self.facts, self.region_locals@, self.instances@,
                self.instances.count(), body@)),
            forall|i: int, j: int| 0 <= i < j < r@.len() ==> r@[i]@ != r@[j]@,
    {
        let mut found: Vec<String> = Vec::new();
        collect_allocations(&self.facts, &self.region_locals, &self.instances, body, &mut found);
        let ghost all = view_names(found@);
        proof {
            assert(view_names(Seq::<String>::empty()) + collected(self.facts, self.region_locals@, self.instances@,
                self.instances.count(), body@) =~= collected(self.facts, self.region_locals@, self.instances@,
                self.instances.count(), body@));
        }
        let mut seen: Vec<String> = Vec::new();
        let mut i: usize = 0;
        proof {
            assert(all.take(0) =~= Seq::<Seq<char>>::empty());
            assert(view_names(seen@) =~= Seq::<Seq<char>>::empty());
        }
        while i < found.len()
            invariant
                0 <= i <= found@.len(),
                all == view_names(found@),
                view_names(seen@) == first_occurrences(all.take(i as int)),
            decreases found.len() - i,
        {
            let one = &found[i];
            proof {
                let t = all.take(i + 1);
                assert(t.drop_last() =~= all.take(i as int));
                assert(t.last() == one@);
            }
            if !seen_contains(&seen, one) {
                let ghost before = view_names(seen@);
                seen.push(one.clone());
                assert(view_names(seen@) =~= before.push(one@));
            }
            i = i + 1;
        }
        assert(all.take(i as int) =~= all);
        proof {
            lemma_listed_once(all);
            assert forall|a: int, b: int| 0 <= a < b < seen@.len() implies seen@[a]@ != seen@[b]@ by {
                assert(view_names(seen@)[a] == seen@[a]@);
                assert(view_names(seen@)[b] == seen@[b]@);
            }
        }
        seen
    }
}

} // verus!
