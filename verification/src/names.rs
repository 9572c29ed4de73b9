//! A small map from names to values, kept as a list of entries in insertion order.
//!
//! A later entry for a name hides an earlier one, so inserting a name again replaces what it
//! stood for, exactly as a map does.
use vstd::prelude::*;

verus! {

/// A map from names to values.
pub struct NameMap<V> {
    entries: Vec<(String, V)>,
}

/// The map a list of entries describes: each entry binds its name, and a later entry for the
/// same name wins.
pub open spec fn entries_map<V: View>(s: Seq<(String, V)>) -> Map<Seq<char>, V::V>
    decreases s.len(),
{
    if s.len() == 0 {
        Map::empty()
    } else {
        entries_map(s.drop_last()).insert(s.last().0@, s.last().1@)
    }
}

/// Entries that do not mention a name leave what the map says of it unchanged.
proof fn lemma_entries_tail<V: View>(s: Seq<(String, V)>, i: int, k: Seq<char>)
    requires
        0 <= i <= s.len(),
        forall|j: int| i <= j < s.len() ==> (#[trigger] s[j]).0@ != k,
    ensures
        entries_map(s).contains_key(k) == entries_map(s.take(i)).contains_key(k),
        entries_map(s).contains_key(k) ==> entries_map(s)[k] == entries_map(s.take(i))[k],
    decreases s.len(),
{
    if s.len() > i {
        assert(s.drop_last().take(i) =~= s.take(i));
        lemma_entries_tail(s.drop_last(), i, k);
    } else {
        assert(s.take(i) =~= s);
    }
}

/// Dropping one entry for a name from the list changes nothing the map says of other names.
proof fn lemma_entries_remove<V: View>(s: Seq<(String, V)>, i: int, k: Seq<char>)
    requires
        0 <= i < s.len(),
        s[i].0@ == k,
    ensures
        entries_map(s.remove(i)).remove(k) =~= entries_map(s).remove(k),
    decreases s.len(),
{
    if i == s.len() - 1 {
        assert(s.remove(i) =~= s.drop_last());
    } else {
        let t = s.remove(i);
        assert(t.drop_last() =~= s.drop_last().remove(i));
        assert(t.last() == s.last());
        lemma_entries_remove(s.drop_last(), i, k);
        let m1 = entries_map(t.drop_last());
        let m2 = entries_map(s.drop_last());
        assert(entries_map(t) == m1.insert(s.last().0@, s.last().1@));
        assert(entries_map(s) == m2.insert(s.last().0@, s.last().1@));
        assert(m1.remove(k) =~= m2.remove(k));
        if s.last().0@ == k {
            assert(m1.insert(k, s.last().1@).remove(k) =~= m1.remove(k));
            assert(m2.insert(k, s.last().1@).remove(k) =~= m2.remove(k));
        } else {
            assert(m1.insert(s.last().0@, s.last().1@).remove(k) =~= m1.remove(k).insert(s.last().0@, s.last().1@));
            assert(m2.insert(s.last().0@, s.last().1@).remove(k) =~= m2.remove(k).insert(s.last().0@, s.last().1@));
        }
    }
}

impl<V: View> View for NameMap<V> {
    type V = Map<Seq<char>, V::V>;

    closed spec fn view(&self) -> Map<Seq<char>, V::V> {
        entries_map(self.entries@)
    }
}

impl<V: View> NameMap<V> {
    /// A map with no names in it.
    pub fn new() -> (m: Self)
        ensures
            m@ == Map::<Seq<char>, V::V>::empty(),
            m.count() == 0,
    {
        NameMap { entries: Vec::new() }
    }

    /// The number of bindings made so far, a name bound twice counted twice.
    pub closed spec fn count(&self) -> nat {
        self.entries@.len()
    }

    /// The number of bindings made so far.
    pub fn len(&self) -> (n: usize)
        ensures
            n == self.count(),
    {
        self.entries.len()
    }

    /// Binds `name` to `value`, replacing what it was bound to before.
    pub fn insert(&mut self, name: String, value: V)
        ensures
            final(self)@ == old(self)@.insert(name@, value@),
            final(self).count() == old(self).count() + 1,
    {
        self.entries.push((name, value));
        assert(self.entries@.drop_last() =~= old(self).entries@);
    }

    /// Unbinds `name`, whatever it was bound to.
    pub fn remove(&mut self, name: &String)
        ensures
            final(self)@ == old(self)@.remove(name@),
    {
        let mut i: usize = 0;
        while i < self.entries.len()
            invariant
                0 <= i <= self.entries@.len(),
                entries_map(self.entries@).remove(name@) == entries_map(old(self).entries@).remove(name@),
                forall|j: int| 0 <= j < i ==> (#[trigger] self.entries@[j]).0@ != name@,
            decreases self.entries.len() - i,
        {
            if self.entries[i].0 == *name {
                proof {
                    lemma_entries_remove(self.entries@, i as int, name@);
                }
                let ghost before = self.entries@;
                self.entries.remove(i);
                assert forall|j: int| 0 <= j < i implies (#[trigger] self.entries@[j]).0@ != name@ by {
                    assert(self.entries@[j] == before[j]);
                }
            } else {
                i = i + 1;
            }
        }
        proof {
            lemma_entries_tail(self.entries@, 0, name@);
            assert(self.entries@.take(0) =~= Seq::<(String, V)>::empty());
            assert(entries_map(self.entries@) =~= entries_map(self.entries@).remove(name@));
        }
    }

    /// What `name` is bound to, if anything.
    pub fn get(&self, name: &String) -> (r: Option<&V>)
        ensures
            r is Some <==> self@.contains_key(name@),
            r matches Some(v) ==> v@ == self@[name@],
    {
        let mut i = self.entries.len();
        while i > 0
            invariant
                0 <= i <= self.entries@.len(),
                forall|j: int| i <= j < self.entries@.len() ==> (#[trigger] self.entries@[j]).0@ != name@,
            decreases i,
        {
            let k = i - 1;
            if self.entries[k].0 == *name {
                proof {
                    let s = self.entries@;
                    lemma_entries_tail(s, i as int, name@);
                    assert(s.take(i as int).drop_last() =~= s.take(k as int));
                    assert(s.take(i as int).last() == s[k as int]);
                }
                return Some(&self.entries[k].1);
            }
            i = k;
        }
        proof {
            lemma_entries_tail(self.entries@, 0, name@);
            assert(self.entries@.take(0) =~= Seq::<(String, V)>::empty());
        }
        None
    }
}

} // verus!
