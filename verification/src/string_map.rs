//! A name-keyed map backed by a vector of entries.
//!
//! Style layers, element attributes and resource tables are all small
//! maps from names to values; this container keeps them as entry
//! vectors with unique keys and is specified as a `Map` from key text
//! to value models.

use vstd::prelude::*;

verus! {

use vstd::string::StringExecFns;

/// A map from string keys to values, held as a vector of entries with
/// pairwise distinct keys.
#[derive(Debug)]
pub struct StringMap<V> {
    entries: Vec<(String, V)>,
}

/// The map an entry sequence denotes: later entries would win, though
/// a well-formed map never repeats a key.
pub open spec fn entries_view<V: View>(s: Seq<(String, V)>) -> Map<Seq<char>, V::V>
    decreases s.len(),
{
    if s.len() == 0 {
        Map::<Seq<char>, V::V>::empty()
    } else {
        entries_view(s.drop_last()).insert(s.last().0@, s.last().1@)
    }
}

/// Pairwise distinct keys.
pub open spec fn unique_keys<V>(s: Seq<(String, V)>) -> bool {
    forall|i: int, j: int| 0 <= i < j < s.len() ==> s[i].0@ != s[j].0@
}

/// A key present in the entries is in the map, with its entry's value.
proof fn lemma_entries_view_at<V: View>(s: Seq<(String, V)>, i: int)
    requires
        unique_keys(s),
        0 <= i < s.len(),
    ensures
        entries_view(s).contains_key(s[i].0@),
        entries_view(s)[s[i].0@] == s[i].1@,
    decreases s.len(),
{
    if i < s.len() - 1 {
        assert(unique_keys(s.drop_last())) by {
            assert(forall|a: int, b: int|
                0 <= a < b < s.drop_last().len() ==> s.drop_last()[a].0@ != s.drop_last()[b].0@);
        }
        lemma_entries_view_at(s.drop_last(), i);
        assert(s.drop_last()[i] == s[i]);
        assert(s[i].0@ != s.last().0@);
    }
}

/// A key absent from the entries is absent from the map.
proof fn lemma_entries_view_absent<V: View>(s: Seq<(String, V)>, k: Seq<char>)
    requires
        forall|i: int| 0 <= i < s.len() ==> s[i].0@ != k,
    ensures
        !entries_view(s).contains_key(k),
    decreases s.len(),
{
    if s.len() > 0 {
        lemma_entries_view_absent(s.drop_last(), k);
        assert(s.last() == s[s.len() - 1]);
    }
}

/// Removing the entry at `i` removes exactly its key from the map.
proof fn lemma_entries_view_remove<V: View>(s: Seq<(String, V)>, i: int)
    requires
        unique_keys(s),
        0 <= i < s.len(),
    ensures
        entries_view(s.remove(i)) =~= entries_view(s).remove(s[i].0@),
    decreases s.len(),
{
    if i == s.len() - 1 {
        assert(s.remove(i) =~= s.drop_last());
        assert(forall|j: int| 0 <= j < s.drop_last().len() ==> s.drop_last()[j].0@ != s[i].0@);
        lemma_entries_view_absent(s.drop_last(), s[i].0@);
    } else {
        assert(unique_keys(s.drop_last())) by {
            assert(forall|a: int, b: int|
                0 <= a < b < s.drop_last().len() ==> s.drop_last()[a].0@ != s.drop_last()[b].0@);
        }
        lemma_entries_view_remove(s.drop_last(), i);
        assert(s.remove(i).drop_last() =~= s.drop_last().remove(i));
        assert(s.remove(i).last() == s.last());
        assert(s[i].0@ != s.last().0@);
    }
}

/// Unique keys survive removing an entry.
proof fn lemma_unique_keys_remove<V>(s: Seq<(String, V)>, i: int)
    requires
        unique_keys(s),
        0 <= i < s.len(),
    ensures
        unique_keys(s.remove(i)),
{
    assert forall|a: int, b: int| 0 <= a < b < s.remove(i).len() implies s.remove(i)[a].0@
        != s.remove(i)[b].0@ by {
        let a0 = if a < i {
            a
        } else {
            a + 1
        };
        let b0 = if b < i {
            b
        } else {
            b + 1
        };
        assert(s.remove(i)[a] == s[a0] && s.remove(i)[b] == s[b0]);
    }
}

impl<V: View> View for StringMap<V> {
    type V = Map<Seq<char>, V::V>;

    closed spec fn view(&self) -> Map<Seq<char>, V::V> {
        entries_view(self.entries@)
    }
}

impl<V: View> StringMap<V> {
    /// The entry keys are pairwise distinct.
    pub closed spec fn wf(&self) -> bool {
        unique_keys(self.entries@)
    }

    /// An empty map.
    pub fn new() -> (m: StringMap<V>)
        ensures
            m.wf(),
            m@ == Map::<Seq<char>, V::V>::empty(),
    {
        let m = StringMap::<V> { entries: Vec::new() };
        assert(m@ =~= Map::<Seq<char>, V::V>::empty());
        m
    }

    /// The position of a key among the entries, if present.
    fn index_of(&self, name: &String) -> (r: Option<usize>)
        requires
            self.wf(),
        ensures
            r matches Some(i) ==> i < self.spec_len() && self.entry_key(i as int) == name@,
            r is None ==> !self@.contains_key(name@),
    {
        let mut i: usize = 0;
        let n = self.entries.len();
        while i < n
            invariant
                self.wf(),
                n == self.entries@.len(),
                i <= n,
                forall|j: int| 0 <= j < i ==> self.entries@[j].0@ != name@,
            decreases n - i,
        {
            if self.entries[i].0 == *name {
                return Some(i);
            }
            i += 1;
        }
        proof {
            lemma_entries_view_absent(self.entries@, name@);
        }
        None
    }

    /// The number of entries.
    pub closed spec fn spec_len(&self) -> int {
        self.entries@.len() as int
    }

    /// The key of the entry at `i`.
    pub closed spec fn entry_key(&self, i: int) -> Seq<char> {
        self.entries@[i].0@
    }

    /// Whether a key is present.
    pub fn contains(&self, name: &String) -> (r: bool)
        requires
            self.wf(),
        ensures
            r == self@.contains_key(name@),
    {
        match self.index_of(name) {
            Some(i) => {
                proof {
                    lemma_entries_view_at(self.entries@, i as int);
                }
                true
            },
            None => false,
        }
    }

    /// The value under a key, if present.
    pub fn get(&self, name: &String) -> (r: Option<&V>)
        requires
            self.wf(),
        ensures
            r matches Some(v) ==> self@.contains_key(name@) && v@ == self@[name@],
            r is None ==> !self@.contains_key(name@),
    {
        match self.index_of(name) {
            Some(i) => {
                proof {
                    lemma_entries_view_at(self.entries@, i as int);
                }
                Some(&self.entries[i].1)
            },
            None => None,
        }
    }

    /// Binds a key to a value, replacing any earlier binding.
    pub fn set(&mut self, name: String, value: V)
        requires
            old(self).wf(),
        ensures
            final(self).wf(),
            final(self)@ == old(self)@.insert(name@, value@),
    {
        let ghost s0 = self.entries@;
        match self.index_of(&name) {
            Some(i) => {
                proof {
                    lemma_entries_view_remove(self.entries@, i as int);
                    lemma_unique_keys_remove(self.entries@, i as int);
                }
                self.entries.remove(i);
                proof {
                    lemma_entries_view_absent_of_unique(self.entries@, s0[i as int].0@);
                }
            },
            None => {},
        }
        let ghost s1 = self.entries@;
        self.entries.push((name, value));
        proof {
            assert(self.entries@.drop_last() =~= s1);
            assert(self.entries@.last().0@ == self.entries@[self.entries@.len() - 1].0@);
            assert(unique_keys(self.entries@)) by {
                assert forall|a: int, b: int| 0 <= a < b < self.entries@.len() implies self
                    .entries@[a].0@ != self.entries@[b].0@ by {
                    if b < self.entries@.len() - 1 {
                        assert(self.entries@[a] == s1[a] && self.entries@[b] == s1[b]);
                    } else {
                        assert(self.entries@[a] == s1[a]);
                        if !entries_view(s1).contains_key(self.entries@[b].0@) {
                            lemma_entries_view_at(s1, a);
                        }
                    }
                }
            }
            assert(final(self)@ =~= old(self)@.insert(self.entries@.last().0@, value@));
        }
    }

    /// Removes a key's binding, if any.
    pub fn remove(&mut self, name: &String)
        requires
            old(self).wf(),
        ensures
            final(self).wf(),
            final(self)@ == old(self)@.remove(name@),
    {
        match self.index_of(name) {
            Some(i) => {
                proof {
                    lemma_entries_view_remove(self.entries@, i as int);
                    lemma_unique_keys_remove(self.entries@, i as int);
                }
                self.entries.remove(i);
            },
            None => {
                assert(final(self)@ =~= old(self)@.remove(name@));
            },
        }
    }

    /// Every key, each exactly once.
    pub fn keys(&self) -> (r: Vec<String>)
        requires
            self.wf(),
        ensures
            forall|i: int, j: int| 0 <= i < j < r@.len() ==> r@[i]@ != r@[j]@,
            forall|i: int| 0 <= i < r@.len() ==> self@.contains_key(#[trigger] r@[i]@),
            forall|k: Seq<char>|
                self@.contains_key(k) ==> exists|i: int| 0 <= i < r@.len() && r@[i]@ == k,
    {
        let mut r: Vec<String> = Vec::new();
        let n = self.entries.len();
        let mut i: usize = 0;
        while i < n
            invariant
                self.wf(),
                n == self.entries@.len(),
                i <= n,
                r@.len() == i,
                forall|j: int| 0 <= j < i ==> r@[j]@ == self.entries@[j].0@,
            decreases n - i,
        {
            r.push(self.entries[i].0.clone());
            i += 1;
        }
        proof {
            assert forall|a: int, b: int| 0 <= a < b < r@.len() implies r@[a]@ != r@[b]@ by {
                assert(self.entries@[a].0@ != self.entries@[b].0@);
            }
            assert forall|a: int| 0 <= a < r@.len() implies self@.contains_key(
                #[trigger] r@[a]@,
            ) by {
                lemma_entries_view_at(self.entries@, a);
            }
            assert forall|k: Seq<char>| self@.contains_key(k) implies exists|a: int|
                0 <= a < r@.len() && r@[a]@ == k by {
                if forall|a: int| 0 <= a < self.entries@.len() ==> self.entries@[a].0@ != k {
                    lemma_entries_view_absent(self.entries@, k);
                }
                let a = choose|a: int| 0 <= a < self.entries@.len() && self.entries@[a].0@ == k;
                assert(r@[a]@ == k);
            }
        }
        r
    }
}

/// In a well-formed entry sequence a key sits in the map only if some
/// entry holds it.
proof fn lemma_entries_view_absent_of_unique<V: View>(s: Seq<(String, V)>, k: Seq<char>)
    requires
        unique_keys(s),
        !entries_view(s).contains_key(k),
    ensures
        forall|i: int| 0 <= i < s.len() ==> s[i].0@ != k,
{
    assert forall|i: int| 0 <= i < s.len() implies s[i].0@ != k by {
        if s[i].0@ == k {
            lemma_entries_view_at(s, i);
        }
    }
}

} // verus!
