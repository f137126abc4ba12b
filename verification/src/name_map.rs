//! A map keyed by strings, kept as a list of entries in which no key occurs twice.

use vstd::prelude::*;

verus! {

/// The index of the entry with a given key, or the length of the list.
pub open spec fn entry_index<V>(s: Seq<(String, V)>, key: Seq<char>) -> int
    decreases s.len(),
{
    if s.len() == 0 {
        0
    } else if entry_index(s.drop_last(), key) < s.len() - 1 {
        entry_index(s.drop_last(), key)
    } else if s.last().0@ == key {
        s.len() - 1
    } else {
        s.len() as int
    }
}

/// A map from strings to `V`.
#[derive(Debug)]
pub struct NameMap<V> {
    entries: Vec<(String, V)>,
}

proof fn lemma_entry_index<V>(s: Seq<(String, V)>, key: Seq<char>)
    ensures
        0 <= entry_index(s, key) <= s.len(),
        entry_index(s, key) < s.len() ==> s[entry_index(s, key)].0@ == key,
        forall|i: int| 0 <= i < entry_index(s, key) ==> s[i].0@ != key,
    decreases s.len(),
{
    if s.len() > 0 {
        lemma_entry_index(s.drop_last(), key);
        let j = entry_index(s, key);
        assert forall|i: int| 0 <= i < j implies s[i].0@ != key by {
            if i < s.len() - 1 {
                assert(s.drop_last()[i] == s[i]);
            }
        }
    }
}

proof fn lemma_entry_index_is<V>(s: Seq<(String, V)>, key: Seq<char>, at: int)
    requires
        0 <= at <= s.len(),
        at < s.len() ==> s[at].0@ == key,
        forall|i: int| 0 <= i < at ==> s[i].0@ != key,
    ensures
        entry_index(s, key) == at,
{
    lemma_entry_index(s, key);
}

impl<V> NameMap<V> {
    #[verifier::type_invariant]
    closed spec fn well_formed(self) -> bool {
        forall|i: int, j: int|
            0 <= i < j < self.entries@.len() ==> self.entries@[i].0@ != self.entries@[j].0@
    }

    /// The map that the entries stand for.
    pub closed spec fn as_map(self) -> Map<Seq<char>, V> {
        Map::new(
            |k: Seq<char>| entry_index(self.entries@, k) < self.entries@.len(),
            |k: Seq<char>| self.entries@[entry_index(self.entries@, k)].1,
        )
    }
}

impl<V> View for NameMap<V> {
    type V = Map<Seq<char>, V>;

    open spec fn view(&self) -> Map<Seq<char>, V> {
        self.as_map()
    }
}

impl<V> NameMap<V> {
    /// The empty map.
    pub fn new() -> (m: Self)
        ensures
            m@ == Map::<Seq<char>, V>::empty(),
    {
        let m = NameMap { entries: Vec::new() };
        assert(m@ =~= Map::<Seq<char>, V>::empty());
        m
    }

    /// Whether the map has no entry.
    pub fn is_empty(&self) -> (b: bool)
        ensures
            b == (self@ == Map::<Seq<char>, V>::empty()),
    {
        proof {
            if self.entries@.len() > 0 {
                let k = self.entries@[0].0@;
                lemma_entry_index_is(self.entries@, k, 0);
                assert(self@.dom().contains(k));
            } else {
                assert(self@ =~= Map::<Seq<char>, V>::empty());
            }
        }
        self.entries.len() == 0
    }

    /// Where the entry for a key is, or how many entries there are.
    fn position(&self, key: &str) -> (at: usize)
        ensures
            at == entry_index(self.entries@, key@),
            at <= self.entries@.len(),
            at < self.entries@.len() ==> self.entries@[at as int].0@ == key@,
    {
        let mut i: usize = 0;
        while i < self.entries.len()
            invariant
                i <= self.entries@.len(),
                forall|j: int| 0 <= j < i ==> self.entries@[j].0@ != key@,
            decreases self.entries@.len() - i,
        {
            if *self.entries[i].0.as_str() == *key {
                proof {
                    lemma_entry_index_is(self.entries@, key@, i as int);
                }
                return i;
            }
            i += 1;
        }
        proof {
            lemma_entry_index_is(self.entries@, key@, i as int);
        }
        i
    }

    /// The value for a key.
    pub fn get(&self, key: &str) -> (v: Option<&V>)
        ensures
            match v {
                Some(value) => self@.dom().contains(key@) && *value == self@[key@],
                None => !self@.dom().contains(key@),
            },
    {
        let at = self.position(key);
        if at < self.entries.len() {
            Some(&self.entries[at].1)
        } else {
            None
        }
    }

    /// Sets the value for a key, and hands out the value that it had.
    pub fn insert(&mut self, key: String, value: V) -> (previous: Option<V>)
        ensures
            final(self)@ == old(self)@.insert(key@, value),
            match previous {
                Some(v) => old(self)@.dom().contains(key@) && v == old(self)@[key@],
                None => !old(self)@.dom().contains(key@),
            },
    {
        proof {
            use_type_invariant(&*self);
        }
        let at = self.position(key.as_str());
        let mut entries: Vec<(String, V)> = Vec::new();
        std::mem::swap(&mut entries, &mut self.entries);
        let ghost before = entries@;
        let ghost k = key@;
        let previous = if at < entries.len() {
            let mut entry = (key, value);
            std::mem::swap(&mut entry, &mut entries[at]);
            Some(entry.1)
        } else {
            entries.push((key, value));
            None
        };
        proof {
            let after = entries@;
            assert forall|i: int, j: int| 0 <= i < j < after.len() implies after[i].0@
                != after[j].0@ by {
                lemma_entry_index(before, k);
            }
        }
        self.entries = entries;
        proof {
            let after = self.entries@;
            let expected = old(self)@.insert(k, value);
            assert forall|q: Seq<char>|
                (#[trigger] self@.dom().contains(q) <==> expected.dom().contains(q)) && (
                self@.dom().contains(q) ==> self@[q] == expected[q]) by {
                lemma_entry_index(before, q);
                lemma_entry_index(before, k);
                if q == k {
                    lemma_entry_index_is(after, q, at as int);
                } else if entry_index(before, q) < before.len() {
                    lemma_entry_index_is(after, q, entry_index(before, q));
                } else {
                    lemma_entry_index_is(after, q, after.len() as int);
                }
            }
            assert(self@ =~= expected);
        }
        previous
    }

    /// The keys, each once, in the order in which they were first set.
    pub closed spec fn keys(self) -> Seq<Seq<char>> {
        Seq::new(self.entries@.len(), |i: int| self.entries@[i].0@)
    }

    /// How many keys there are.
    pub fn len(&self) -> (n: usize)
        ensures
            n == self.keys().len(),
            self.keys().no_duplicates(),
            forall|i: int|
                0 <= i < self.keys().len() ==> self@.dom().contains(#[trigger] self.keys()[i]),
            forall|k: Seq<char>| #[trigger]
                self@.dom().contains(k) ==> self.keys().contains(k),
    {
        proof {
            use_type_invariant(self);
            let e = self.entries@;
            assert forall|i: int| 0 <= i < self.keys().len() implies self@.dom().contains(
                #[trigger] self.keys()[i],
            ) by {
                lemma_entry_index(e, e[i].0@);
            }
            assert forall|k: Seq<char>| #[trigger] self@.dom().contains(k) implies self.keys().contains(
                k,
            ) by {
                lemma_entry_index(e, k);
                assert(self.keys()[entry_index(e, k)] == k);
            }
        }
        self.entries.len()
    }

    /// The key and value at an index.
    pub fn entry(&self, i: usize) -> (e: (&str, &V))
        requires
            i < self.keys().len(),
        ensures
            e.0@ == self.keys()[i as int],
            self@.dom().contains(e.0@),
            *e.1 == self@[e.0@],
    {
        proof {
            use_type_invariant(self);
            lemma_entry_index_is(self.entries@, self.entries@[i as int].0@, i as int);
        }
        let entry = &self.entries[i];
        (entry.0.as_str(), &entry.1)
    }

    /// Sets the value at an index, and hands out the value that was there.
    pub fn replace_at(&mut self, i: usize, value: V) -> (previous: V)
        requires
            i < old(self).keys().len(),
        ensures
            final(self).keys() == old(self).keys(),
            previous == old(self)@[old(self).keys()[i as int]],
            final(self)@ == old(self)@.insert(old(self).keys()[i as int], value),
    {
        proof {
            use_type_invariant(&*self);
        }
        let ghost before = self.entries@;
        let ghost k = before[i as int].0@;
        let mut entries: Vec<(String, V)> = Vec::new();
        std::mem::swap(&mut entries, &mut self.entries);
        let mut v = value;
        std::mem::swap(&mut v, &mut entries[i].1);
        self.entries = entries;
        proof {
            let after = self.entries@;
            let expected = old(self)@.insert(k, value);
            lemma_entry_index_is(before, k, i as int);
            assert(self.keys() =~= old(self).keys());
            assert forall|q: Seq<char>|
                (#[trigger] self@.dom().contains(q) <==> expected.dom().contains(q)) && (
                self@.dom().contains(q) ==> self@[q] == expected[q]) by {
                lemma_entry_index(before, q);
                lemma_entry_index_is(after, q, entry_index(before, q));
            }
            assert(self@ =~= expected);
        }
        v
    }
}

proof fn lemma_same_keys<V>(a: Seq<(String, V)>, b: Seq<(String, V)>, key: Seq<char>)
    requires
        a.len() == b.len(),
        forall|i: int| 0 <= i < a.len() ==> (#[trigger] a[i]).0@ == b[i].0@,
    ensures
        entry_index(a, key) == entry_index(b, key),
{
    lemma_entry_index(a, key);
    let at = entry_index(a, key);
    assert forall|i: int| 0 <= i < at implies b[i].0@ != key by {
        assert(a[i].0@ == b[i].0@);
    }
    if at < a.len() {
        assert(a[at].0@ == b[at].0@);
    }
    lemma_entry_index_is(b, key, at);
}

impl<V: Clone> Clone for NameMap<V> {
    fn clone(&self) -> (m: Self)
        ensures
            m@.dom() == self@.dom(),
            forall|key: Seq<char>| #[trigger] self@.contains_key(key) ==> cloned(self@[key], m@[key]),
    {
        proof {
            use_type_invariant(self);
        }
        let mut entries: Vec<(String, V)> = Vec::new();
        let mut i: usize = 0;
        while i < self.entries.len()
            invariant
                i <= self.entries@.len(),
                entries@.len() == i,
                forall|j: int| 0 <= j < i ==> (#[trigger] self.entries@[j]).0@ == entries@[j].0@,
                forall|j: int| 0 <= j < i ==> cloned((#[trigger] self.entries@[j]).1, entries@[j].1),
            decreases self.entries@.len() - i,
        {
            entries.push((self.entries[i].0.clone(), self.entries[i].1.clone()));
            i = i + 1;
        }
        proof {
            assert forall|j: int, k: int| 0 <= j < k < entries@.len() implies entries@[j].0@ != entries@[k].0@ by {
                assert(self.entries@[j].0@ == entries@[j].0@);
                assert(self.entries@[k].0@ == entries@[k].0@);
            }
            assert forall|key: Seq<char>| entry_index(self.entries@, key) == #[trigger] entry_index(entries@, key) by {
                lemma_same_keys(self.entries@, entries@, key);
            }
            assert forall|key: Seq<char>| 0 <= #[trigger] entry_index(entries@, key) by {
                lemma_entry_index(entries@, key);
            }
        }
        let m = NameMap { entries };
        assert(m@.dom() =~= self@.dom());
        m
    }
}

impl<V> Default for NameMap<V> {
    fn default() -> (m: Self)
        ensures
            m@ == Map::<Seq<char>, V>::empty(),
    {
        Self::new()
    }
}

} // verus!
