//! A small map keyed by strings and a set of strings, kept as a list of entries
//! in which no key occurs twice.
use vstd::prelude::*;

verus! {

/// The map that a list of entries denotes. Where a key occurs twice, the later entry wins.
pub open spec fn entries_map<V: DeepView>(s: Seq<(String, V)>) -> Map<Seq<char>, V::V>
    decreases s.len(),
{
    if s.len() == 0 {
        Map::empty()
    } else {
        entries_map(s.drop_last()).insert(s.last().0@, s.last().1.deep_view())
    }
}

/// No two entries of the list have the same key.
pub open spec fn distinct_keys<V>(s: Seq<(String, V)>) -> bool {
    forall|i: int, j: int| 0 <= i < j < s.len() ==> (#[trigger] s[i]).0@ != (#[trigger] s[j]).0@
}

/// A key that no entry has is not in the map.
pub proof fn lemma_entries_absent<V: DeepView>(s: Seq<(String, V)>, k: Seq<char>)
    requires
        forall|i: int| 0 <= i < s.len() ==> (#[trigger] s[i]).0@ != k,
    ensures
        !entries_map(s).contains_key(k),
    decreases s.len(),
{
    if s.len() > 0 {
        assert(s.last() == s[s.len() - 1]);
        lemma_entries_absent(s.drop_last(), k);
    }
}

/// With distinct keys, each entry's key maps to that entry's value.
pub proof fn lemma_entries_present<V: DeepView>(s: Seq<(String, V)>, i: int)
    requires
        distinct_keys(s),
        0 <= i < s.len(),
    ensures
        entries_map(s).contains_key(s[i].0@),
        entries_map(s)[s[i].0@] == s[i].1.deep_view(),
    decreases s.len(),
{
    if i < s.len() - 1 {
        assert(s.last() == s[s.len() - 1]);
        assert(s.drop_last()[i] == s[i]);
        lemma_entries_present(s.drop_last(), i);
    }
}

/// With distinct keys, dropping an entry removes its key from the map and keeps the rest.
pub proof fn lemma_entries_remove<V: DeepView>(s: Seq<(String, V)>, i: int)
    requires
        distinct_keys(s),
        0 <= i < s.len(),
    ensures
        distinct_keys(s.remove(i)),
        entries_map(s.remove(i)) == entries_map(s).remove(s[i].0@),
    decreases s.len(),
{
    let r = s.remove(i);
    assert forall|a: int, b: int| 0 <= a < b < r.len() implies (#[trigger] r[a]).0@ != (
    #[trigger] r[b]).0@ by {
        let a2 = if a < i { a } else { a + 1 };
        let b2 = if b < i { b } else { b + 1 };
        assert(r[a] == s[a2]);
        assert(r[b] == s[b2]);
    }
    let k = s[i].0@;
    if i == s.len() - 1 {
        assert(r =~= s.drop_last());
        assert forall|j: int| 0 <= j < r.len() implies (#[trigger] r[j]).0@ != k by {
            assert(r[j] == s[j]);
        }
        lemma_entries_absent(r, k);
        assert(entries_map(s).remove(k) =~= entries_map(r));
    } else {
        let d = s.drop_last();
        assert(d[i] == s[i]);
        assert(s.last() == s[s.len() - 1]);
        lemma_entries_remove(d, i);
        assert(r.drop_last() =~= d.remove(i));
        assert(r.last() == s.last());
        assert(entries_map(r) =~= entries_map(s).remove(k));
    }
}

/// With distinct keys, the map has as many keys as the list has entries.
pub proof fn lemma_entries_len<V: DeepView>(s: Seq<(String, V)>)
    requires
        distinct_keys(s),
    ensures
        entries_map(s).dom().finite(),
        entries_map(s).dom().len() == s.len(),
    decreases s.len(),
{
    if s.len() > 0 {
        let d = s.drop_last();
        let k = s.last().0@;
        assert forall|i: int, j: int| 0 <= i < j < d.len() implies (#[trigger] d[i]).0@ != (
        #[trigger] d[j]).0@ by {
            assert(d[i] == s[i]);
            assert(d[j] == s[j]);
        }
        lemma_entries_len(d);
        assert forall|i: int| 0 <= i < d.len() implies (#[trigger] d[i]).0@ != k by {
            assert(d[i] == s[i]);
            assert(s.last() == s[s.len() - 1]);
        }
        lemma_entries_absent(d, k);
        assert(entries_map(s).dom() =~= entries_map(d).dom().insert(k));
    } else {
        assert(entries_map(s).dom() =~= Set::<Seq<char>>::empty());
    }
}

/// An entry whose key is new keeps the keys distinct.
pub proof fn lemma_push_distinct<V: DeepView>(s: Seq<(String, V)>, e: (String, V))
    requires
        distinct_keys(s),
        forall|i: int| 0 <= i < s.len() ==> (#[trigger] s[i]).0@ != e.0@,
    ensures
        distinct_keys(s.push(e)),
{
    let t = s.push(e);
    assert forall|a: int, b: int| 0 <= a < b < t.len() implies (#[trigger] t[a]).0@ != (
    #[trigger] t[b]).0@ by {
        assert(t[a] == s[a]);
        if b < s.len() {
            assert(t[b] == s[b]);
        }
    }
}

/// A map from strings to values, held as a list of entries with distinct keys.
#[derive(Debug)]
pub struct StrMap<V> {
    entries: Vec<(String, V)>,
}

impl<V> StrMap<V> {
    /// No key is held twice.
    #[verifier::type_invariant]
    spec fn distinct(self) -> bool {
        distinct_keys(self.entries@)
    }
}

impl<V: DeepView> View for StrMap<V> {
    type V = Map<Seq<char>, V::V>;

    closed spec fn view(&self) -> Map<Seq<char>, V::V> {
        entries_map(self.entries@)
    }
}

impl<V: DeepView> StrMap<V> {
    /// The entries in the order in which they are held.
    pub closed spec fn entries(&self) -> Seq<(String, V)> {
        self.entries@
    }

    /// The map that the first `n` entries denote.
    pub open spec fn prefix(&self, n: int) -> Map<Seq<char>, V::V> {
        entries_map(self.entries().take(n))
    }

    /// The view is the map that all the entries denote.
    pub proof fn lemma_view(&self)
        ensures
            self@ == entries_map(self.entries()),
            self@ == self.prefix(self.entries().len() as int),
            self.prefix(0) == Map::<Seq<char>, V::V>::empty(),
    {
        assert(self.entries().take(self.entries().len() as int) =~= self.entries());
    }

    /// One more entry adds that entry to the map of the prefix.
    pub proof fn lemma_prefix_step(&self, n: int)
        requires
            0 <= n < self.entries().len(),
        ensures
            self.prefix(n + 1) == self.prefix(n).insert(
                self.entries()[n].0@,
                self.entries()[n].1.deep_view(),
            ),
    {
        let s = self.entries();
        assert(s.take(n + 1).drop_last() =~= s.take(n));
        assert(s.take(n + 1).last() == s[n]);
    }

    pub fn new() -> (r: Self)
        ensures
            r@ == Map::<Seq<char>, V::V>::empty(),
            r.entries().len() == 0,
    {
        StrMap { entries: Vec::new() }
    }

    /// The number of entries, which is the number of keys.
    pub fn len(&self) -> (r: usize)
        ensures
            r == self.entries().len(),
            self@.dom().finite(),
            r == self@.dom().len(),
    {
        proof {
            use_type_invariant(self);
            lemma_entries_len(self.entries@);
        }
        self.entries.len()
    }

    pub fn is_empty(&self) -> (r: bool)
        ensures
            r == (self@ == Map::<Seq<char>, V::V>::empty()),
            r == (self.entries().len() == 0),
    {
        proof {
            if self.entries@.len() > 0 {
                assert(self@.contains_key(self.entries@.last().0@));
            }
        }
        self.entries.len() == 0
    }

    /// The key of the entry at position `i`.
    pub fn key_at(&self, i: usize) -> (r: &String)
        requires
            i < self.entries().len(),
        ensures
            *r == self.entries()[i as int].0,
    {
        &self.entries[i].0
    }

    /// The value of the entry at position `i`.
    pub fn value_at(&self, i: usize) -> (r: &V)
        requires
            i < self.entries().len(),
        ensures
            *r == self.entries()[i as int].1,
    {
        &self.entries[i].1
    }

    /// The position of the entry with key `k`, if there is one.
    pub fn find(&self, k: &String) -> (r: Option<usize>)
        ensures
            match r {
                Some(i) => i < self.entries().len() && self.entries()[i as int].0@ == k@,
                None => forall|i: int|
                    0 <= i < self.entries().len() ==> (#[trigger] self.entries()[i]).0@ != k@,
            },
            r.is_some() == self@.contains_key(k@),
            r.is_some() ==> self@[k@] == self.entries()[r.unwrap() as int].1.deep_view(),
    {
        proof {
            use_type_invariant(self);
        }
        let mut i: usize = 0;
        while i < self.entries.len()
            invariant
                i <= self.entries@.len(),
                distinct_keys(self.entries@),
                forall|j: int| 0 <= j < i ==> (#[trigger] self.entries@[j]).0@ != k@,
            decreases self.entries@.len() - i,
        {
            if self.entries[i].0 == *k {
                proof {
                    lemma_entries_present(self.entries@, i as int);
                }
                return Some(i);
            }
            i += 1;
        }
        proof {
            lemma_entries_absent(self.entries@, k@);
        }
        None
    }

    pub fn contains_key(&self, k: &String) -> (r: bool)
        ensures
            r == self@.contains_key(k@),
    {
        self.find(k).is_some()
    }

    pub fn get(&self, k: &String) -> (r: Option<&V>)
        ensures
            match r {
                Some(v) => self@.contains_key(k@) && self@[k@] == v.deep_view(),
                None => !self@.contains_key(k@),
            },
    {
        match self.find(k) {
            Some(i) => Some(&self.entries[i].1),
            None => None,
        }
    }

    /// Removes the key `k`; the result says whether it was there.
    pub fn remove(&mut self, k: &String) -> (r: bool)
        ensures
            final(self)@ == old(self)@.remove(k@),
            r == old(self)@.contains_key(k@),
    {
        match self.find(k) {
            Some(i) => {
                proof {
                    use_type_invariant(&*self);
                    lemma_entries_remove(self.entries@, i as int);
                }
                let mut entries: Vec<(String, V)> = Vec::new();
                core::mem::swap(&mut self.entries, &mut entries);
                entries.remove(i);
                self.entries = entries;
                true
            },
            None => {
                assert(self@.remove(k@) =~= self@);
                false
            },
        }
    }

    /// Sets the value of `k` to `v`, whether or not `k` had one.
    pub fn insert(&mut self, k: String, v: V)
        ensures
            final(self)@ == old(self)@.insert(k@, v.deep_view()),
    {
        self.remove(&k);
        let ghost mid = self.entries@;
        proof {
            use_type_invariant(&*self);
            if exists|i: int| 0 <= i < mid.len() && (#[trigger] mid[i]).0@ == k@ {
                let i = choose|i: int| 0 <= i < mid.len() && (#[trigger] mid[i]).0@ == k@;
                lemma_entries_present(mid, i);
            }
            lemma_push_distinct(mid, (k, v));
            assert(mid.push((k, v)).drop_last() =~= mid);
            assert(entries_map(mid.push((k, v))) =~= old(self)@.insert(k@, v.deep_view()));
        }
        let mut entries: Vec<(String, V)> = Vec::new();
        core::mem::swap(&mut self.entries, &mut entries);
        entries.push((k, v));
        self.entries = entries;
    }

    pub fn clear(&mut self)
        ensures
            final(self)@ == Map::<Seq<char>, V::V>::empty(),
            final(self).entries().len() == 0,
    {
        self.entries = Vec::new();
    }
}

/// A set of strings, held as a list in which no string occurs twice.
#[derive(Debug)]
pub struct StrSet {
    map: StrMap<()>,
}

impl View for StrSet {
    type V = Set<Seq<char>>;

    closed spec fn view(&self) -> Set<Seq<char>> {
        self.map@.dom()
    }
}

impl StrSet {
    /// The number of strings held.
    pub closed spec fn count(&self) -> nat {
        self.map.entries().len()
    }

    /// The string at position `i`.
    pub closed spec fn item(&self, i: int) -> String {
        self.map.entries()[i].0
    }

    /// The set of the first `n` strings.
    pub closed spec fn prefix(&self, n: int) -> Set<Seq<char>> {
        self.map.prefix(n).dom()
    }

    /// The view is the set of all the strings held.
    pub proof fn lemma_view(&self)
        ensures
            self@ == self.prefix(self.count() as int),
            self.prefix(0) == Set::<Seq<char>>::empty(),
    {
        self.map.lemma_view();
        assert(self.map.prefix(0).dom() =~= Set::<Seq<char>>::empty());
    }

    /// One more string adds that string to the set of the prefix.
    pub proof fn lemma_prefix_step(&self, n: int)
        requires
            0 <= n < self.count(),
        ensures
            self.prefix(n + 1) == self.prefix(n).insert(self.item(n)@),
    {
        self.map.lemma_prefix_step(n);
        assert(self.map.prefix(n + 1).dom() =~= self.map.prefix(n).dom().insert(self.item(n)@));
    }

    pub fn new() -> (r: Self)
        ensures
            r@ == Set::<Seq<char>>::empty(),
            r.count() == 0,
    {
        let r = StrSet { map: StrMap::new() };
        assert(r@ =~= Set::<Seq<char>>::empty());
        r
    }

    pub fn len(&self) -> (r: usize)
        ensures
            r == self.count(),
            self@.finite(),
            r == self@.len(),
    {
        self.map.len()
    }

    pub fn is_empty(&self) -> (r: bool)
        ensures
            r == (self@ == Set::<Seq<char>>::empty()),
    {
        let r = self.map.is_empty();
        proof {
            if r {
                assert(self@ =~= Set::<Seq<char>>::empty());
            } else {
                self.map.lemma_view();
                let s = self.map.entries();
                assert(self.map@.contains_key(s.last().0@));
                assert(self@.contains(s.last().0@));
            }
        }
        r
    }

    /// A copy of the set.
    pub fn snapshot(&self) -> (r: Self)
        ensures
            r@ == self@,
    {
        let mut copy = StrSet::new();
        let n = self.len();
        let mut i: usize = 0;
        proof {
            self.lemma_view();
        }
        while i < n
            invariant
                n == self.count(),
                i <= n,
                copy@ == self.prefix(i as int),
            decreases n - i,
        {
            proof {
                self.lemma_prefix_step(i as int);
            }
            copy.insert(self.get_at(i).clone());
            i += 1;
        }
        copy
    }

    /// The string at position `i`.
    pub fn get_at(&self, i: usize) -> (r: &String)
        requires
            i < self.count(),
        ensures
            *r == self.item(i as int),
    {
        self.map.key_at(i)
    }

    pub fn contains(&self, k: &String) -> (r: bool)
        ensures
            r == self@.contains(k@),
    {
        self.map.contains_key(k)
    }

    /// Adds `k`; the result says whether it was new.
    pub fn insert(&mut self, k: String) -> (r: bool)
        ensures
            final(self)@ == old(self)@.insert(k@),
            r == !old(self)@.contains(k@),
    {
        if self.map.contains_key(&k) {
            assert(self@.insert(k@) =~= self@);
            false
        } else {
            self.map.insert(k, ());
            assert(final(self)@ =~= old(self)@.insert(k@));
            true
        }
    }

    /// Removes `k`; the result says whether it was there.
    pub fn remove(&mut self, k: &String) -> (r: bool)
        ensures
            final(self)@ == old(self)@.remove(k@),
            r == old(self)@.contains(k@),
    {
        let r = self.map.remove(k);
        assert(final(self)@ =~= old(self)@.remove(k@));
        r
    }

    pub fn clear(&mut self)
        ensures
            final(self)@ == Set::<Seq<char>>::empty(),
    {
        self.map.clear();
        assert(final(self)@ =~= Set::<Seq<char>>::empty());
    }
}

} // verus!
