//! A small map keyed by strings, kept as a vector of distinct keys.

use vstd::prelude::*;

verus! {

/// A map from string keys to values. Keys are distinct; the order of entries is
/// an implementation detail that no contract promises.
#[derive(Debug)]
pub struct StringMap<V> {
    entries: Vec<(String, V)>,
}

/// The key of each entry, as a character sequence.
pub open spec fn entry_key<V>(e: (String, V)) -> Seq<char> {
    e.0@
}

/// No two entries share a key.
pub open spec fn distinct_keys<V>(s: Seq<(String, V)>) -> bool {
    forall|i: int, j: int|
        0 <= i < s.len() && 0 <= j < s.len() && i != j ==> #[trigger] entry_key(s[i])
            != #[trigger] entry_key(s[j])
}

/// The map that a sequence of entries with distinct keys stands for.
pub open spec fn entries_map<V>(s: Seq<(String, V)>) -> Map<Seq<char>, V> {
    Map::new(
        |k: Seq<char>| exists|i: int| 0 <= i < s.len() && entry_key(s[i]) == k,
        |k: Seq<char>| s[choose|i: int| 0 <= i < s.len() && entry_key(s[i]) == k].1,
    )
}

proof fn lemma_entries_map_at<V>(s: Seq<(String, V)>, i: int)
    requires
        distinct_keys(s),
        0 <= i < s.len(),
    ensures
        entries_map(s).contains_key(entry_key(s[i])),
        entries_map(s)[entry_key(s[i])] == s[i].1,
{
    let k = entry_key(s[i]);
    assert(exists|j: int| 0 <= j < s.len() && entry_key(s[j]) == k);
    let c = choose|j: int| 0 <= j < s.len() && entry_key(s[j]) == k;
    assert(c == i);
}

impl<V> View for StringMap<V> {
    type V = Map<Seq<char>, V>;

    closed spec fn view(&self) -> Map<Seq<char>, V> {
        entries_map(self.entries@)
    }
}

impl<V: Clone> Clone for StringMap<V> {
    /// A copy with the same keys, each value cloned.
    fn clone(&self) -> (r: Self)
        ensures
            self.wf() ==> r.wf(),
            self.wf() ==> r@.dom() == self@.dom(),
            self.wf() ==> forall|k: Seq<char>|
                #[trigger] r@.contains_key(k) ==> cloned::<V>(self@[k], r@[k]),
    {
        let mut entries: Vec<(String, V)> = Vec::new();
        let mut i: usize = 0;
        while i < self.entries.len()
            invariant
                i <= self.entries@.len(),
                entries@.len() == i,
                forall|j: int| 0 <= j < i ==> #[trigger] entries@[j].0 == self.entries@[j].0,
                forall|j: int| 0 <= j < i ==> cloned::<V>(self.entries@[j].1, #[trigger] entries@[j].1),
            decreases self.entries@.len() - i,
        {
            let key = self.entries[i].0.clone();
            let value = self.entries[i].1.clone();
            entries.push((key, value));
            i = i + 1;
        }
        let r = StringMap { entries };
        proof {
            let s = self.entries@;
            let t = r.entries@;
            if distinct_keys(s) {
                assert(distinct_keys(t)) by {
                    assert forall|a: int, b: int|
                        0 <= a < t.len() && 0 <= b < t.len() && a != b implies #[trigger] entry_key(
                        t[a],
                    ) != #[trigger] entry_key(t[b]) by {
                        assert(entry_key(s[a]) != entry_key(s[b]));
                    }
                }
                assert forall|k: Seq<char>| #[trigger] r@.contains_key(k) == self@.contains_key(k) by {
                    if r@.contains_key(k) {
                        let a = choose|a: int| 0 <= a < t.len() && entry_key(t[a]) == k;
                        assert(entry_key(s[a]) == k);
                    }
                    if self@.contains_key(k) {
                        let a = choose|a: int| 0 <= a < s.len() && entry_key(s[a]) == k;
                        assert(entry_key(t[a]) == k);
                    }
                }
                assert(r@.dom() =~= self@.dom());
                assert forall|k: Seq<char>| #[trigger] r@.contains_key(k) implies cloned::<V>(
                    self@[k],
                    r@[k],
                ) by {
                    let a = choose|a: int| 0 <= a < t.len() && entry_key(t[a]) == k;
                    lemma_entries_map_at(s, a);
                    lemma_entries_map_at(t, a);
                }
            }
        }
        r
    }
}

impl<V> StringMap<V> {
    /// The map's internal consistency: its keys are distinct.
    pub closed spec fn wf(&self) -> bool {
        distinct_keys(self.entries@)
    }

    /// Creates an empty map.
    pub fn new() -> (m: Self)
        ensures
            m.wf(),
            m@ == Map::<Seq<char>, V>::empty(),
    {
        let m = StringMap { entries: Vec::new() };
        assert(m@ =~= Map::<Seq<char>, V>::empty());
        m
    }

    fn find(&self, key: &String) -> (r: Option<usize>)
        requires
            self.wf(),
        ensures
            r matches Some(i) ==> i < self.entries@.len() && entry_key(self.entries@[i as int])
                == key@,
            r is None ==> forall|i: int|
                0 <= i < self.entries@.len() ==> entry_key(self.entries@[i]) != key@,
            r is None <==> !self@.contains_key(key@),
    {
        let mut i: usize = 0;
        while i < self.entries.len()
            invariant
                self.wf(),
                i <= self.entries@.len(),
                forall|j: int| 0 <= j < i ==> entry_key(self.entries@[j]) != key@,
            decreases self.entries@.len() - i,
        {
            if self.entries[i].0 == *key {
                proof {
                    lemma_entries_map_at(self.entries@, i as int);
                }
                return Some(i);
            }
            i = i + 1;
        }
        None
    }

    /// Returns a reference to the value stored under `key`, if any.
    pub fn get(&self, key: &str) -> (r: Option<&V>)
        requires
            self.wf(),
        ensures
            r.is_some() == self@.contains_key(key@),
            r matches Some(v) ==> *v == self@[key@],
    {
        let k = key.to_owned();
        match self.find(&k) {
            Some(i) => {
                proof {
                    lemma_entries_map_at(self.entries@, i as int);
                }
                Some(&self.entries[i].1)
            },
            None => None,
        }
    }

    /// Returns `true` if the map holds an entry for `key`.
    pub fn contains_key(&self, key: &str) -> (r: bool)
        requires
            self.wf(),
        ensures
            r == self@.contains_key(key@),
    {
        let k = key.to_owned();
        self.find(&k).is_some()
    }

    /// Inserts or overwrites the value stored under `key`.
    pub fn insert(&mut self, key: String, value: V)
        requires
            old(self).wf(),
        ensures
            final(self).wf(),
            final(self)@ == old(self)@.insert(key@, value),
    {
        let ghost k = key@;
        match self.find(&key) {
            Some(i) => {
                let ghost s0 = self.entries@;
                self.entries.set(i, (key, value));
                let ghost s1 = self.entries@;
                assert(distinct_keys(s1)) by {
                    assert forall|a: int, b: int|
                        0 <= a < s1.len() && 0 <= b < s1.len() && a != b implies #[trigger] entry_key(
                        s1[a],
                    ) != #[trigger] entry_key(s1[b]) by {
                        assert(entry_key(s1[a]) == entry_key(s0[a]));
                        assert(entry_key(s1[b]) == entry_key(s0[b]));
                    }
                }
                assert(entries_map(s1) =~= entries_map(s0).insert(k, value)) by {
                    assert forall|kk: Seq<char>|
                        #![trigger entries_map(s1).contains_key(kk)]
                        entries_map(s1).contains_key(kk) == entries_map(s0).insert(
                            k,
                            value,
                        ).contains_key(kk) by {
                        if entries_map(s1).contains_key(kk) {
                            let j = choose|j: int| 0 <= j < s1.len() && entry_key(s1[j]) == kk;
                            assert(entry_key(s0[j]) == kk || j == i);
                        }
                        if entries_map(s0).contains_key(kk) {
                            let j = choose|j: int| 0 <= j < s0.len() && entry_key(s0[j]) == kk;
                            assert(entry_key(s1[j]) == kk);
                        }
                        if kk == k {
                            assert(entry_key(s1[i as int]) == kk);
                        }
                    }
                    assert forall|kk: Seq<char>| #[trigger]
                        entries_map(s1).contains_key(kk) implies entries_map(s1)[kk]
                        == entries_map(s0).insert(k, value)[kk] by {
                        let j = choose|j: int| 0 <= j < s1.len() && entry_key(s1[j]) == kk;
                        lemma_entries_map_at(s1, j);
                        if j != i {
                            assert(entry_key(s0[j]) == kk);
                            lemma_entries_map_at(s0, j);
                        }
                    }
                }
            },
            None => {
                let ghost s0 = self.entries@;
                self.entries.push((key, value));
                let ghost s1 = self.entries@;
                assert(distinct_keys(s1)) by {
                    assert forall|a: int, b: int|
                        0 <= a < s1.len() && 0 <= b < s1.len() && a != b implies #[trigger] entry_key(
                        s1[a],
                    ) != #[trigger] entry_key(s1[b]) by {
                        if a < s0.len() {
                            assert(s1[a] == s0[a]);
                        }
                        if b < s0.len() {
                            assert(s1[b] == s0[b]);
                        }
                    }
                }
                assert(entries_map(s1) =~= entries_map(s0).insert(k, value)) by {
                    assert forall|kk: Seq<char>|
                        #![trigger entries_map(s1).contains_key(kk)]
                        entries_map(s1).contains_key(kk) == entries_map(s0).insert(
                            k,
                            value,
                        ).contains_key(kk) by {
                        if entries_map(s1).contains_key(kk) {
                            let j = choose|j: int| 0 <= j < s1.len() && entry_key(s1[j]) == kk;
                            if j < s0.len() {
                                assert(s1[j] == s0[j]);
                            }
                        }
                        if entries_map(s0).contains_key(kk) {
                            let j = choose|j: int| 0 <= j < s0.len() && entry_key(s0[j]) == kk;
                            assert(s1[j] == s0[j]);
                        }
                        if kk == k {
                            assert(entry_key(s1[s0.len() as int]) == kk);
                        }
                    }
                    assert forall|kk: Seq<char>| #[trigger]
                        entries_map(s1).contains_key(kk) implies entries_map(s1)[kk]
                        == entries_map(s0).insert(k, value)[kk] by {
                        let j = choose|j: int| 0 <= j < s1.len() && entry_key(s1[j]) == kk;
                        lemma_entries_map_at(s1, j);
                        if j < s0.len() {
                            assert(s1[j] == s0[j]);
                            lemma_entries_map_at(s0, j);
                        }
                    }
                }
            },
        }
    }

    /// Removes the entry stored under `key`, returning its value if it existed.
    pub fn remove(&mut self, key: &str) -> (r: Option<V>)
        requires
            old(self).wf(),
        ensures
            final(self).wf(),
            final(self)@ == old(self)@.remove(key@),
            r.is_some() == old(self)@.contains_key(key@),
            r matches Some(v) ==> v == old(self)@[key@],
    {
        let k = key.to_owned();
        match self.find(&k) {
            Some(i) => {
                let ghost s0 = self.entries@;
                proof {
                    lemma_entries_map_at(s0, i as int);
                }
                let (_, v) = self.entries.remove(i);
                let ghost s1 = self.entries@;
                assert forall|j: int| 0 <= j < s1.len() implies #[trigger] s1[j] == (if j < i {
                    s0[j]
                } else {
                    s0[j + 1]
                }) by {}
                assert(distinct_keys(s1)) by {
                    assert forall|a: int, b: int|
                        0 <= a < s1.len() && 0 <= b < s1.len() && a != b implies #[trigger] entry_key(
                        s1[a],
                    ) != #[trigger] entry_key(s1[b]) by {
                        let a0 = if a < i {
                            a
                        } else {
                            a + 1
                        };
                        let b0 = if b < i {
                            b
                        } else {
                            b + 1
                        };
                        assert(s1[a] == s0[a0]);
                        assert(s1[b] == s0[b0]);
                    }
                }
                assert(entries_map(s1) =~= entries_map(s0).remove(k@)) by {
                    assert forall|kk: Seq<char>|
                        #![trigger entries_map(s1).contains_key(kk)]
                        entries_map(s1).contains_key(kk) == entries_map(s0).remove(
                            k@,
                        ).contains_key(kk) by {
                        if entries_map(s1).contains_key(kk) {
                            let j = choose|j: int| 0 <= j < s1.len() && entry_key(s1[j]) == kk;
                            let j0 = if j < i {
                                j
                            } else {
                                j + 1
                            };
                            assert(s1[j] == s0[j0]);
                            assert(j0 != i);
                        }
                        if entries_map(s0).contains_key(kk) && kk != k@ {
                            let j = choose|j: int| 0 <= j < s0.len() && entry_key(s0[j]) == kk;
                            assert(j != i);
                            let j1 = if j < i {
                                j
                            } else {
                                j - 1
                            };
                            assert(s1[j1] == s0[j]);
                        }
                    }
                    assert forall|kk: Seq<char>| #[trigger]
                        entries_map(s1).contains_key(kk) implies entries_map(s1)[kk]
                        == entries_map(s0).remove(k@)[kk] by {
                        let j = choose|j: int| 0 <= j < s1.len() && entry_key(s1[j]) == kk;
                        lemma_entries_map_at(s1, j);
                        let j0 = if j < i {
                            j
                        } else {
                            j + 1
                        };
                        assert(s1[j] == s0[j0]);
                        lemma_entries_map_at(s0, j0);
                    }
                }
                Some(v)
            },
            None => {
                assert(self@ =~= self@.remove(k@));
                None
            },
        }
    }

    /// Removes every entry.
    pub fn clear(&mut self)
        ensures
            final(self).wf(),
            final(self)@ == Map::<Seq<char>, V>::empty(),
    {
        self.entries.clear();
        assert(self@ =~= Map::<Seq<char>, V>::empty());
    }

    /// The number of entries.
    pub fn len(&self) -> (r: usize)
        requires
            self.wf(),
        ensures
            r == self@.dom().len(),
    {
        proof {
            self.lemma_dom_len();
        }
        self.entries.len()
    }

    proof fn lemma_dom_len(&self)
        requires
            self.wf(),
        ensures
            self@.dom().len() == self.entries@.len(),
            self@.dom().finite(),
    {
        lemma_dom_len_seq(self.entries@);
    }

    /// All entries, each key once. The order is unspecified.
    pub fn entries(&self) -> (r: &[(String, V)])
        requires
            self.wf(),
        ensures
            distinct_keys(r@),
            entries_map(r@) == self@,
    {
        self.entries.as_slice()
    }
}

proof fn lemma_prefix_dom<V>(s: Seq<(String, V)>)
    requires
        distinct_keys(s),
        s.len() > 0,
    ensures
        distinct_keys(s.drop_last()),
        entries_map(s).dom() == entries_map(s.drop_last()).dom().insert(entry_key(s.last())),
        !entries_map(s.drop_last()).dom().contains(entry_key(s.last())),
{
    let t = s.drop_last();
    assert forall|a: int, b: int|
        0 <= a < t.len() && 0 <= b < t.len() && a != b implies #[trigger] entry_key(t[a])
        != #[trigger] entry_key(t[b]) by {
        assert(t[a] == s[a]);
        assert(t[b] == s[b]);
    }
    assert forall|kk: Seq<char>|
        entries_map(s).dom().contains(kk) == entries_map(t).dom().insert(
            entry_key(s.last()),
        ).contains(kk) by {
        if entries_map(s).dom().contains(kk) {
            let j = choose|j: int| 0 <= j < s.len() && entry_key(s[j]) == kk;
            if j < t.len() {
                assert(t[j] == s[j]);
            }
        }
        if entries_map(t).dom().contains(kk) {
            let j = choose|j: int| 0 <= j < t.len() && entry_key(t[j]) == kk;
            assert(t[j] == s[j]);
        }
        if kk == entry_key(s.last()) {
            assert(entry_key(s[s.len() - 1]) == kk);
        }
    }
    assert(entries_map(s).dom() =~= entries_map(t).dom().insert(entry_key(s.last())));
    if entries_map(t).dom().contains(entry_key(s.last())) {
        let j = choose|j: int| 0 <= j < t.len() && entry_key(t[j]) == entry_key(s.last());
        assert(t[j] == s[j]);
        assert(entry_key(s[j]) != entry_key(s[s.len() - 1]));
    }
}

proof fn lemma_dom_len_seq<V>(s: Seq<(String, V)>)
    requires
        distinct_keys(s),
    ensures
        entries_map(s).dom().len() == s.len(),
        entries_map(s).dom().finite(),
    decreases s.len(),
{
    if s.len() == 0 {
        assert(entries_map(s).dom() =~= Set::<Seq<char>>::empty());
    } else {
        lemma_prefix_dom(s);
        lemma_dom_len_seq(s.drop_last());
    }
}

} // verus!
