//! An association map keyed by strings, kept as a vector of distinct keys in
//! the order in which they arrived.

use vstd::prelude::*;

verus! {

/// Whether no two entries of `s` share a key.
pub open spec fn keys_distinct<V>(s: Seq<(String, V)>) -> bool {
    forall|i: int, j: int|
        0 <= i < s.len() && 0 <= j < s.len() && i != j ==> #[trigger] s[i].0@ != #[trigger] s[j].0@
}

/// Whether `k` is the key of some entry of `s`.
pub open spec fn has_key<V>(s: Seq<(String, V)>, k: Seq<char>) -> bool {
    exists|i: int| 0 <= i < s.len() && #[trigger] s[i].0@ == k
}

/// The index of an entry whose key is `k`.
pub open spec fn key_index<V>(s: Seq<(String, V)>, k: Seq<char>) -> int {
    choose|i: int| 0 <= i < s.len() && #[trigger] s[i].0@ == k
}

/// The map that a sequence of entries with distinct keys denotes.
pub open spec fn entries_map<V>(s: Seq<(String, V)>) -> Map<Seq<char>, V> {
    Map::new(|k: Seq<char>| has_key(s, k), |k: Seq<char>| s[key_index(s, k)].1)
}

/// The keys of a sequence of entries, in order.
pub open spec fn entry_keys<V>(s: Seq<(String, V)>) -> Seq<Seq<char>> {
    s.map_values(|e: (String, V)| e.0@)
}

proof fn lemma_key_index<V>(s: Seq<(String, V)>, j: int)
    requires
        keys_distinct(s),
        0 <= j < s.len(),
    ensures
        has_key(s, s[j].0@),
        key_index(s, s[j].0@) == j,
        entries_map(s).contains_key(s[j].0@),
        entries_map(s)[s[j].0@] == s[j].1,
{
    assert(s[j].0@ == s[j].0@);
    let i = key_index(s, s[j].0@);
    assert(0 <= i < s.len() && s[i].0@ == s[j].0@);
}

proof fn lemma_entries_map_facts<V>(s: Seq<(String, V)>)
    requires
        keys_distinct(s),
    ensures
        forall|i: int|
            0 <= i < s.len() ==> #[trigger] entries_map(s).contains_key(s[i].0@) && entries_map(
                s,
            )[s[i].0@] == s[i].1,
        entries_map(s).dom() == entry_keys(s).to_set(),
        entries_map(s).dom().finite(),
        entries_map(s).len() == s.len(),
        entry_keys(s).no_duplicates(),
{
    assert forall|i: int| 0 <= i < s.len() implies #[trigger] entries_map(s).contains_key(s[i].0@)
        && entries_map(s)[s[i].0@] == s[i].1 by {
        lemma_key_index(s, i);
    }
    let ks = entry_keys(s);
    assert forall|k: Seq<char>| entries_map(s).dom().contains(k) <==> ks.to_set().contains(k) by {
        if entries_map(s).dom().contains(k) {
            let i = key_index(s, k);
            assert(ks[i] == k);
        }
        if ks.to_set().contains(k) {
            let i = choose|i: int| 0 <= i < ks.len() && ks[i] == k;
            assert(s[i].0@ == k);
        }
    }
    assert(entries_map(s).dom() =~= ks.to_set());
    assert(ks.no_duplicates());
    ks.unique_seq_to_set();
}

proof fn lemma_update<V>(s: Seq<(String, V)>, i: int, k: String, v: V)
    requires
        keys_distinct(s),
        0 <= i < s.len(),
        s[i].0@ == k@,
    ensures
        keys_distinct(s.update(i, (k, v))),
        entries_map(s.update(i, (k, v))) == entries_map(s).insert(k@, v),
        entry_keys(s.update(i, (k, v))) == entry_keys(s),
{
    let t = s.update(i, (k, v));
    assert(keys_distinct(t));
    lemma_key_index(t, i);
    assert forall|k2: Seq<char>| has_key(t, k2) <==> has_key(s, k2) by {
        if has_key(t, k2) {
            let j = choose|j: int| 0 <= j < t.len() && #[trigger] t[j].0@ == k2;
            assert(s[j].0@ == k2);
        }
        if has_key(s, k2) {
            let j = choose|j: int| 0 <= j < s.len() && #[trigger] s[j].0@ == k2;
            assert(t[j].0@ == k2);
        }
    }
    assert forall|k2: Seq<char>| #[trigger] has_key(t, k2) && k2 != k@ implies t[key_index(
        t,
        k2,
    )].1 == s[key_index(s, k2)].1 by {
        let j = key_index(t, k2);
        lemma_key_index(t, j);
        lemma_key_index(s, j);
    }
    assert(entries_map(t) =~= entries_map(s).insert(k@, v));
    assert(entry_keys(t) =~= entry_keys(s));
}

proof fn lemma_push<V>(s: Seq<(String, V)>, k: String, v: V)
    requires
        keys_distinct(s),
        !has_key(s, k@),
    ensures
        keys_distinct(s.push((k, v))),
        entries_map(s.push((k, v))) == entries_map(s).insert(k@, v),
        entry_keys(s.push((k, v))) == entry_keys(s).push(k@),
{
    let t = s.push((k, v));
    assert forall|i: int, j: int|
        0 <= i < t.len() && 0 <= j < t.len() && i != j implies #[trigger] t[i].0@
        != #[trigger] t[j].0@ by {
        if i < s.len() && j < s.len() {
            assert(t[i] == s[i] && t[j] == s[j]);
        } else if i < s.len() {
            assert(t[i] == s[i]);
        } else {
            assert(t[j] == s[j]);
        }
    }
    lemma_key_index(t, s.len() as int);
    assert forall|k2: Seq<char>| #[trigger] has_key(t, k2) && k2 != k@ implies has_key(s, k2)
        && t[key_index(t, k2)].1 == s[key_index(s, k2)].1 by {
        let j = key_index(t, k2);
        assert(j < s.len());
        assert(s[j] == t[j]);
        lemma_key_index(s, j);
    }
    assert forall|k2: Seq<char>| has_key(s, k2) implies #[trigger] has_key(t, k2) by {
        let j = choose|j: int| 0 <= j < s.len() && #[trigger] s[j].0@ == k2;
        assert(t[j] == s[j]);
    }
    assert(entries_map(t) =~= entries_map(s).insert(k@, v));
    assert(entry_keys(t) =~= entry_keys(s).push(k@));
}

proof fn lemma_remove<V>(s: Seq<(String, V)>, i: int)
    requires
        keys_distinct(s),
        0 <= i < s.len(),
    ensures
        keys_distinct(s.remove(i)),
        entries_map(s.remove(i)) == entries_map(s).remove(s[i].0@),
        entry_keys(s.remove(i)) == entry_keys(s).remove(i),
{
    let t = s.remove(i);
    assert forall|a: int| 0 <= a < t.len() implies #[trigger] t[a] == s[if a < i {
        a
    } else {
        a + 1
    }] by {}
    assert forall|a: int, b: int|
        0 <= a < t.len() && 0 <= b < t.len() && a != b implies #[trigger] t[a].0@
        != #[trigger] t[b].0@ by {
        let a2 = if a < i { a } else { a + 1 };
        let b2 = if b < i { b } else { b + 1 };
        assert(t[a] == s[a2] && t[b] == s[b2]);
    }
    let k = s[i].0@;
    assert forall|k2: Seq<char>| #[trigger] has_key(t, k2) <==> (has_key(s, k2) && k2 != k) by {
        if has_key(t, k2) {
            let a = choose|a: int| 0 <= a < t.len() && #[trigger] t[a].0@ == k2;
            let a2 = if a < i { a } else { a + 1 };
            assert(t[a] == s[a2]);
            assert(s[a2].0@ == k2);
        }
        if has_key(s, k2) && k2 != k {
            let b = choose|b: int| 0 <= b < s.len() && #[trigger] s[b].0@ == k2;
            let b2 = if b < i { b } else { b - 1 };
            assert(t[b2] == s[b]);
            assert(t[b2].0@ == k2);
        }
    }
    assert forall|k2: Seq<char>| #[trigger] has_key(t, k2) implies t[key_index(t, k2)].1 == s[key_index(
        s,
        k2,
    )].1 by {
        let a = key_index(t, k2);
        let a2 = if a < i { a } else { a + 1 };
        assert(t[a] == s[a2]);
        lemma_key_index(s, a2);
    }
    assert(entries_map(t) =~= entries_map(s).remove(k));
    assert(entry_keys(t) =~= entry_keys(s).remove(i));
}

/// A map from strings to values; entries keep the order in which keys arrived.
pub struct StrMap<V> {
    entries: Vec<(String, V)>,
}

impl<V> View for StrMap<V> {
    type V = Map<Seq<char>, V>;

    closed spec fn view(&self) -> Map<Seq<char>, V> {
        entries_map(self.entries@)
    }
}

impl<V> StrMap<V> {
    /// The entries, in order.
    pub closed spec fn entry_seq(&self) -> Seq<(String, V)> {
        self.entries@
    }

    /// The keys of the entries, in order.
    pub open spec fn key_seq(&self) -> Seq<Seq<char>> {
        entry_keys(self.entry_seq())
    }

    /// No key occurs twice, and the map is the one the entries denote.
    pub closed spec fn wf(&self) -> bool {
        keys_distinct(self.entries@)
    }

    /// What the entries say of the map: each entry is in it with its value,
    /// nothing else is, and it has as many keys as there are entries.
    pub proof fn lemma_view(&self)
        requires
            self.wf(),
        ensures
            self@ == entries_map(self.entry_seq()),
            keys_distinct(self.entry_seq()),
            forall|i: int|
                0 <= i < self.entry_seq().len() ==> #[trigger] self@.contains_key(
                    self.entry_seq()[i].0@,
                ) && self@[self.entry_seq()[i].0@] == self.entry_seq()[i].1,
            self@.dom() == self.key_seq().to_set(),
            self@.dom().finite(),
            self@.len() == self.entry_seq().len(),
            self.key_seq().no_duplicates(),
    {
        lemma_entries_map_facts(self.entries@);
    }

    pub fn new() -> (m: Self)
        ensures
            m.wf(),
            m@ == Map::<Seq<char>, V>::empty(),
            m.entry_seq().len() == 0,
    {
        let m = StrMap { entries: Vec::new() };
        assert(m@ =~= Map::<Seq<char>, V>::empty());
        m
    }

    /// Number of keys.
    pub fn len(&self) -> (n: usize)
        requires
            self.wf(),
        ensures
            n == self@.len(),
            n == self.entry_seq().len(),
    {
        proof {
            self.lemma_view();
        }
        self.entries.len()
    }

    /// The position of `k` among the entries, if it is a key.
    pub fn find(&self, k: &String) -> (r: Option<usize>)
        requires
            self.wf(),
        ensures
            r is None <==> !self@.contains_key(k@),
            r matches Some(i) ==> i < self.entry_seq().len() && self.entry_seq()[i as int].0@
                == k@,
    {
        proof {
            self.lemma_view();
        }
        let mut i: usize = 0;
        while i < self.entries.len()
            invariant
                i <= self.entries@.len(),
                forall|j: int| 0 <= j < i ==> self.entries@[j].0@ != k@,
            decreases self.entries@.len() - i,
        {
            if self.entries[i].0 == *k {
                return Some(i);
            }
            i = i + 1;
        }
        proof {
            if self@.contains_key(k@) {
                let j = key_index(self.entries@, k@);
                assert(self.entries@[j].0@ == k@);
            }
        }
        None
    }

    /// The value of `k`, if it is a key.
    pub fn get(&self, k: &String) -> (r: Option<&V>)
        requires
            self.wf(),
        ensures
            r is Some <==> self@.contains_key(k@),
            r matches Some(v) ==> *v == self@[k@],
    {
        match self.find(k) {
            Some(i) => {
                proof {
                    lemma_key_index(self.entries@, i as int);
                }
                Some(&self.entries[i].1)
            },
            None => None,
        }
    }

    /// Number of entries; needs no well-formedness.
    pub fn entry_count(&self) -> (n: usize)
        ensures
            n == self.entry_seq().len(),
    {
        self.entries.len()
    }

    /// Whether `k` is a key.
    pub fn contains_key(&self, k: &String) -> (b: bool)
        requires
            self.wf(),
        ensures
            b == self@.contains_key(k@),
    {
        self.find(k).is_some()
    }

    /// The key of the entry at position `i`.
    pub fn key_at(&self, i: usize) -> (k: &String)
        requires
            i < self.entry_seq().len(),
        ensures
            *k == self.entry_seq()[i as int].0,
    {
        &self.entries[i].0
    }

    /// The value of the entry at position `i`.
    pub fn value_at(&self, i: usize) -> (v: &V)
        requires
            i < self.entry_seq().len(),
        ensures
            *v == self.entry_seq()[i as int].1,
    {
        &self.entries[i].1
    }

    /// Replaces the value of the entry at position `i`, keeping its key.
    pub fn set_value_at(&mut self, i: usize, v: V)
        requires
            old(self).wf(),
            i < old(self).entry_seq().len(),
        ensures
            final(self).wf(),
            final(self)@ == old(self)@.insert(old(self).entry_seq()[i as int].0@, v),
            final(self).key_seq() == old(self).key_seq(),
            final(self).entry_seq() == old(self).entry_seq().update(
                i as int,
                (old(self).entry_seq()[i as int].0, v),
            ),
    {
        let ghost s = self.entries@;
        let ghost k = s[i as int].0;
        proof {
            lemma_update(s, i as int, k, v);
        }
        let old_entry = self.entries.remove(i);
        let key = old_entry.0;
        self.entries.insert(i, (key, v));
        assert(self.entries@ =~= s.update(i as int, (k, v)));
    }

    /// Binds `k` to `v`; a new key goes after all others.
    pub fn insert(&mut self, k: String, v: V)
        requires
            old(self).wf(),
        ensures
            final(self).wf(),
            final(self)@ == old(self)@.insert(k@, v),
            old(self)@.contains_key(k@) ==> final(self).key_seq() == old(self).key_seq(),
            !old(self)@.contains_key(k@) ==> final(self).key_seq() == old(self).key_seq().push(k@),
            !old(self)@.contains_key(k@) ==> final(self).entry_seq() == old(self).entry_seq().push(
                (k, v),
            ),
            old(self)@.contains_key(k@) ==> exists|i: int|
                0 <= i < old(self).entry_seq().len() && old(self).entry_seq()[i].0@ == k@
                    && final(self).entry_seq() == old(self).entry_seq().update(
                    i,
                    (old(self).entry_seq()[i].0, v),
                ),
    {
        match self.find(&k) {
            Some(i) => {
                self.set_value_at(i, v);
            },
            None => {
                proof {
                    lemma_push(self.entries@, k, v);
                }
                self.entries.push((k, v));
            },
        }
    }

    /// Removes `k` and returns its value, if it was a key.
    pub fn remove(&mut self, k: &String) -> (r: Option<V>)
        requires
            old(self).wf(),
        ensures
            final(self).wf(),
            final(self)@ == old(self)@.remove(k@),
            r is Some <==> old(self)@.contains_key(k@),
            r matches Some(v) ==> v == old(self)@[k@],
            !old(self)@.contains_key(k@) ==> final(self).entry_seq() == old(self).entry_seq(),
    {
        match self.find(k) {
            Some(i) => {
                proof {
                    lemma_remove(self.entries@, i as int);
                    lemma_key_index(self.entries@, i as int);
                }
                let e = self.entries.remove(i);
                Some(e.1)
            },
            None => {
                proof {
                    assert(old(self)@.remove(k@) =~= old(self)@);
                }
                None
            },
        }
    }
}

impl<V: Copy> Clone for StrMap<V> {
    /// A copy with the same entries in the same order.
    fn clone(&self) -> (r: Self)
        ensures
            r.key_seq() == self.key_seq(),
            r.wf() == self.wf(),
            self.wf() ==> r@ == self@,
    {
        let mut entries: Vec<(String, V)> = Vec::new();
        let mut i: usize = 0;
        while i < self.entries.len()
            invariant
                i <= self.entries@.len(),
                entries@.len() == i,
                forall|j: int|
                    0 <= j < i ==> (#[trigger] entries@[j]).0@ == self.entries@[j].0@
                        && entries@[j].1 == self.entries@[j].1,
            decreases self.entries@.len() - i,
        {
            let k = self.entries[i].0.clone();
            let v = self.entries[i].1;
            entries.push((k, v));
            i = i + 1;
        }
        let r = StrMap { entries };
        assert(r.key_seq() =~= self.key_seq());
        assert(keys_distinct(r.entries@) == keys_distinct(self.entries@)) by {
            if keys_distinct(r.entries@) {
                assert forall|a: int, b: int|
                    0 <= a < self.entries@.len() && 0 <= b < self.entries@.len() && a != b implies #[trigger] self.entries@[a].0@
                        != #[trigger] self.entries@[b].0@ by {
                    assert(r.entries@[a].0@ != r.entries@[b].0@);
                }
            }
            if keys_distinct(self.entries@) {
                assert forall|a: int, b: int|
                    0 <= a < r.entries@.len() && 0 <= b < r.entries@.len() && a != b implies #[trigger] r.entries@[a].0@
                        != #[trigger] r.entries@[b].0@ by {
                    assert(self.entries@[a].0@ != self.entries@[b].0@);
                }
            }
        }
        proof {
            if self.wf() {
                self.lemma_view();
                r.lemma_view();
                assert forall|k: Seq<char>| #[trigger] r@.contains_key(k) implies self@.contains_key(k) && r@[k] == self@[k] by {
                    let j = choose|j: int| 0 <= j < r.entries@.len() && #[trigger] r.entries@[j].0@ == k;
                    assert(r.entries@[j].0@ == self.entries@[j].0@);
                }
                assert forall|k: Seq<char>| #[trigger] self@.contains_key(k) implies r@.contains_key(k) by {
                    let j = choose|j: int| 0 <= j < self.entries@.len() && #[trigger] self.entries@[j].0@ == k;
                    assert(r.entries@[j].0@ == k);
                }
                assert(r@ =~= self@);
            }
        }
        r
    }
}

impl StrMap<String> {
    /// A copy with the same entries in the same order.
    pub fn copy_text(&self) -> (r: Self)
        ensures
            r.key_seq() == self.key_seq(),
            r.wf() == self.wf(),
            self.wf() ==> r@ == self@,
    {
        let mut entries: Vec<(String, String)> = Vec::new();
        let mut i: usize = 0;
        while i < self.entries.len()
            invariant
                i <= self.entries@.len(),
                entries@.len() == i,
                forall|j: int|
                    0 <= j < i ==> (#[trigger] entries@[j]).0@ == self.entries@[j].0@
                        && entries@[j].1 == self.entries@[j].1,
            decreases self.entries@.len() - i,
        {
            let k = self.entries[i].0.clone();
            let v = self.entries[i].1.clone();
            entries.push((k, v));
            i = i + 1;
        }
        let r = StrMap { entries };
        assert(r.key_seq() =~= self.key_seq());
        assert(keys_distinct(r.entries@) == keys_distinct(self.entries@)) by {
            if keys_distinct(r.entries@) {
                assert forall|a: int, b: int|
                    0 <= a < self.entries@.len() && 0 <= b < self.entries@.len() && a != b implies #[trigger] self.entries@[a].0@
                        != #[trigger] self.entries@[b].0@ by {
                    assert(r.entries@[a].0@ != r.entries@[b].0@);
                }
            }
            if keys_distinct(self.entries@) {
                assert forall|a: int, b: int|
                    0 <= a < r.entries@.len() && 0 <= b < r.entries@.len() && a != b implies #[trigger] r.entries@[a].0@
                        != #[trigger] r.entries@[b].0@ by {
                    assert(self.entries@[a].0@ != self.entries@[b].0@);
                }
            }
        }
        proof {
            if self.wf() {
                self.lemma_view();
                r.lemma_view();
                assert forall|k: Seq<char>| #[trigger] r@.contains_key(k) implies self@.contains_key(k) && r@[k] == self@[k] by {
                    let j = choose|j: int| 0 <= j < r.entries@.len() && #[trigger] r.entries@[j].0@ == k;
                    assert(r.entries@[j].0@ == self.entries@[j].0@);
                }
                assert forall|k: Seq<char>| #[trigger] self@.contains_key(k) implies r@.contains_key(k) by {
                    let j = choose|j: int| 0 <= j < self.entries@.len() && #[trigger] self.entries@[j].0@ == k;
                    assert(r.entries@[j].0@ == k);
                }
                assert(r@ =~= self@);
            }
        }
        r
    }
}

} // verus!
