//! A small map keyed by text, for the per-key and per-actor state the plugin keeps.
use vstd::prelude::*;
use vstd::string::*;
use crate::text::str_eq;

verus! {

/// A map from text to values, in insertion order.
#[derive(Debug)]
pub struct TextMap<V> {
    entries: Vec<(String, V)>,
}

/// The keys of the entries are distinct.
pub open spec fn distinct_text_keys<V>(s: Seq<(String, V)>) -> bool {
    forall|i: int, j: int| 0 <= i < j < s.len() ==> s[i].0@ != s[j].0@
}

/// Some entry has key `k`.
pub open spec fn has_text_key<V>(s: Seq<(String, V)>, k: Seq<char>) -> bool {
    exists|i: int| 0 <= i < s.len() && s[i].0@ == k
}

/// The map that distinct-keyed entries stand for.
pub open spec fn text_entries_map<V>(s: Seq<(String, V)>) -> Map<Seq<char>, V> {
    Map::new(
        |k: Seq<char>| has_text_key(s, k),
        |k: Seq<char>| s[choose|i: int| 0 <= i < s.len() && s[i].0@ == k].1,
    )
}

proof fn lemma_text_entry<V>(s: Seq<(String, V)>, i: int)
    requires
        distinct_text_keys(s),
        0 <= i < s.len(),
    ensures
        text_entries_map(s).contains_key(s[i].0@),
        text_entries_map(s)[s[i].0@] == s[i].1,
{
    let k = s[i].0@;
    assert(has_text_key(s, k));
    let j = choose|j: int| 0 <= j < s.len() && s[j].0@ == k;
    assert(j == i);
}

impl<V> TextMap<V> {
    pub closed spec fn view(&self) -> Map<Seq<char>, V> {
        text_entries_map(self.entries@)
    }

    pub closed spec fn wf(&self) -> bool {
        distinct_text_keys(self.entries@)
    }

    /// The entries, in insertion order.
    pub closed spec fn entry_seq(&self) -> Seq<(String, V)> {
        self.entries@
    }

    pub fn new() -> (r: Self)
        ensures
            r.wf(),
            r.view() == Map::<Seq<char>, V>::empty(),
            r.entry_seq().len() == 0,
    {
        let r = TextMap { entries: Vec::new() };
        assert(r.view() =~= Map::<Seq<char>, V>::empty());
        r
    }

    fn index_of(&self, key: &str) -> (r: Option<usize>)
        requires
            self.wf(),
        ensures
            r is None ==> !self.view().contains_key(key@),
            r matches Some(i) ==> i < self.entries@.len() && self.entries@[i as int].0@ == key@,
    {
        let mut i: usize = 0;
        while i < self.entries.len()
            invariant
                i <= self.entries@.len(),
                forall|k: int| 0 <= k < i ==> self.entries@[k].0@ != key@,
            decreases self.entries@.len() - i,
        {
            if str_eq(self.entries[i].0.as_str(), key) {
                return Some(i);
            }
            i = i + 1;
        }
        None
    }

    /// The value under `key`.
    pub fn get(&self, key: &str) -> (r: Option<&V>)
        requires
            self.wf(),
        ensures
            r is Some == self.view().contains_key(key@),
            r matches Some(v) ==> *v == self.view()[key@],
    {
        match self.index_of(key) {
            Some(i) => {
                proof {
                    lemma_text_entry(self.entries@, i as int);
                }
                Some(&self.entries[i].1)
            },
            None => None,
        }
    }

    /// Stores `value` under `key`, returning the value it replaces.
    pub fn insert(&mut self, key: String, value: V) -> (r: Option<V>)
        requires
            old(self).wf(),
        ensures
            final(self).wf(),
            final(self).view() == old(self).view().insert(key@, value),
            r is Some == old(self).view().contains_key(key@),
            r matches Some(v) ==> v == old(self).view()[key@],
    {
        let ghost s = self.entries@;
        let ghost k = key@;
        match self.index_of(key.as_str()) {
            Some(i) => {
                proof {
                    lemma_text_entry(s, i as int);
                }
                let (_, previous) = self.entries.remove(i);
                self.entries.insert(i, (key, value));
                let ghost t = self.entries@;
                assert(t =~= s.update(i as int, (key, value)));
                assert forall|a: int, b: int| 0 <= a < b < t.len() implies t[a].0@ != t[b].0@ by {
                    if a != i && b != i {
                        assert(t[a] == s[a] && t[b] == s[b]);
                    } else if a == i {
                        assert(t[b] == s[b]);
                    } else {
                        assert(t[a] == s[a]);
                    }
                }
                assert(self.view() =~= text_entries_map(s).insert(k, value)) by {
                    assert forall|q: Seq<char>| #[trigger]
                        self.view().contains_key(q) == text_entries_map(s).insert(
                            k,
                            value,
                        ).contains_key(q) by {
                        if has_text_key(t, q) {
                            let j = choose|j: int| 0 <= j < t.len() && t[j].0@ == q;
                            if j != i {
                                assert(s[j].0@ == q);
                            }
                        }
                        if has_text_key(s, q) {
                            let j = choose|j: int| 0 <= j < s.len() && s[j].0@ == q;
                            assert(t[j].0@ == q);
                        }
                    }
                    assert forall|q: Seq<char>| self.view().contains_key(q) implies #[trigger]
                        self.view()[q] == text_entries_map(s).insert(k, value)[q] by {
                        let j = choose|j: int| 0 <= j < t.len() && t[j].0@ == q;
                        lemma_text_entry(t, j);
                        if j != i {
                            assert(s[j] == t[j]);
                            lemma_text_entry(s, j);
                        }
                    }
                }
                Some(previous)
            },
            None => {
                self.entries.push((key, value));
                let ghost t = self.entries@;
                assert forall|a: int, b: int| 0 <= a < b < t.len() implies t[a].0@ != t[b].0@ by {
                    if b == s.len() {
                        assert(t[a] == s[a]);
                        if s[a].0@ == k {
                            lemma_text_entry(s, a);
                        }
                    } else {
                        assert(t[a] == s[a] && t[b] == s[b]);
                    }
                }
                assert(self.view() =~= text_entries_map(s).insert(k, value)) by {
                    assert forall|q: Seq<char>| #[trigger]
                        self.view().contains_key(q) == text_entries_map(s).insert(
                            k,
                            value,
                        ).contains_key(q) by {
                        if has_text_key(t, q) {
                            let j = choose|j: int| 0 <= j < t.len() && t[j].0@ == q;
                            if j < s.len() {
                                assert(s[j].0@ == q);
                            }
                        }
                        if has_text_key(s, q) {
                            let j = choose|j: int| 0 <= j < s.len() && s[j].0@ == q;
                            assert(t[j].0@ == q);
                        }
                        if q == k {
                            assert(t[s.len() as int].0@ == q);
                        }
                    }
                    assert forall|q: Seq<char>| self.view().contains_key(q) implies #[trigger]
                        self.view()[q] == text_entries_map(s).insert(k, value)[q] by {
                        let j = choose|j: int| 0 <= j < t.len() && t[j].0@ == q;
                        lemma_text_entry(t, j);
                        if j < s.len() {
                            assert(s[j] == t[j]);
                            lemma_text_entry(s, j);
                        }
                    }
                }
                None
            },
        }
    }

    /// Drops the entry under `key`, returning its value.
    pub fn remove(&mut self, key: &str) -> (r: Option<V>)
        requires
            old(self).wf(),
        ensures
            final(self).wf(),
            final(self).view() == old(self).view().remove(key@),
            r is Some == old(self).view().contains_key(key@),
            r matches Some(v) ==> v == old(self).view()[key@],
    {
        let ghost s = self.entries@;
        match self.index_of(key) {
            Some(i) => {
                proof {
                    lemma_text_entry(s, i as int);
                }
                let (_, previous) = self.entries.remove(i);
                let ghost t = self.entries@;
                assert(t =~= s.remove(i as int));
                assert forall|a: int, b: int| 0 <= a < b < t.len() implies t[a].0@ != t[b].0@ by {
                    let aa = if a < i { a } else { a + 1 };
                    let bb = if b < i { b } else { b + 1 };
                    assert(t[a] == s[aa] && t[b] == s[bb]);
                }
                assert(self.view() =~= text_entries_map(s).remove(key@)) by {
                    assert forall|q: Seq<char>| #[trigger]
                        self.view().contains_key(q) == text_entries_map(s).remove(
                            key@,
                        ).contains_key(q) by {
                        if has_text_key(t, q) {
                            let j = choose|j: int| 0 <= j < t.len() && t[j].0@ == q;
                            let jj = if j < i { j } else { j + 1 };
                            assert(s[jj].0@ == q);
                        }
                        if has_text_key(s, q) && q != key@ {
                            let j = choose|j: int| 0 <= j < s.len() && s[j].0@ == q;
                            assert(j != i);
                            let jj = if j < i { j } else { j - 1 };
                            assert(t[jj].0@ == q);
                        }
                    }
                    assert forall|q: Seq<char>| self.view().contains_key(q) implies #[trigger]
                        self.view()[q] == text_entries_map(s).remove(key@)[q] by {
                        let j = choose|j: int| 0 <= j < t.len() && t[j].0@ == q;
                        lemma_text_entry(t, j);
                        let jj = if j < i { j } else { j + 1 };
                        assert(s[jj] == t[j]);
                        lemma_text_entry(s, jj);
                    }
                }
                Some(previous)
            },
            None => {
                assert(self.view() =~= text_entries_map(s).remove(key@));
                None
            },
        }
    }

    /// Drops every entry.
    pub fn clear(&mut self)
        ensures
            final(self).wf(),
            final(self).view() == Map::<Seq<char>, V>::empty(),
    {
        self.entries.clear();
        assert(self.view() =~= Map::<Seq<char>, V>::empty());
    }

    /// How many entries there are.
    pub fn len(&self) -> (r: usize)
        requires
            self.wf(),
        ensures
            r == self.entry_seq().len(),
    {
        self.entries.len()
    }

    /// The key and value of the `i`-th entry.
    pub fn entry(&self, i: usize) -> (r: (&str, &V))
        requires
            self.wf(),
            i < self.entry_seq().len(),
        ensures
            r.0@ == self.entry_seq()[i as int].0@,
            *r.1 == self.entry_seq()[i as int].1,
            self.view().contains_key(r.0@),
            self.view()[r.0@] == *r.1,
    {
        proof {
            lemma_text_entry(self.entries@, i as int);
        }
        (self.entries[i].0.as_str(), &self.entries[i].1)
    }

    /// Each entry stands in the map.
    pub proof fn lemma_entry_value(&self, i: int)
        requires
            self.wf(),
            0 <= i < self.entry_seq().len(),
        ensures
            self.view().contains_key(self.entry_seq()[i].0@),
            self.view()[self.entry_seq()[i].0@] == self.entry_seq()[i].1,
    {
        lemma_text_entry(self.entries@, i);
    }

    /// The entries cover the map: each key of the map is the key of some entry.
    pub proof fn lemma_entries_cover(&self, k: Seq<char>)
        requires
            self.wf(),
            self.view().contains_key(k),
        ensures
            exists|i: int|
                0 <= i < self.entry_seq().len() && #[trigger] self.entry_seq()[i].0@ == k,
    {
        let s = self.entries@;
        assert(has_text_key(s, k));
        let j = choose|j: int| 0 <= j < s.len() && s[j].0@ == k;
        assert(self.entry_seq()[j].0@ == k);
    }
}

} // verus!
