//! A map keyed by strings, compared character by character.
use vstd::prelude::*;
use crate::capability::resource::str_eq;

verus! {

/// Entries `(key, value)`, each key at most once.
pub struct StrMap<V> {
    entries: Vec<(String, V)>,
}

/// No key occurs twice.
pub open spec fn keys_unique<V>(s: Seq<(String, V)>) -> bool {
    forall|i: int, j: int| 0 <= i < j < s.len() ==> s[i].0@ != s[j].0@
}

/// The entries as a map.
pub open spec fn entries_map<V>(s: Seq<(String, V)>) -> Map<Seq<char>, V> {
    Map::new(
        |k: Seq<char>| exists|i: int| 0 <= i < s.len() && s[i].0@ == k,
        |k: Seq<char>| s[choose|i: int| 0 <= i < s.len() && s[i].0@ == k].1,
    )
}

proof fn lemma_entry_at<V>(s: Seq<(String, V)>, i: int)
    requires
        keys_unique(s),
        0 <= i < s.len(),
    ensures
        entries_map(s).contains_key(s[i].0@),
        entries_map(s)[s[i].0@] == s[i].1,
{
    let j = choose|j: int| 0 <= j < s.len() && s[j].0@ == s[i].0@;
    assert(j == i) by {
        if j < i {
            assert(s[j].0@ != s[i].0@);
        } else if j > i {
            assert(s[i].0@ != s[j].0@);
        }
    }
}

impl<V> View for StrMap<V> {
    type V = Map<Seq<char>, V>;

    closed spec fn view(&self) -> Map<Seq<char>, V> {
        entries_map(self.entries@)
    }
}

impl<V> StrMap<V> {
    pub closed spec fn wf(&self) -> bool {
        keys_unique(self.entries@)
    }

    /// The keys, in insertion order.
    pub closed spec fn key_seq(&self) -> Seq<Seq<char>> {
        self.entries@.map_values(|e: (String, V)| e.0@)
    }

    pub fn new() -> (m: Self)
        ensures
            m.wf(),
            m@ == Map::<Seq<char>, V>::empty(),
            m.key_seq() == Seq::<Seq<char>>::empty(),
    {
        let m = StrMap { entries: Vec::new() };
        assert(m@ =~= Map::<Seq<char>, V>::empty());
        assert(m.key_seq() =~= Seq::<Seq<char>>::empty());
        m
    }

    fn position(&self, key: &str) -> (r: Option<usize>)
        ensures
            match r {
                Some(i) => i < self.entries@.len() && self.entries@[i as int].0@ == key@,
                None => forall|i: int| 0 <= i < self.entries@.len() ==> self.entries@[i].0@ != key@,
            },
    {
        let mut i: usize = 0;
        while i < self.entries.len()
            invariant
                i <= self.entries@.len(),
                forall|j: int| 0 <= j < i ==> self.entries@[j].0@ != key@,
            decreases self.entries@.len() - i,
        {
            if str_eq(self.entries[i].0.as_str(), key) {
                return Some(i);
            }
            i = i + 1;
        }
        None
    }

    /// The value under `key`.
    pub fn get(&self, key: &str) -> (r: Option<&V>)
        requires
            self.wf(),
        ensures
            match r {
                Some(v) => self@.contains_key(key@) && *v == self@[key@],
                None => !self@.contains_key(key@),
            },
    {
        match self.position(key) {
            Some(i) => {
                proof {
                    lemma_entry_at(self.entries@, i as int);
                }
                Some(&self.entries[i].1)
            },
            None => None,
        }
    }

    /// Number of keys.
    pub fn len(&self) -> (n: usize)
        requires
            self.wf(),
        ensures
            n == self@.len(),
    {
        proof {
            self.lemma_len();
        }
        self.entries.len()
    }

    proof fn lemma_len(&self)
        requires
            self.wf(),
        ensures
            self@.dom().finite(),
            self@.len() == self.entries@.len(),
        decreases self.entries@.len(),
    {
        let s = self.entries@;
        let ks = s.map_values(|e: (String, V)| e.0@);
        assert(self@.dom() =~= ks.to_set()) by {
            assert forall|k: Seq<char>| self@.dom().contains(k) implies ks.to_set().contains(k) by {
                let i = choose|i: int| 0 <= i < s.len() && s[i].0@ == k;
                assert(ks[i] == k);
            }
            assert forall|k: Seq<char>| ks.to_set().contains(k) implies self@.dom().contains(k) by {
                let i = choose|i: int| 0 <= i < ks.len() && ks[i] == k;
                assert(s[i].0@ == k);
            }
        }
        assert(ks.no_duplicates()) by {
            assert forall|i: int, j: int| 0 <= i < ks.len() && 0 <= j < ks.len() && i != j implies ks[i] != ks[j] by {
                if i < j {
                    assert(s[i].0@ != s[j].0@);
                } else {
                    assert(s[j].0@ != s[i].0@);
                }
            }
        }
        ks.unique_seq_to_set();
    }

    /// Map `key` to `value`, replacing any value it had.
    pub fn insert(&mut self, key: String, value: V)
        requires
            old(self).wf(),
        ensures
            final(self).wf(),
            final(self)@ == old(self)@.insert(key@, value),
    {
        let ghost k = key@;
        let ghost old_s = self.entries@;
        match self.position(key.as_str()) {
            Some(i) => {
                self.entries.set(i, (key, value));
                proof {
                    let s = self.entries@;
                    assert(keys_unique(s)) by {
                        assert forall|a: int, b: int| 0 <= a < b < s.len() implies s[a].0@ != s[b].0@ by {
                            if a != i {
                                assert(s[a] == old_s[a]);
                            }
                            if b != i {
                                assert(s[b] == old_s[b]);
                            }
                        }
                    }
                    assert forall|m: Seq<char>| #[trigger] entries_map(s).contains_key(m) <==> entries_map(old_s).insert(k, value).contains_key(m) by {
                        if entries_map(old_s).contains_key(m) && m != k {
                            let j = choose|j: int| 0 <= j < old_s.len() && old_s[j].0@ == m;
                            assert(s[j] == old_s[j]);
                        }
                        if entries_map(s).contains_key(m) && m != k {
                            let j = choose|j: int| 0 <= j < s.len() && s[j].0@ == m;
                            assert(s[j] == old_s[j]);
                        }
                        if m == k {
                            assert(s[i as int].0@ == k);
                        }
                    }
                    assert forall|m: Seq<char>| entries_map(s).contains_key(m) implies #[trigger] entries_map(s)[m] == entries_map(old_s).insert(k, value)[m] by {
                        let j = choose|j: int| 0 <= j < s.len() && s[j].0@ == m;
                        lemma_entry_at(s, j);
                        if m != k {
                            assert(s[j] == old_s[j]);
                            lemma_entry_at(old_s, j);
                        }
                    }
                    assert(entries_map(s) =~= entries_map(old_s).insert(k, value));
                }
            },
            None => {
                self.entries.push((key, value));
                proof {
                    let s = self.entries@;
                    assert(s[s.len() - 1].0@ == k);
                    assert(keys_unique(s)) by {
                        assert forall|a: int, b: int| 0 <= a < b < s.len() implies s[a].0@ != s[b].0@ by {
                            assert(s[a] == old_s[a]);
                            if b < old_s.len() {
                                assert(s[b] == old_s[b]);
                            }
                        }
                    }
                    assert forall|m: Seq<char>| #[trigger] entries_map(s).contains_key(m) <==> entries_map(old_s).insert(k, value).contains_key(m) by {
                        if entries_map(old_s).contains_key(m) {
                            let j = choose|j: int| 0 <= j < old_s.len() && old_s[j].0@ == m;
                            assert(s[j] == old_s[j]);
                        }
                        if entries_map(s).contains_key(m) && m != k {
                            let j = choose|j: int| 0 <= j < s.len() && s[j].0@ == m;
                            assert(j < old_s.len());
                            assert(s[j] == old_s[j]);
                        }
                        if m == k {
                            assert(s[s.len() - 1].0@ == k);
                        }
                    }
                    assert forall|m: Seq<char>| entries_map(s).contains_key(m) implies #[trigger] entries_map(s)[m] == entries_map(old_s).insert(k, value)[m] by {
                        let j = choose|j: int| 0 <= j < s.len() && s[j].0@ == m;
                        lemma_entry_at(s, j);
                        if m != k {
                            assert(j < old_s.len());
                            assert(s[j] == old_s[j]);
                            lemma_entry_at(old_s, j);
                        }
                    }
                    assert(entries_map(s) =~= entries_map(old_s).insert(k, value));
                }
            },
        }
    }

    /// Drop `key`; its value is returned.
    pub fn remove(&mut self, key: &str) -> (r: Option<V>)
        requires
            old(self).wf(),
        ensures
            final(self).wf(),
            final(self)@ == old(self)@.remove(key@),
            match r {
                Some(v) => old(self)@.contains_key(key@) && v == old(self)@[key@],
                None => !old(self)@.contains_key(key@),
            },
    {
        let ghost old_s = self.entries@;
        match self.position(key) {
            Some(i) => {
                proof {
                    lemma_entry_at(old_s, i as int);
                }
                let (_, v) = self.entries.remove(i);
                proof {
                    let s = self.entries@;
                    assert(s =~= old_s.take(i as int) + old_s.skip(i + 1));
                    assert forall|j: int| 0 <= j < s.len() implies #[trigger] s[j] == (if j < i { old_s[j] } else { old_s[j + 1] }) by {}
                    assert(keys_unique(s)) by {
                        assert forall|a: int, b: int| 0 <= a < b < s.len() implies s[a].0@ != s[b].0@ by {
                            let a0 = if a < i { a } else { a + 1 };
                            let b0 = if b < i { b } else { b + 1 };
                            assert(s[a] == old_s[a0] && s[b] == old_s[b0]);
                        }
                    }
                    assert forall|m: Seq<char>| #[trigger] entries_map(s).contains_key(m) <==> entries_map(old_s).remove(key@).contains_key(m) by {
                        if entries_map(old_s).contains_key(m) && m != key@ {
                            let j = choose|j: int| 0 <= j < old_s.len() && old_s[j].0@ == m;
                            assert(j != i);
                            if j < i {
                                assert(s[j] == old_s[j]);
                            } else {
                                assert(s[j - 1] == old_s[j]);
                            }
                        }
                        if entries_map(s).contains_key(m) {
                            let j = choose|j: int| 0 <= j < s.len() && s[j].0@ == m;
                            let j0 = if j < i { j } else { j + 1 };
                            assert(s[j] == old_s[j0]);
                            assert(j0 != i);
                            if j0 < i {
                                assert(old_s[j0].0@ != old_s[i as int].0@);
                            } else {
                                assert(old_s[i as int].0@ != old_s[j0].0@);
                            }
                        }
                    }
                    assert forall|m: Seq<char>| entries_map(s).contains_key(m) implies #[trigger] entries_map(s)[m] == entries_map(old_s).remove(key@)[m] by {
                        let j = choose|j: int| 0 <= j < s.len() && s[j].0@ == m;
                        let j0 = if j < i { j } else { j + 1 };
                        assert(s[j] == old_s[j0]);
                        lemma_entry_at(s, j);
                        lemma_entry_at(old_s, j0);
                    }
                    assert(entries_map(s) =~= entries_map(old_s).remove(key@));
                }
                Some(v)
            },
            None => {
                assert(entries_map(old_s) =~= entries_map(old_s).remove(key@));
                None
            },
        }
    }
}

} // verus!
