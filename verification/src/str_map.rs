//! A small map keyed by strings, kept as a vector of entries with distinct keys.

use vstd::prelude::*;

verus! {

/// A map from strings to values.
pub struct StrMap<V> {
    entries: Vec<(String, V)>,
}

/// Whether the keys of `entries` are pairwise distinct.
pub open spec fn distinct_keys<V>(entries: Seq<(String, V)>) -> bool {
    forall|i: int, j: int|
        0 <= i < entries.len() && 0 <= j < entries.len() && i != j ==> #[trigger] entries[i].0@
            != #[trigger] entries[j].0@
}

/// Whether some entry has key `k`.
pub open spec fn has_key<V>(entries: Seq<(String, V)>, k: Seq<char>) -> bool {
    exists|i: int| 0 <= i < entries.len() && #[trigger] entries[i].0@ == k
}

/// An index of an entry with key `k`.
pub open spec fn key_index<V>(entries: Seq<(String, V)>, k: Seq<char>) -> int {
    choose|i: int| 0 <= i < entries.len() && #[trigger] entries[i].0@ == k
}

/// The map that a sequence of entries with distinct keys stands for.
pub open spec fn entries_map<V>(entries: Seq<(String, V)>) -> Map<Seq<char>, V> {
    Map::new(|k: Seq<char>| has_key(entries, k), |k: Seq<char>| entries[key_index(entries, k)].1)
}

proof fn lemma_entry_in_map<V>(entries: Seq<(String, V)>, i: int)
    requires
        distinct_keys(entries),
        0 <= i < entries.len(),
    ensures
        entries_map(entries).dom().contains(entries[i].0@),
        entries_map(entries)[entries[i].0@] == entries[i].1,
{
    let k = entries[i].0@;
    assert(has_key(entries, k));
    let c = key_index(entries, k);
    assert(entries[c].0@ == k);
}

/// Finds the entry with key `key`.
fn find_key<V>(entries: &Vec<(String, V)>, key: &String) -> (r: Option<usize>)
    ensures
        match r {
            Some(i) => i < entries@.len() && entries@[i as int].0@ == key@,
            None => !has_key(entries@, key@),
        },
{
    let mut i: usize = 0;
    while i < entries.len()
        invariant
            i <= entries@.len(),
            forall|j: int| 0 <= j < i ==> entries@[j].0@ != key@,
        decreases entries@.len() - i,
    {
        if entries[i].0 == *key {
            return Some(i);
        }
        i = i + 1;
    }
    None
}

impl<V> View for StrMap<V> {
    type V = Map<Seq<char>, V>;

    closed spec fn view(&self) -> Map<Seq<char>, V> {
        entries_map(self.entries@)
    }
}

impl<V> StrMap<V> {
    #[verifier::type_invariant]
    closed spec fn well_formed(&self) -> bool {
        distinct_keys(self.entries@)
    }

    /// The empty map.
    pub fn new() -> (m: StrMap<V>)
        ensures
            m@ == Map::<Seq<char>, V>::empty(),
    {
        let m = StrMap { entries: Vec::new() };
        proof {
            assert(m@ =~= Map::<Seq<char>, V>::empty());
        }
        m
    }

    /// Whether `key` has a value.
    pub fn contains_key(&self, key: &String) -> (b: bool)
        ensures
            b == self@.dom().contains(key@),
    {
        proof {
            use_type_invariant(self);
        }
        match find_key(&self.entries, key) {
            Some(i) => {
                proof {
                    lemma_entry_in_map(self.entries@, i as int);
                }
                true
            },
            None => false,
        }
    }

    /// The value of `key`, if any.
    pub fn get(&self, key: &String) -> (r: Option<&V>)
        ensures
            self@.dom().contains(key@) ==> r == Some(&self@[key@]),
            !self@.dom().contains(key@) ==> r is None,
    {
        proof {
            use_type_invariant(self);
        }
        match find_key(&self.entries, key) {
            Some(i) => {
                proof {
                    lemma_entry_in_map(self.entries@, i as int);
                }
                Some(&self.entries[i].1)
            },
            None => None,
        }
    }

    /// Sets the value of `key`, replacing any previous one.
    pub fn insert(&mut self, key: String, value: V)
        ensures
            final(self)@ == old(self)@.insert(key@, value),
    {
        proof {
            use_type_invariant(&*self);
        }
        let ghost before = self.entries@;
        let ghost k0 = key@;
        let mut entries = Vec::new();
        std::mem::swap(&mut entries, &mut self.entries);
        match find_key(&entries, &key) {
            Some(i) => {
                entries.set(i, (key, value));
                proof {
                    assert forall|k: Seq<char>| #[trigger] has_key(entries@, k) <==> has_key(before, k) by {
                        if has_key(before, k) {
                            let j = key_index(before, k);
                            assert(entries@[j].0@ == k);
                        }
                        if has_key(entries@, k) {
                            let j = key_index(entries@, k);
                            assert(before[j].0@ == k);
                        }
                    }
                    assert forall|k: Seq<char>| has_key(entries@, k) implies #[trigger] entries_map(entries@)[k]
                        == entries_map(before).insert(k0, value)[k] by {
                        let c = key_index(entries@, k);
                        if k == k0 {
                            assert(c == i);
                        } else {
                            let d = key_index(before, k);
                            assert(before[d].0@ == k);
                            assert(c == d);
                        }
                    }
                    assert(entries_map(entries@) =~= entries_map(before).insert(k0, value));
                }
            },
            None => {
                entries.push((key, value));
                proof {
                    let n = before.len() as int;
                    assert(entries@[n].0@ == k0);
                    assert forall|k: Seq<char>| #[trigger] has_key(entries@, k) <==> has_key(before, k) || k == k0 by {
                        if has_key(before, k) {
                            let j = key_index(before, k);
                            assert(entries@[j].0@ == k);
                        }
                        if has_key(entries@, k) && k != k0 {
                            let j = key_index(entries@, k);
                            assert(before[j].0@ == k);
                        }
                    }
                    assert forall|k: Seq<char>| has_key(entries@, k) implies #[trigger] entries_map(entries@)[k]
                        == entries_map(before).insert(k0, value)[k] by {
                        let c = key_index(entries@, k);
                        if k == k0 {
                            assert(c == n);
                        } else {
                            let d = key_index(before, k);
                            assert(before[d].0@ == k);
                            assert(c == d);
                        }
                    }
                    assert(entries_map(entries@) =~= entries_map(before).insert(k0, value));
                }
            },
        }
        self.entries = entries;
    }

    /// Removes `key` and its value, if present.
    pub fn remove(&mut self, key: &String)
        ensures
            final(self)@ == old(self)@.remove(key@),
    {
        proof {
            use_type_invariant(&*self);
        }
        let ghost before = self.entries@;
        match find_key(&self.entries, key) {
            Some(i) => {
                let mut entries = Vec::new();
                std::mem::swap(&mut entries, &mut self.entries);
                entries.remove(i);
                proof {
                    assert forall|k: Seq<char>| #[trigger] has_key(entries@, k) <==> has_key(before, k) && k != key@ by {
                        if has_key(before, k) && k != key@ {
                            let j = key_index(before, k);
                            if j < i {
                                assert(entries@[j].0@ == k);
                            } else {
                                assert(j != i);
                                assert(entries@[j - 1].0@ == k);
                            }
                        }
                        if has_key(entries@, k) {
                            let j = key_index(entries@, k);
                            if j < i {
                                assert(before[j].0@ == k);
                            } else {
                                assert(before[j + 1].0@ == k);
                            }
                        }
                    }
                    assert forall|k: Seq<char>| has_key(entries@, k) implies #[trigger] entries_map(entries@)[k]
                        == entries_map(before).remove(key@)[k] by {
                        let c = key_index(entries@, k);
                        let d = key_index(before, k);
                        assert(before[d].0@ == k);
                        if c < i {
                            assert(before[c].0@ == k);
                            assert(c == d);
                        } else {
                            assert(before[c + 1].0@ == k);
                            assert(c + 1 == d);
                        }
                    }
                    assert(entries_map(entries@) =~= entries_map(before).remove(key@));
                }
                self.entries = entries;
            },
            None => {
                proof {
                    assert(entries_map(before).remove(key@) =~= entries_map(before));
                }
            },
        }
    }

    /// The keys, each once.
    pub fn keys(&self) -> (ks: Vec<String>)
        ensures
            forall|j: int| 0 <= j < ks@.len() ==> self@.dom().contains(#[trigger] ks@[j]@),
            forall|k: Seq<char>|
                self@.dom().contains(k) ==> exists|j: int| 0 <= j < ks@.len() && #[trigger] ks@[j]@ == k,
            forall|a: int, b: int| 0 <= a < ks@.len() && 0 <= b < ks@.len() && a != b ==> #[trigger] ks@[a]@ != #[trigger] ks@[b]@,
            ks@.len() == self@.dom().len(),
    {
        proof {
            use_type_invariant(self);
        }
        let mut ks: Vec<String> = Vec::new();
        let mut i: usize = 0;
        while i < self.entries.len()
            invariant
                i <= self.entries@.len(),
                ks@.len() == i,
                forall|j: int| 0 <= j < i ==> #[trigger] ks@[j]@ == self.entries@[j].0@,
            decreases self.entries@.len() - i,
        {
            ks.push(self.entries[i].0.clone());
            i = i + 1;
        }
        proof {
            assert forall|k: Seq<char>| self@.dom().contains(k) implies exists|j: int| 0 <= j < ks@.len() && #[trigger] ks@[j]@ == k by {
                let j = key_index(self.entries@, k);
                assert(ks@[j]@ == k);
            }
            assert forall|j: int| 0 <= j < ks@.len() implies self@.dom().contains(#[trigger] ks@[j]@) by {
                assert(self.entries@[j].0@ == ks@[j]@);
            }
            let names = ks@.map_values(|s: String| s@);
            assert(names.no_duplicates()) by {
                assert forall|a: int, b: int| 0 <= a < names.len() && 0 <= b < names.len() && a != b implies names[a] != names[b] by {
                    assert(names[a] == self.entries@[a].0@);
                    assert(names[b] == self.entries@[b].0@);
                }
            }
            assert(names.to_set() =~= self@.dom()) by {
                assert forall|k: Seq<char>| names.to_set().contains(k) <==> self@.dom().contains(k) by {
                    if self@.dom().contains(k) {
                        let j = choose|j: int| 0 <= j < ks@.len() && #[trigger] ks@[j]@ == k;
                        assert(names[j] == k);
                    }
                    if names.to_set().contains(k) {
                        let j = choose|j: int| 0 <= j < names.len() && names[j] == k;
                        assert(ks@[j]@ == k);
                    }
                }
            }
            names.unique_seq_to_set();
        }
        ks
    }

    /// Removes every key.
    pub fn clear(&mut self)
        ensures
            final(self)@ == Map::<Seq<char>, V>::empty(),
    {
        self.entries = Vec::new();
        proof {
            assert(self@ =~= Map::<Seq<char>, V>::empty());
        }
    }
}

} // verus!
