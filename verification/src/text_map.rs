//! A finite map keyed by text, kept as a list of entries with distinct keys.
use vstd::prelude::*;
use crate::text::str_eq;
use crate::model::{Layout, PaneProcessInfo};

verus! {

/// A map from strings to values. Its keys are pairwise distinct.
#[derive(Debug)]
pub struct TextMap<V> {
    entries: Vec<(String, V)>,
}

/// The map that a list of entries with distinct keys denotes.
pub open spec fn entries_map<V: View>(es: Seq<(String, V)>) -> Map<Seq<char>, V::V> {
    Map::new(
        |k: Seq<char>| exists|i: int| 0 <= i < es.len() && #[trigger] es[i].0@ == k,
        |k: Seq<char>| es[choose|i: int| 0 <= i < es.len() && #[trigger] es[i].0@ == k].1@,
    )
}

/// No two entries share a key.
pub open spec fn keys_distinct<V>(es: Seq<(String, V)>) -> bool {
    forall|i: int, j: int|
        0 <= i < es.len() && 0 <= j < es.len() && i != j ==> #[trigger] es[i].0@ != #[trigger] es[j].0@
}

/// In a list with distinct keys, the entry at `i` is what the map holds for its key.
pub proof fn lemma_entries_map_at<V: View>(es: Seq<(String, V)>, i: int)
    requires
        keys_distinct(es),
        0 <= i < es.len(),
    ensures
        entries_map(es).contains_key(es[i].0@),
        entries_map(es)[es[i].0@] == es[i].1@,
{
    let k = es[i].0@;
    assert(es[i].0@ == k);
    let j = choose|j: int| 0 <= j < es.len() && #[trigger] es[j].0@ == k;
    assert(j == i);
}

impl<V: View> View for TextMap<V> {
    type V = Map<Seq<char>, V::V>;

    open spec fn view(&self) -> Map<Seq<char>, V::V> {
        entries_map(self.entry_seq())
    }
}

impl<V> TextMap<V> {
    #[verifier::type_invariant]
    closed spec fn distinct(&self) -> bool {
        keys_distinct(self.entries@)
    }
}

impl<V: View> TextMap<V> {
    /// The entries, in the order they were first inserted.
    pub closed spec fn entry_seq(&self) -> Seq<(String, V)> {
        self.entries@
    }

    /// An empty map.
    pub fn new() -> (m: Self)
        ensures
            m@ == Map::<Seq<char>, V::V>::empty(),
    {
        let m = TextMap { entries: Vec::new() };
        assert(m@ =~= Map::<Seq<char>, V::V>::empty());
        m
    }

    /// Number of keys.
    pub fn len(&self) -> (n: usize)
        ensures
            n == self@.dom().len(),
    {
        proof {
            use_type_invariant(self);
            self.lemma_len();
        }
        self.entries.len()
    }

    proof fn lemma_len(&self)
        requires
            keys_distinct(self.entries@),
        ensures
            self@.dom().len() == self.entries@.len(),
        decreases self.entries@.len(),
    {
        let es = self.entries@;
        let keys = es.map_values(|e: (String, V)| e.0@);
        assert forall|i: int, j: int| 0 <= i < keys.len() && 0 <= j < keys.len() && i != j implies keys[i]
            != keys[j] by {
            assert(es[i].0@ != es[j].0@);
        }
        keys.unique_seq_to_set();
        assert(self@.dom() =~= keys.to_set()) by {
            assert forall|k: Seq<char>| self@.dom().contains(k) implies keys.to_set().contains(k) by {
                let i = choose|i: int| 0 <= i < es.len() && #[trigger] es[i].0@ == k;
                assert(keys[i] == k);
            }
            assert forall|k: Seq<char>| keys.to_set().contains(k) implies self@.dom().contains(k) by {
                let i = choose|i: int| 0 <= i < keys.len() && keys[i] == k;
                assert(es[i].0@ == k);
            }
        }
    }

    /// Index of the entry for `key`, if any.
    fn find(&self, key: &str) -> (r: Option<usize>)
        ensures
            match r {
                Some(i) => i < self.entries@.len() && self.entries@[i as int].0@ == key@,
                None => forall|i: int| 0 <= i < self.entries@.len() ==> self.entries@[i].0@ != key@,
            },
    {
        let mut i: usize = 0;
        while i < self.entries.len()
            invariant
                i <= self.entries@.len(),
                forall|j: int| 0 <= j < i ==> self.entries@[j].0@ != key@,
            decreases self.entries.len() - i,
        {
            if str_eq(self.entries[i].0.as_str(), key) {
                return Some(i);
            }
            i = i + 1;
        }
        None
    }

    /// The value stored for `key`.
    pub fn get(&self, key: &str) -> (r: Option<&V>)
        ensures
            match r {
                Some(v) => self@.contains_key(key@) && v@ == self@[key@],
                None => !self@.contains_key(key@),
            },
    {
        proof {
            use_type_invariant(self);
        }
        match self.find(key) {
            Some(i) => {
                proof {
                    lemma_entries_map_at(self.entries@, i as int);
                }
                Some(&self.entries[i].1)
            },
            None => None,
        }
    }

    /// Whether `key` has a value.
    pub fn contains_key(&self, key: &str) -> (r: bool)
        ensures
            r == self@.contains_key(key@),
    {
        self.find(key).is_some()
    }

    /// Sets the value for `key`, replacing any earlier one.
    pub fn insert(&mut self, key: String, value: V)
        ensures
            final(self)@ == old(self)@.insert(key@, value@),
    {
        proof {
            use_type_invariant(&*self);
        }
        let ghost old_es = self.entries@;
        let ghost kv = key@;
        let ghost vv = value@;
        let found = self.find(key.as_str());
        let mut entries: Vec<(String, V)> = Vec::new();
        std::mem::swap(&mut entries, &mut self.entries);
        match found {
            Some(i) => {
                entries.set(i, (key, value));
                proof {
                    let es = entries@;
                    assert(es == old_es.update(i as int, es[i as int]));
                    assert(keys_distinct(es)) by {
                        assert forall|a: int, b: int|
                            0 <= a < es.len() && 0 <= b < es.len() && a != b implies #[trigger] es[a].0@
                            != #[trigger] es[b].0@ by {
                            if a != i && b != i {
                                assert(old_es[a].0@ != old_es[b].0@);
                            } else if a == i {
                                assert(old_es[i as int].0@ != old_es[b].0@);
                            } else {
                                assert(old_es[a].0@ != old_es[i as int].0@);
                            }
                        }
                    }
                    lemma_entries_map_at(es, i as int);
                    assert(entries_map(es) =~= entries_map(old_es).insert(kv, vv)) by {
                        assert forall|k: Seq<char>| #[trigger] entries_map(es).contains_key(k)
                            == entries_map(old_es).insert(kv, vv).contains_key(k) by {
                            if exists|j: int| 0 <= j < old_es.len() && #[trigger] old_es[j].0@ == k {
                                let j = choose|j: int| 0 <= j < old_es.len() && #[trigger] old_es[j].0@ == k;
                                if j != i {
                                    assert(es[j].0@ == k);
                                } else {
                                    assert(es[i as int].0@ == k);
                                }
                            }
                            if exists|j: int| 0 <= j < es.len() && #[trigger] es[j].0@ == k {
                                let j = choose|j: int| 0 <= j < es.len() && #[trigger] es[j].0@ == k;
                                if j != i {
                                    assert(old_es[j].0@ == k);
                                }
                            }
                        }
                        assert forall|k: Seq<char>| #[trigger] entries_map(es).contains_key(k) && k != kv
                            implies entries_map(es)[k] == entries_map(old_es)[k] by {
                            let j = choose|j: int| 0 <= j < es.len() && #[trigger] es[j].0@ == k;
                            assert(j != i);
                            lemma_entries_map_at(es, j);
                            lemma_entries_map_at(old_es, j);
                        }
                    }
                }
            },
            None => {
                entries.push((key, value));
                proof {
                    let es = entries@;
                    assert(es == old_es.push(es.last()));
                    let n = old_es.len() as int;
                    assert(keys_distinct(es)) by {
                        assert forall|a: int, b: int|
                            0 <= a < es.len() && 0 <= b < es.len() && a != b implies #[trigger] es[a].0@
                            != #[trigger] es[b].0@ by {
                            if a != n && b != n {
                                assert(old_es[a].0@ != old_es[b].0@);
                            }
                        }
                    }
                    lemma_entries_map_at(es, n);
                    assert(entries_map(es) =~= entries_map(old_es).insert(kv, vv)) by {
                        assert forall|k: Seq<char>| #[trigger] entries_map(es).contains_key(k)
                            == entries_map(old_es).insert(kv, vv).contains_key(k) by {
                            if exists|j: int| 0 <= j < old_es.len() && #[trigger] old_es[j].0@ == k {
                                let j = choose|j: int| 0 <= j < old_es.len() && #[trigger] old_es[j].0@ == k;
                                assert(es[j].0@ == k);
                            }
                            if exists|j: int| 0 <= j < es.len() && #[trigger] es[j].0@ == k {
                                let j = choose|j: int| 0 <= j < es.len() && #[trigger] es[j].0@ == k;
                                if j != n {
                                    assert(old_es[j].0@ == k);
                                }
                            }
                        }
                        assert forall|k: Seq<char>| #[trigger] entries_map(es).contains_key(k) && k != kv
                            implies entries_map(es)[k] == entries_map(old_es)[k] by {
                            let j = choose|j: int| 0 <= j < es.len() && #[trigger] es[j].0@ == k;
                            assert(j != n);
                            lemma_entries_map_at(es, j);
                            lemma_entries_map_at(old_es, j);
                        }
                    }
                }
            },
        }
        self.entries = entries;
    }

    /// Sets every entry of `other`, each replacing the value already held for its key.
    pub fn extend(&mut self, other: TextMap<V>)
        ensures
            final(self)@ == old(self)@.union_prefer_right(other@),
    {
        proof {
            use_type_invariant(&other);
        }
        let ghost full = other@;
        let mut es = other.entries;
        while es.len() > 0
            invariant
                keys_distinct(es@),
                self@.union_prefer_right(entries_map(es@)) == old(self)@.union_prefer_right(full),
            decreases es.len(),
        {
            let ghost before = es@;
            let (k, v) = es.pop().unwrap();
            proof {
                assert(before == es@.push((k, v)));
                let n = es@.len() as int;
                assert(keys_distinct(es@)) by {
                    assert forall|a: int, b: int|
                        0 <= a < es@.len() && 0 <= b < es@.len() && a != b implies #[trigger] es@[a].0@
                        != #[trigger] es@[b].0@ by {
                        assert(before[a].0@ != before[b].0@);
                    }
                }
                assert forall|j: int| 0 <= j < es@.len() implies #[trigger] es@[j].0@ != k@ by {
                    assert(before[j].0@ != before[n].0@);
                }
                lemma_entries_map_at(before, n);
                assert(entries_map(before) =~= entries_map(es@).insert(k@, v@)) by {
                    assert forall|key: Seq<char>| #[trigger] entries_map(before).contains_key(key)
                        == entries_map(es@).insert(k@, v@).contains_key(key) by {
                        if exists|j: int| 0 <= j < es@.len() && #[trigger] es@[j].0@ == key {
                            let j = choose|j: int| 0 <= j < es@.len() && #[trigger] es@[j].0@ == key;
                            assert(before[j].0@ == key);
                        }
                        if exists|j: int| 0 <= j < before.len() && #[trigger] before[j].0@ == key {
                            let j = choose|j: int| 0 <= j < before.len() && #[trigger] before[j].0@ == key;
                            if j != n {
                                assert(es@[j].0@ == key);
                            }
                        }
                    }
                    assert forall|key: Seq<char>| #[trigger] entries_map(before).contains_key(key) && key
                        != k@ implies entries_map(before)[key] == entries_map(es@)[key] by {
                        let j = choose|j: int| 0 <= j < before.len() && #[trigger] before[j].0@ == key;
                        assert(j != n);
                        lemma_entries_map_at(before, j);
                        lemma_entries_map_at(es@, j);
                    }
                }
            }
            let ghost mid = self@;
            self.insert(k, v);
            proof {
                assert(self@.union_prefer_right(entries_map(es@)) =~= mid.union_prefer_right(
                    entries_map(before),
                ));
            }
        }
        proof {
            assert(entries_map(es@) =~= Map::<Seq<char>, V::V>::empty());
            assert(self@.union_prefer_right(entries_map(es@)) =~= self@);
        }
    }
}

/// Layout slots mapped to their layouts.
pub type LayoutMap = TextMap<Layout>;

/// Pane ids mapped to the pane's foreground processes.
pub type ProcessMap = TextMap<PaneProcessInfo>;

} // verus!
