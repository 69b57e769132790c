//! A map keyed by file path, holding each path at most once.
use vstd::prelude::*;

use crate::text::{chars_eq, chars_of};

verus! {

/// A map from file paths to values.
///
/// Entries keep the order in which their paths were first inserted;
/// inserting a path that is already present replaces its value in place.
pub struct PathMap<V> {
    entries: Vec<(String, V)>,
}

impl<V: View> View for PathMap<V> {
    type V = Map<Seq<char>, V::V>;

    closed spec fn view(&self) -> Map<Seq<char>, V::V> {
        Map::new(
            |k: Seq<char>| self.has_key_at(k),
            |k: Seq<char>| self.entries@[self.index_of_key(k)].1@,
        )
    }
}

impl<V> PathMap<V> {
    #[verifier::type_invariant]
    closed spec fn keys_distinct(&self) -> bool {
        forall|i: int, j: int|
            0 <= i < j < self.entries@.len() ==> #[trigger] self.entries@[i].0@
                != #[trigger] self.entries@[j].0@
    }
}

impl<V: View> PathMap<V> {
    /// The keys, in entry order.
    pub closed spec fn keys(&self) -> Seq<Seq<char>> {
        self.entries@.map_values(|e: (String, V)| e.0@)
    }

    closed spec fn has_key_at(&self, k: Seq<char>) -> bool {
        exists|i: int| 0 <= i < self.entries@.len() && #[trigger] self.entries@[i].0@ == k
    }

    closed spec fn index_of_key(&self, k: Seq<char>) -> int {
        choose|i: int| 0 <= i < self.entries@.len() && #[trigger] self.entries@[i].0@ == k
    }

    /// The entry holding key `k` is the only one that does.
    proof fn lemma_index_of_key(&self, i: int)
        requires
            self.keys_distinct(),
            0 <= i < self.entries@.len(),
        ensures
            self.index_of_key(self.entries@[i].0@) == i,
            self@.contains_key(self.entries@[i].0@),
            self@[self.entries@[i].0@] == self.entries@[i].1@,
    {
        let k = self.entries@[i].0@;
        assert(self.has_key_at(k));
        let j = self.index_of_key(k);
        if j != i {
            if j < i {
                assert(self.entries@[j].0@ != self.entries@[i].0@);
            } else {
                assert(self.entries@[i].0@ != self.entries@[j].0@);
            }
        }
    }

    /// The key set of the map is the set of its keys.
    proof fn lemma_dom(&self)
        requires
            self.keys_distinct(),
        ensures
            self@.dom() == self.keys().to_set(),
            self.keys().no_duplicates(),
            self@.len() == self.entries@.len(),
    {
        assert forall|k: Seq<char>| self@.dom().contains(k) <==> self.keys().to_set().contains(k) by {
            if self@.dom().contains(k) {
                let i = choose|i: int| 0 <= i < self.entries@.len() && #[trigger] self.entries@[i].0@ == k;
                assert(self.keys()[i] == k);
            }
            if self.keys().to_set().contains(k) {
                let i = choose|i: int| 0 <= i < self.keys().len() && self.keys()[i] == k;
                assert(self.entries@[i].0@ == k);
            }
        }
        assert(self@.dom() =~= self.keys().to_set());
        assert forall|i: int, j: int|
            0 <= i < self.keys().len() && 0 <= j < self.keys().len() && i != j implies self.keys()[i]
            != self.keys()[j] by {
            if i < j {
                assert(self.entries@[i].0@ != self.entries@[j].0@);
            } else {
                assert(self.entries@[j].0@ != self.entries@[i].0@);
            }
        }
        self.keys().unique_seq_to_set();
    }

    /// An empty map.
    pub fn new() -> (m: Self)
        ensures
            m@ == Map::<Seq<char>, V::V>::empty(),
            m.keys() == Seq::<Seq<char>>::empty(),
    {
        let m = PathMap { entries: Vec::new() };
        assert(m@ =~= Map::<Seq<char>, V::V>::empty());
        assert(m.keys() =~= Seq::<Seq<char>>::empty());
        m
    }

    /// The index of the entry whose key is `key`, if there is one.
    fn find(&self, key: &[char]) -> (r: Option<usize>)
        ensures
            match r {
                Some(i) => i < self.entries@.len() && self.entries@[i as int].0@ == key@,
                None => !self@.contains_key(key@),
            },
    {
        let mut i: usize = 0;
        while i < self.entries.len()
            invariant
                i <= self.entries@.len(),
                forall|k: int| 0 <= k < i ==> self.entries@[k].0@ != key@,
            decreases self.entries@.len() - i,
        {
            let kv = chars_of(self.entries[i].0.as_str());
            if chars_eq(&kv, key) {
                return Some(i);
            }
            i = i + 1;
        }
        assert(!self.has_key_at(key@));
        None
    }

    /// The value stored for `key`.
    pub fn get(&self, key: &str) -> (r: Option<&V>)
        ensures
            match r {
                Some(v) => self@.contains_key(key@) && v@ == self@[key@],
                None => !self@.contains_key(key@),
            },
    {
        proof {
            use_type_invariant(self);
        }
        let kv = chars_of(key);
        match self.find(&kv) {
            Some(i) => {
                proof {
                    self.lemma_index_of_key(i as int);
                }
                Some(&self.entries[i].1)
            },
            None => None,
        }
    }

    /// Whether `key` is present.
    pub fn contains_key(&self, key: &str) -> (r: bool)
        ensures
            r == self@.contains_key(key@),
    {
        self.get(key).is_some()
    }

    /// Stores `value` for `key`, replacing any earlier value.
    pub fn insert(&mut self, key: String, value: V)
        ensures
            final(self)@ == old(self)@.insert(key@, value@),
            old(self)@.contains_key(key@) ==> final(self).keys() == old(self).keys(),
            !old(self)@.contains_key(key@) ==> final(self).keys() == old(self).keys().push(key@),
    {
        proof {
            use_type_invariant(&*self);
        }
        let kv = chars_of(key.as_str());
        let ghost k = key@;
        let ghost old_entries = self.entries@;
        let ghost old_map = self@;
        match self.find(&kv) {
            Some(i) => {
                let ghost pre = *self;
                proof {
                    pre.lemma_index_of_key(i as int);
                }
                let mut entries: Vec<(String, V)> = Vec::new();
                std::mem::swap(&mut entries, &mut self.entries);
                entries.set(i, (key, value));
                proof {
                    assert forall|a: int, b: int|
                        0 <= a < b < entries@.len() implies #[trigger] entries@[a].0@
                        != #[trigger] entries@[b].0@ by {
                        if a != i && b != i {
                            assert(old_entries[a].0@ != old_entries[b].0@);
                        } else if a == i {
                            assert(old_entries[a].0@ != old_entries[b].0@);
                        } else {
                            assert(old_entries[a].0@ != old_entries[b].0@);
                        }
                    }
                }
                self.entries = entries;
                proof {
                    let new_map = self@;
                    assert forall|q: Seq<char>| #[trigger] new_map.contains_key(q) <==> old_map.insert(
                        k,
                        value@,
                    ).contains_key(q) by {
                        if new_map.contains_key(q) {
                            let j = choose|j: int|
                                0 <= j < self.entries@.len() && #[trigger] self.entries@[j].0@ == q;
                            if j != i {
                                assert(old_entries[j].0@ == q);
                                assert(pre.has_key_at(q));
                            }
                        }
                        if old_map.contains_key(q) {
                            let j = choose|j: int|
                                0 <= j < old_entries.len() && #[trigger] old_entries[j].0@ == q;
                            assert(self.entries@[j].0@ == q);
                        }
                    }
                    assert forall|q: Seq<char>| #[trigger] new_map.contains_key(q) implies new_map[q]
                        == old_map.insert(k, value@)[q] by {
                        let j = choose|j: int|
                            0 <= j < self.entries@.len() && #[trigger] self.entries@[j].0@ == q;
                        self.lemma_index_of_key(j);
                        if j != i {
                            pre.lemma_index_of_key(j);
                        }
                    }
                    assert(new_map =~= old_map.insert(k, value@));
                    assert(self.keys() =~= pre.keys());
                }
            },
            None => {
                let ghost pre = *self;
                let mut entries: Vec<(String, V)> = Vec::new();
                std::mem::swap(&mut entries, &mut self.entries);
                entries.push((key, value));
                proof {
                    assert forall|a: int, b: int|
                        0 <= a < b < entries@.len() implies #[trigger] entries@[a].0@
                        != #[trigger] entries@[b].0@ by {
                        if b == old_entries.len() {
                            assert(!pre.has_key_at(k));
                            assert(old_entries[a].0@ != k);
                        } else {
                            assert(old_entries[a].0@ != old_entries[b].0@);
                        }
                    }
                }
                self.entries = entries;
                proof {
                    let new_map = self@;
                    assert forall|q: Seq<char>| #[trigger] new_map.contains_key(q) <==> old_map.insert(
                        k,
                        value@,
                    ).contains_key(q) by {
                        if new_map.contains_key(q) {
                            let j = choose|j: int|
                                0 <= j < self.entries@.len() && #[trigger] self.entries@[j].0@ == q;
                            if j != old_entries.len() {
                                assert(old_entries[j].0@ == q);
                                assert(pre.has_key_at(q));
                            }
                        }
                        if old_map.contains_key(q) {
                            let j = choose|j: int|
                                0 <= j < old_entries.len() && #[trigger] old_entries[j].0@ == q;
                            assert(self.entries@[j].0@ == q);
                        }
                        if q == k {
                            assert(self.entries@[old_entries.len() as int].0@ == q);
                        }
                    }
                    assert forall|q: Seq<char>| #[trigger] new_map.contains_key(q) implies new_map[q]
                        == old_map.insert(k, value@)[q] by {
                        let j = choose|j: int|
                            0 <= j < self.entries@.len() && #[trigger] self.entries@[j].0@ == q;
                        self.lemma_index_of_key(j);
                        if j != old_entries.len() {
                            pre.lemma_index_of_key(j);
                        }
                    }
                    assert(new_map =~= old_map.insert(k, value@));
                    assert(self.keys() =~= pre.keys().push(k));
                }
            },
        }
    }

    /// The number of paths in the map.
    pub fn len(&self) -> (r: usize)
        ensures
            r == self@.len(),
            r == self.keys().len(),
    {
        proof {
            use_type_invariant(self);
            self.lemma_dom();
        }
        self.entries.len()
    }

    /// Whether the map holds no path.
    pub fn is_empty(&self) -> (r: bool)
        ensures
            r == (self@.len() == 0),
    {
        self.len() == 0
    }

    /// The entries, in the order in which their paths were first inserted.
    pub fn entries(&self) -> (r: &[(String, V)])
        ensures
            r@.map_values(|e: (String, V)| e.0@) == self.keys(),
            forall|i: int| 0 <= i < r@.len() ==> self@.contains_key(#[trigger] r@[i].0@) && self@[r@[i].0@] == r@[i].1@,
            self@.dom() == self.keys().to_set(),
            self.keys().no_duplicates(),
    {
        proof {
            use_type_invariant(self);
            self.lemma_dom();
            assert forall|i: int| 0 <= i < self.entries@.len() implies self@.contains_key(
                #[trigger] self.entries@[i].0@,
            ) && self@[self.entries@[i].0@] == self.entries@[i].1@ by {
                self.lemma_index_of_key(i);
            }
        }
        self.entries.as_slice()
    }
}

} // verus!
