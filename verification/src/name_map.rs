//! A map from interface names to values, the keyed table that network
//! snapshots are built from.

use vstd::prelude::*;
use crate::text::{chars_of, chars_eq};

verus! {

/// Entries keyed by name, at most one entry per name.
pub struct NameMap<V> {
    entries: Vec<(String, V)>,
}

impl<V> NameMap<V> {
    /// No two entries share a name.
    #[verifier::type_invariant]
    spec fn keys_unique(&self) -> bool {
        forall|i: int, j: int|
            0 <= i < j < self.entries@.len() ==> #[trigger] self.entries@[i].0@
                != #[trigger] self.entries@[j].0@
    }

    /// The index of the entry named `k`.
    spec fn index_of(&self, k: Seq<char>) -> int {
        choose|i: int| 0 <= i < self.entries@.len() && self.entries@[i].0@ == k
    }

    /// The map from names to values that the entries hold.
    pub closed spec fn view(&self) -> Map<Seq<char>, V> {
        Map::new(
            |k: Seq<char>| exists|i: int| 0 <= i < self.entries@.len() && self.entries@[i].0@ == k,
            |k: Seq<char>| self.entries@[self.index_of(k)].1,
        )
    }

    /// The values in entry order.
    pub closed spec fn values(&self) -> Seq<V> {
        self.entries@.map_values(|e: (String, V)| e.1)
    }

    /// The names in entry order.
    pub closed spec fn keys(&self) -> Seq<Seq<char>> {
        self.entries@.map_values(|e: (String, V)| e.0@)
    }

    /// The `i`-th name maps to the `i`-th value, names are distinct, and
    /// every stored name is among them.
    proof fn lemma_entries_match_view(&self)
        requires
            self.keys_unique(),
        ensures
            self.keys().len() == self.values().len(),
            self.keys().no_duplicates(),
            forall|i: int|
                0 <= i < self.keys().len() ==> self@.dom().contains(#[trigger] self.keys()[i])
                    && self@[self.keys()[i]] == self.values()[i],
            forall|k: Seq<char>|
                #[trigger] self@.dom().contains(k) ==> exists|i: int|
                    0 <= i < self.keys().len() && self.keys()[i] == k,
            self@.dom().finite(),
            self@.dom().len() == self.keys().len(),
    {
        let keys = self.keys();
        assert forall|i: int| 0 <= i < keys.len() implies self@.dom().contains(
            #[trigger] keys[i],
        ) && self@[keys[i]] == self.values()[i] by {
            let k = keys[i];
            assert(self.entries@[i].0@ == k);
            assert(self@.dom().contains(k));
            let j = self.index_of(k);
            assert(0 <= j < self.entries@.len() && self.entries@[j].0@ == k);
            if i != j {
                if i < j {
                    assert(self.entries@[i].0@ != self.entries@[j].0@);
                } else {
                    assert(self.entries@[j].0@ != self.entries@[i].0@);
                }
            }
        }
        assert forall|k: Seq<char>| #[trigger] self@.dom().contains(k) implies exists|i: int|
            0 <= i < keys.len() && keys[i] == k by {
            let j = self.index_of(k);
            assert(keys[j] == k);
        }
        assert forall|i: int, j: int| 0 <= i < keys.len() && 0 <= j < keys.len() && i != j implies keys[i]
            != keys[j] by {
            if i < j {
                assert(self.entries@[i].0@ != self.entries@[j].0@);
            } else {
                assert(self.entries@[j].0@ != self.entries@[i].0@);
            }
        }
        assert(keys.no_duplicates());
        assert forall|k: Seq<char>| self@.dom().contains(k) == keys.to_set().contains(k) by {
            if keys.to_set().contains(k) {
                let i = choose|i: int| 0 <= i < keys.len() && keys[i] == k;
                assert(self.entries@[i].0@ == k);
            }
        }
        assert(self@.dom() =~= keys.to_set());
        keys.unique_seq_to_set();
    }

    /// An empty map.
    pub fn new() -> (r: Self)
        ensures
            r@ == Map::<Seq<char>, V>::empty(),
            r.values() == Seq::<V>::empty(),
    {
        let r = NameMap { entries: Vec::new() };
        assert(r@ =~= Map::<Seq<char>, V>::empty());
        assert(r.values() =~= Seq::<V>::empty());
        r
    }

    /// The number of names held, with how the entries in order relate to the map.
    pub fn len(&self) -> (r: usize)
        ensures
            r == self@.dom().len(),
            r == self.keys().len(),
            r == self.values().len(),
            self.keys().no_duplicates(),
            self@.dom().finite(),
            forall|i: int|
                0 <= i < self.keys().len() ==> self@.dom().contains(#[trigger] self.keys()[i])
                    && self@[self.keys()[i]] == self.values()[i],
            forall|k: Seq<char>|
                #[trigger] self@.dom().contains(k) ==> exists|i: int|
                    0 <= i < self.keys().len() && self.keys()[i] == k,
    {
        proof {
            use_type_invariant(self);
            self.lemma_entries_match_view();
        }
        self.entries.len()
    }

    /// The value of the `i`-th entry.
    pub fn value_at(&self, i: usize) -> (r: &V)
        requires
            i < self.values().len(),
        ensures
            *r == self.values()[i as int],
    {
        &self.entries[i].1
    }

    /// Find the position of the entry named `name`.
    fn find(&self, name: &Vec<char>) -> (r: Option<usize>)
        ensures
            match r {
                Some(i) => i < self.entries@.len() && self.entries@[i as int].0@ == name@,
                None => !self@.dom().contains(name@),
            },
    {
        let mut i: usize = 0;
        while i < self.entries.len()
            invariant
                i <= self.entries@.len(),
                forall|j: int| 0 <= j < i ==> self.entries@[j].0@ != name@,
            decreases self.entries.len() - i,
        {
            let key = chars_of(self.entries[i].0.as_str());
            if chars_eq(&key, name) {
                return Some(i);
            }
            i = i + 1;
        }
        None
    }

    /// Look up the value stored under `name`.
    pub fn get(&self, name: &str) -> (r: Option<&V>)
        ensures
            match r {
                Some(v) => self@.dom().contains(name@) && *v == self@[name@],
                None => !self@.dom().contains(name@),
            },
    {
        proof {
            use_type_invariant(self);
        }
        let key = chars_of(name);
        match self.find(&key) {
            Some(i) => {
                proof {
                    let j = self.index_of(name@);
                    assert(self@.dom().contains(name@));
                    assert(self.entries@[j].0@ == name@);
                    if i as int != j {
                        if (i as int) < j {
                            assert(self.entries@[i as int].0@ != self.entries@[j].0@);
                        } else {
                            assert(self.entries@[j].0@ != self.entries@[i as int].0@);
                        }
                    }
                }
                Some(&self.entries[i].1)
            },
            None => None,
        }
    }

    /// Decide whether a value is stored under `name`.
    pub fn contains_key(&self, name: &str) -> (r: bool)
        ensures
            r == self@.dom().contains(name@),
    {
        match self.get(name) {
            Some(_) => true,
            None => false,
        }
    }

    /// Store `value` under `name`, replacing what was stored there.
    pub fn insert(&mut self, name: String, value: V)
        ensures
            final(self)@ == old(self)@.insert(name@, value),
    {
        proof {
            use_type_invariant(&*self);
        }
        let key = chars_of(name.as_str());
        let found = self.find(&key);
        let mut entries: Vec<(String, V)> = Vec::new();
        std::mem::swap(&mut entries, &mut self.entries);
        let ghost old_entries = entries@;
        let ghost old_map = old(self)@;
        match found {
            Some(i) => {
                let _ = entries.remove(i);
                entries.insert(i, (name, value));
            },
            None => {
                entries.push((name, value));
            },
        }
        let ghost new_entries = entries@;
        proof {
            assert forall|a: int, b: int|
                0 <= a < b < new_entries.len() implies #[trigger] new_entries[a].0@
                != #[trigger] new_entries[b].0@ by {
                if let Some(i) = found {
                    if a != i && b != i {
                        assert(new_entries[a] == old_entries[a]);
                        assert(new_entries[b] == old_entries[b]);
                    } else if a == i {
                        assert(new_entries[b] == old_entries[b]);
                        assert(old_entries[a].0@ != old_entries[b].0@);
                    } else {
                        assert(new_entries[a] == old_entries[a]);
                        assert(old_entries[a].0@ != old_entries[b].0@);
                    }
                } else {
                    if b < old_entries.len() {
                        assert(new_entries[a] == old_entries[a]);
                        assert(new_entries[b] == old_entries[b]);
                    } else {
                        assert(new_entries[a] == old_entries[a]);
                        assert(old_map.dom().contains(old_entries[a].0@) ==> true);
                        if old_entries[a].0@ == name@ {
                            assert(exists|t: int|
                                0 <= t < old_entries.len() && old_entries[t].0@ == name@);
                        }
                    }
                }
            }
        }
        self.entries = entries;
        proof {
            let m = self@;
            let target = old_map.insert(name@, value);
            assert forall|k: Seq<char>| #[trigger] m.dom().contains(k) == target.dom().contains(k) by {
                if target.dom().contains(k) {
                    if k == name@ {
                        let t = if let Some(i) = found { i as int } else { old_entries.len() as int };
                        assert(self.entries@[t].0@ == k);
                    } else {
                        let t = choose|t: int| 0 <= t < old_entries.len() && old_entries[t].0@ == k;
                        assert(self.entries@[t] == old_entries[t]);
                    }
                }
                if m.dom().contains(k) {
                    let t = choose|t: int| 0 <= t < self.entries@.len() && self.entries@[t].0@ == k;
                    if k != name@ {
                        assert(self.entries@[t] == old_entries[t]);
                    }
                }
            }
            assert forall|k: Seq<char>| #[trigger] m.dom().contains(k) implies m[k] == target[k] by {
                let t = self.index_of(k);
                assert(0 <= t < self.entries@.len() && self.entries@[t].0@ == k);
                if k == name@ {
                    let u = if let Some(i) = found { i as int } else { old_entries.len() as int };
                    if t != u {
                        if t < u {
                            assert(self.entries@[t].0@ != self.entries@[u].0@);
                        } else {
                            assert(self.entries@[u].0@ != self.entries@[t].0@);
                        }
                    }
                } else {
                    assert(self.entries@[t] == old_entries[t]);
                    let s = choose|s: int| 0 <= s < old_entries.len() && old_entries[s].0@ == k;
                    assert(old_map[k] == old_entries[s].1);
                    if s != t {
                        assert(self.entries@[s] == old_entries[s]);
                        if s < t {
                            assert(self.entries@[s].0@ != self.entries@[t].0@);
                        } else {
                            assert(self.entries@[t].0@ != self.entries@[s].0@);
                        }
                    }
                }
            }
            assert(m =~= target);
        }
    }
}

} // verus!
