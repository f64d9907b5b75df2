//! A map from names to values, for the few names of a game: it is searched
//! from end to end.
use vstd::prelude::*;

verus! {

struct Slot<V> {
    key: String,
    value: V,
}

/// A map keyed by strings. No name occurs in it twice.
pub struct StringMap<V> {
    slots: Vec<Slot<V>>,
}

impl<V> StringMap<V> {
    spec fn names(self) -> Seq<Seq<char>> {
        Seq::new(self.slots@.len(), |i: int| self.slots@[i].key@)
    }

    /// No name occurs twice, and the map has as many names as entries.
    pub closed spec fn wf(self) -> bool {
        &&& self.names().no_duplicates()
        &&& self@.dom().finite()
        &&& self@.dom().len() == self.slots@.len()
    }

    /// The map as a mathematical map from names to values.
    pub closed spec fn view(self) -> Map<Seq<char>, V> {
        Map::new(
            |name: Seq<char>| self.names().contains(name),
            |name: Seq<char>| self.slots@[self.names().index_of(name)].value,
        )
    }

    proof fn lemma_slot(self, i: int)
        requires
            self.names().no_duplicates(),
            0 <= i < self.slots@.len(),
        ensures
            self@.contains_key(self.slots@[i].key@),
            self@[self.slots@[i].key@] == self.slots@[i].value,
            self.names().index_of(self.slots@[i].key@) == i,
    {
        let names = self.names();
        assert(names[i] == self.slots@[i].key@);
        assert(names.contains(names[i]));
        let j = names.index_of(names[i]);
        assert(0 <= j < names.len() && names[j] == names[i]);
    }

    /// A map without entries.
    pub fn new() -> (map: Self)
        ensures
            map.wf(),
            map@ == Map::<Seq<char>, V>::empty(),
    {
        let map = StringMap { slots: Vec::new() };
        proof {
            assert(map.names() =~= Seq::<Seq<char>>::empty());
            assert(map@ =~= Map::<Seq<char>, V>::empty());
        }
        map
    }

    /// The number of entries.
    pub fn len(&self) -> (len: usize)
        requires
            self.wf(),
        ensures
            len == self@.dom().len(),
    {
        self.slots.len()
    }

    /// Whether the map has no entry.
    pub fn is_empty(&self) -> (empty: bool)
        requires
            self.wf(),
        ensures
            empty == (self@ == Map::<Seq<char>, V>::empty()),
    {
        proof {
            if self.slots@.len() == 0 {
                assert(self.names() =~= Seq::<Seq<char>>::empty());
                assert(self@ =~= Map::<Seq<char>, V>::empty());
            } else {
                self.lemma_slot(0);
            }
        }
        self.slots.len() == 0
    }

    fn position(&self, key: &String) -> (found: Option<usize>)
        requires
            self.names().no_duplicates(),
        ensures
            match found {
                Some(i) => i < self.slots@.len() && self.slots@[i as int].key@ == key@,
                None => !self@.contains_key(key@),
            },
    {
        let mut i: usize = 0;
        while i < self.slots.len()
            invariant
                i <= self.slots@.len(),
                forall|j: int| 0 <= j < i ==> self.slots@[j].key@ != key@,
            decreases self.slots@.len() - i,
        {
            if self.slots[i].key == *key {
                return Some(i);
            }
            i += 1;
        }
        proof {
            if self.names().contains(key@) {
                let j = self.names().index_of(key@);
                assert(self.names()[j] == key@);
            }
        }
        None
    }

    /// The value under `key`, if the map has one.
    pub fn get(&self, key: &str) -> (value: Option<&V>)
        requires
            self.wf(),
        ensures
            match value {
                Some(v) => self@.contains_key(key@) && *v == self@[key@],
                None => !self@.contains_key(key@),
            },
    {
        let owned = key.to_owned();
        match self.position(&owned) {
            Some(i) => {
                proof {
                    self.lemma_slot(i as int);
                }
                Some(&self.slots[i].value)
            },
            None => None,
        }
    }

    /// Whether the map has a value under `key`.
    pub fn contains_key(&self, key: &str) -> (held: bool)
        requires
            self.wf(),
        ensures
            held == self@.contains_key(key@),
    {
        let owned = key.to_owned();
        match self.position(&owned) {
            Some(i) => {
                proof {
                    self.lemma_slot(i as int);
                }
                true
            },
            None => false,
        }
    }

    /// Puts `value` under `key`, in place of the value that was there, if any.
    pub fn insert(&mut self, key: String, value: V)
        requires
            old(self).wf(),
        ensures
            final(self).wf(),
            final(self)@ == old(self)@.insert(key@, value),
    {
        let found = self.position(&key);
        let ghost before = *self;
        match found {
            Some(i) => {
                proof {
                    before.lemma_slot(i as int);
                }
                self.slots[i] = Slot { key, value };
                proof {
                    assert(self.names() =~= before.names());
                    assert(self@ =~= before@.insert(key@, value)) by {
                        assert forall|name: Seq<char>| self@.contains_key(name) implies self@[name]
                            == before@.insert(key@, value)[name] by {
                            let j = self.names().index_of(name);
                            assert(self.names()[j] == name);
                        }
                    }
                    assert(self@.dom() =~= before@.dom());
                }
            },
            None => {
                self.slots.push(Slot { key, value });
                proof {
                    let n = before.slots@.len() as int;
                    assert(self.names() =~= before.names().push(key@));
                    assert(!before.names().contains(key@));
                    assert(self.names().no_duplicates()) by {
                        assert forall|i: int, j: int|
                            0 <= i < self.names().len() && 0 <= j < self.names().len() && i != j
                            implies self.names()[i] != self.names()[j] by {
                            if i < n && j < n {
                                assert(before.names()[i] != before.names()[j]);
                            } else if i < n {
                                assert(before.names().contains(before.names()[i]));
                            } else {
                                assert(before.names().contains(before.names()[j]));
                            }
                        }
                    }
                    assert forall|name: Seq<char>| self@.contains_key(name) <==> before@.insert(
                        key@,
                        value,
                    ).contains_key(name) by {
                        if self.names().contains(name) {
                            let j = self.names().index_of(name);
                            assert(self.names()[j] == name);
                            if j < n {
                                assert(before.names()[j] == name);
                            }
                        }
                        if before.names().contains(name) {
                            let j = before.names().index_of(name);
                            assert(before.names()[j] == name);
                            assert(self.names()[j] == name);
                        }
                        if name == key@ {
                            assert(self.names()[n] == name);
                        }
                    }
                    assert forall|name: Seq<char>| self@.contains_key(name) implies self@[name]
                        == before@.insert(key@, value)[name] by {
                        let j = self.names().index_of(name);
                        assert(self.names()[j] == name);
                        if j < n {
                            before.lemma_slot(j);
                            assert(before.slots@[j].key@ == name);
                        } else {
                            assert(name == key@);
                        }
                    }
                    assert(self@ =~= before@.insert(key@, value));
                    assert(self@.dom() =~= before@.dom().insert(key@));
                }
            },
        }
    }

    /// Takes the entry under `key` out of the map, if there is one.
    pub fn remove(&mut self, key: &str)
        requires
            old(self).wf(),
        ensures
            final(self).wf(),
            final(self)@ == old(self)@.remove(key@),
    {
        let owned = key.to_owned();
        let found = self.position(&owned);
        let ghost before = *self;
        match found {
            Some(i) => {
                proof {
                    before.lemma_slot(i as int);
                }
                self.slots.remove(i);
                proof {
                    assert(self.names() =~= before.names().remove(i as int));
                    assert(self.names().no_duplicates()) by {
                        assert forall|a: int, b: int|
                            0 <= a < self.names().len() && 0 <= b < self.names().len() && a != b
                            implies self.names()[a] != self.names()[b] by {
                            let a0 = if a < i { a } else { a + 1 };
                            let b0 = if b < i { b } else { b + 1 };
                            assert(before.names()[a0] != before.names()[b0]);
                        }
                    }
                    assert forall|name: Seq<char>| self@.contains_key(name) <==> before@.remove(
                        key@,
                    ).contains_key(name) by {
                        if self.names().contains(name) {
                            let j = self.names().index_of(name);
                            assert(self.names()[j] == name);
                            let j0 = if j < i { j } else { j + 1 };
                            assert(before.names()[j0] == name);
                        }
                        if before.names().contains(name) && name != key@ {
                            let j = before.names().index_of(name);
                            assert(before.names()[j] == name);
                            let j1 = if j < i { j } else { j - 1 };
                            assert(self.names()[j1] == name);
                        }
                    }
                    assert forall|name: Seq<char>| self@.contains_key(name) implies self@[name]
                        == before@.remove(key@)[name] by {
                        let j = self.names().index_of(name);
                        assert(self.names()[j] == name);
                        let j0 = if j < i { j } else { j + 1 };
                        before.lemma_slot(j0);
                    }
                    assert(self@ =~= before@.remove(key@));
                    assert(self@.dom() =~= before@.dom().remove(key@));
                }
            },
            None => {
                proof {
                    assert(self@ =~= before@.remove(key@));
                }
            },
        }
    }

    /// The names in the map, each once.
    pub fn keys(&self) -> (keys: Vec<String>)
        requires
            self.wf(),
        ensures
            keys@.len() == self@.dom().len(),
            forall|i: int, j: int| 0 <= i < j < keys@.len() ==> keys@[i]@ != keys@[j]@,
            forall|i: int| 0 <= i < keys@.len() ==> self@.contains_key(#[trigger] keys@[i]@),
            forall|name: Seq<char>|
                self@.contains_key(name) ==> exists|i: int|
                    0 <= i < keys@.len() && #[trigger] keys@[i]@ == name,
    {
        let mut keys: Vec<String> = Vec::new();
        let mut i: usize = 0;
        while i < self.slots.len()
            invariant
                self.wf(),
                i <= self.slots@.len(),
                keys@.len() == i,
                forall|j: int| 0 <= j < i ==> (#[trigger] keys@[j])@ == self.slots@[j].key@,
            decreases self.slots@.len() - i,
        {
            keys.push(self.slots[i].key.clone());
            i += 1;
        }
        proof {
            assert forall|a: int, b: int| 0 <= a < b < keys@.len() implies keys@[a]@ != keys@[b]@ by {
                assert(self.names()[a] != self.names()[b]);
            }
            assert forall|a: int| 0 <= a < keys@.len() implies self@.contains_key(
                #[trigger] keys@[a]@,
            ) by {
                self.lemma_slot(a);
            }
            assert forall|name: Seq<char>| self@.contains_key(name) implies exists|a: int|
                0 <= a < keys@.len() && #[trigger] keys@[a]@ == name by {
                let j = self.names().index_of(name);
                assert(self.names()[j] == name);
                assert(keys@[j]@ == name);
            }
        }
        keys
    }

    /// Takes every entry out of the map.
    pub fn clear(&mut self)
        ensures
            final(self).wf(),
            final(self)@ == Map::<Seq<char>, V>::empty(),
    {
        self.slots.clear();
        proof {
            assert(self.names() =~= Seq::<Seq<char>>::empty());
            assert(self@ =~= Map::<Seq<char>, V>::empty());
        }
    }
}

} // verus!
