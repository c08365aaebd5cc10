//! A map keyed by names (strings), kept as a list of entries whose names are
//! pairwise distinct; its model is a `Map` from the names' characters.
use vstd::prelude::*;

verus! {

/// A finite map from names to values.
pub struct NameMap<V> {
    entries: Vec<(String, V)>,
}

impl<V> NameMap<V> {
    /// The names of the entries, in storage order.
    pub closed spec fn names(self) -> Seq<Seq<char>> {
        self.entries@.map_values(|e: (String, V)| e.0@)
    }

    /// No name is stored twice.
    #[verifier::type_invariant]
    closed spec fn names_distinct(self) -> bool {
        self.names().no_duplicates()
    }

    proof fn lemma_entry(self, i: int)
        requires
            self.names().no_duplicates(),
            0 <= i < self.entries@.len(),
        ensures
            self@.contains_key(self.entries@[i].0@),
            self@[self.entries@[i].0@] == self.entries@[i].1,
    {
        let k = self.entries@[i].0@;
        assert(self.names()[i] == k);
        assert(self.names().contains(k));
        let j = self.names().index_of(k);
        assert(self.names()[j] == k);
    }

    proof fn lemma_absent(self, k: Seq<char>)
        requires
            forall|i: int| 0 <= i < self.entries@.len() ==> self.entries@[i].0@ != k,
        ensures
            !self@.contains_key(k),
    {
        if self.names().contains(k) {
            let j = choose|j: int| 0 <= j < self.names().len() && self.names()[j] == k;
            assert(self.entries@[j].0@ == k);
        }
    }

    /// The empty map.
    pub fn new() -> (m: Self)
        ensures
            m@ == Map::<Seq<char>, V>::empty(),
    {
        let m = NameMap { entries: Vec::new() };
        assert(m.names() =~= Seq::<Seq<char>>::empty());
        assert(m@ =~= Map::<Seq<char>, V>::empty());
        m
    }

    /// The position of the entry named `k`.
    fn position(&self, k: &String) -> (r: Option<usize>)
        ensures
            match r {
                Some(i) => i < self.entries@.len() && self.entries@[i as int].0@ == k@,
                None => forall|i: int| 0 <= i < self.entries@.len() ==> self.entries@[i].0@ != k@,
            },
    {
        let mut i: usize = 0;
        while i < self.entries.len()
            invariant
                i <= self.entries@.len(),
                forall|j: int| 0 <= j < i ==> self.entries@[j].0@ != k@,
            decreases self.entries@.len() - i,
        {
            if self.entries[i].0 == *k {
                return Some(i);
            }
            i = i + 1;
        }
        None
    }

    /// Whether an entry is named `k`.
    pub fn contains_key(&self, k: &String) -> (b: bool)
        ensures
            b == self@.contains_key(k@),
    {
        proof {
            use_type_invariant(self);
        }
        match self.position(k) {
            Some(i) => {
                proof {
                    self.lemma_entry(i as int);
                }
                true
            },
            None => {
                proof {
                    self.lemma_absent(k@);
                }
                false
            },
        }
    }

    /// The value named `k`.
    pub fn get(&self, k: &String) -> (r: Option<&V>)
        ensures
            match r {
                Some(v) => self@.contains_key(k@) && *v == self@[k@],
                None => !self@.contains_key(k@),
            },
    {
        proof {
            use_type_invariant(self);
        }
        match self.position(k) {
            Some(i) => {
                proof {
                    self.lemma_entry(i as int);
                }
                Some(&self.entries[i].1)
            },
            None => {
                proof {
                    self.lemma_absent(k@);
                }
                None
            },
        }
    }

    /// Names `v` by `k`, replacing any value named `k` before.
    pub fn insert(&mut self, k: String, v: V)
        ensures
            final(self)@ == old(self)@.insert(k@, v),
    {
        proof {
            use_type_invariant(&*self);
        }
        let ghost old_self = *self;
        let ghost kv = k@;
        match self.position(&k) {
            Some(i) => {
                let ghost target = old_self@.insert(kv, v);
                proof {
                    assert(old_self.entries@.update(i as int, (k, v)).map_values(
                        |e: (String, V)| e.0@,
                    ) =~= old_self.names());
                }
                let mut entries = Vec::new();
                std::mem::swap(&mut entries, &mut self.entries);
                entries.set(i, (k, v));
                proof {
                    assert(entries@.map_values(|e: (String, V)| e.0@) =~= old_self.names());
                }
                self.entries = entries;
                proof {
                    assert(self.names() =~= old_self.names());
                    assert forall|key: Seq<char>| #[trigger]
                        self@.contains_key(key) == target.contains_key(key) by {
                        if self@.contains_key(key) {
                            let j = choose|j: int|
                                0 <= j < self.names().len() && self.names()[j] == key;
                            old_self.lemma_entry(j);
                        }
                        if old_self@.contains_key(key) {
                            let j = choose|j: int|
                                0 <= j < old_self.names().len() && old_self.names()[j] == key;
                            self.lemma_entry(j);
                        }
                        self.lemma_entry(i as int);
                    }
                    assert forall|key: Seq<char>| #[trigger]
                        self@.contains_key(key) implies self@[key] == target[key] by {
                        let j = choose|j: int|
                            0 <= j < self.names().len() && self.names()[j] == key;
                        self.lemma_entry(j);
                        if j != i {
                            assert(self.entries@[j] == old_self.entries@[j]);
                            assert(old_self.names()[j] != old_self.names()[i as int]);
                            old_self.lemma_entry(j);
                        } else {
                            assert(self.entries@[j].1 == v);
                        }
                    }
                    assert(self@ =~= target);
                }
            },
            None => {
                let ghost target = old_self@.insert(kv, v);
                proof {
                    assert(old_self.entries@.push((k, v)).map_values(|e: (String, V)| e.0@)
                        =~= old_self.names().push(kv));
                }
                let mut entries = Vec::new();
                std::mem::swap(&mut entries, &mut self.entries);
                entries.push((k, v));
                proof {
                    assert(entries@.map_values(|e: (String, V)| e.0@) =~= old_self.names().push(kv));
                }
                self.entries = entries;
                proof {
                    assert(self.names() =~= old_self.names().push(kv));
                    let n = old_self.entries@.len() as int;
                    self.lemma_entry(n);
                    assert forall|key: Seq<char>| #[trigger]
                        self@.contains_key(key) == target.contains_key(key) by {
                        if self@.contains_key(key) && key != kv {
                            let j = choose|j: int|
                                0 <= j < self.names().len() && self.names()[j] == key;
                            old_self.lemma_entry(j);
                        }
                        if old_self@.contains_key(key) {
                            let j = choose|j: int|
                                0 <= j < old_self.names().len() && old_self.names()[j] == key;
                            self.lemma_entry(j);
                        }
                    }
                    assert forall|key: Seq<char>| #[trigger]
                        self@.contains_key(key) implies self@[key] == target[key] by {
                        let j = choose|j: int|
                            0 <= j < self.names().len() && self.names()[j] == key;
                        self.lemma_entry(j);
                        if j != n {
                            old_self.lemma_entry(j);
                        }
                    }
                    assert(self@ =~= target);
                }
            },
        }
    }

    /// Removes the entry named `k` and hands back its value.
    pub fn take(&mut self, k: &String) -> (r: Option<V>)
        ensures
            match r {
                Some(v) => old(self)@.contains_key(k@) && v == old(self)@[k@] && final(self)@
                    == old(self)@.remove(k@),
                None => !old(self)@.contains_key(k@) && final(self)@ == old(self)@,
            },
    {
        proof {
            use_type_invariant(&*self);
        }
        let ghost old_self = *self;
        match self.position(k) {
            None => {
                proof {
                    old_self.lemma_absent(k@);
                }
                None
            },
            Some(i) => {
                proof {
                    old_self.lemma_entry(i as int);
                    assert(old_self.entries@.remove(i as int).map_values(|e: (String, V)| e.0@)
                        =~= old_self.names().remove(i as int));
                }
                let mut entries = Vec::new();
                std::mem::swap(&mut entries, &mut self.entries);
                let (_, v) = entries.remove(i);
                proof {
                    assert(entries@.map_values(|e: (String, V)| e.0@) =~= old_self.names().remove(
                        i as int,
                    ));
                }
                self.entries = entries;
                proof {
                    let target = old_self@.remove(k@);
                    assert(self.names() =~= old_self.names().remove(i as int));
                    assert forall|key: Seq<char>| #[trigger]
                        self@.contains_key(key) == target.contains_key(key) by {
                        if self@.contains_key(key) {
                            let j = choose|j: int|
                                0 <= j < self.names().len() && self.names()[j] == key;
                            self.lemma_entry(j);
                            let jj = if j < i { j } else { j + 1 };
                            assert(self.entries@[j] == old_self.entries@[jj]);
                            assert(old_self.names()[jj] == key);
                            assert(old_self.names()[i as int] == k@);
                            assert(jj != i);
                            assert(key != k@);
                            old_self.lemma_entry(jj);
                        }
                        if target.contains_key(key) {
                            assert(old_self@.contains_key(key));
                            let j = choose|j: int|
                                0 <= j < old_self.names().len() && old_self.names()[j] == key;
                            assert(j != i);
                            let jj = if j < i { j } else { j - 1 };
                            assert(self.entries@[jj] == old_self.entries@[j]);
                            assert(self.names()[jj] == key);
                            self.lemma_entry(jj);
                        }
                    }
                    assert forall|key: Seq<char>| #[trigger]
                        self@.contains_key(key) implies self@[key] == target[key] by {
                        let j = choose|j: int|
                            0 <= j < self.names().len() && self.names()[j] == key;
                        self.lemma_entry(j);
                        let jj = if j < i { j } else { j + 1 };
                        assert(self.entries@[j] == old_self.entries@[jj]);
                        assert(old_self.names()[jj] == key);
                        old_self.lemma_entry(jj);
                    }
                    assert(self@ =~= target);
                }
                Some(v)
            },
        }
    }
}

impl NameMap<String> {
    /// A copy holding the same names and values.
    pub fn copy(&self) -> (c: Self)
        ensures
            c@ == self@,
    {
        proof {
            use_type_invariant(self);
        }
        let mut entries: Vec<(String, String)> = Vec::new();
        let mut i: usize = 0;
        while i < self.entries.len()
            invariant
                i <= self.entries@.len(),
                entries@ == self.entries@.take(i as int),
            decreases self.entries@.len() - i,
        {
            let name = self.entries[i].0.clone();
            let value = self.entries[i].1.clone();
            entries.push((name, value));
            i = i + 1;
            assert(entries@ =~= self.entries@.take(i as int));
        }
        assert(entries@ =~= self.entries@);
        NameMap { entries }
    }
}

impl<V> View for NameMap<V> {
    type V = Map<Seq<char>, V>;

    /// Each stored name, mapped to its value.
    closed spec fn view(&self) -> Map<Seq<char>, V> {
        Map::new(
            |k: Seq<char>| self.names().contains(k),
            |k: Seq<char>| self.entries@[self.names().index_of(k)].1,
        )
    }
}

} // verus!
