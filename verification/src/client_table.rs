//! A table from client names to numbers (last message id, committed index).

use vstd::prelude::*;

verus! {

/// A finite map from client names to `u64`, kept as a list of pairs in
/// which no name occurs twice.
pub struct ClientTable {
    entries: Vec<(String, u64)>,
    model: Ghost<Map<Seq<char>, u64>>,
}

impl View for ClientTable {
    type V = Map<Seq<char>, u64>;

    closed spec fn view(&self) -> Map<Seq<char>, u64> {
        self.model@
    }
}

impl ClientTable {
    /// No name occurs twice, and the pairs are exactly the map.
    pub closed spec fn inv(&self) -> bool {
        &&& forall|i: int, j: int| 0 <= i < j < self.entries@.len() ==> self.entries@[i].0@ != self.entries@[j].0@
        &&& forall|i: int| 0 <= i < self.entries@.len() ==> #[trigger] self.model@.contains_key(self.entries@[i].0@)
            && self.model@[self.entries@[i].0@] == self.entries@[i].1
        &&& forall|k: Seq<char>| #[trigger] self.model@.contains_key(k) ==> exists|i: int| 0 <= i < self.entries@.len() && self.entries@[i].0@ == k
    }

    pub fn new() -> (t: Self)
        ensures
            t.inv(),
            t@ == Map::<Seq<char>, u64>::empty(),
    {
        ClientTable { entries: Vec::new(), model: Ghost(Map::empty()) }
    }

    /// Position of `name` in the list of pairs.
    fn position(&self, name: &String) -> (r: Option<usize>)
        requires
            self.inv(),
        ensures
            match r {
                Some(i) => i < self.entries@.len() && self.entries@[i as int].0@ == name@,
                None => !self@.contains_key(name@),
            },
    {
        let mut i: usize = 0;
        while i < self.entries.len()
            invariant
                self.inv(),
                i <= self.entries@.len(),
                forall|j: int| 0 <= j < i ==> self.entries@[j].0@ != name@,
            decreases self.entries@.len() - i,
        {
            if self.entries[i].0 == *name {
                return Some(i);
            }
            i = i + 1;
        }
        None
    }

    /// The number kept for `name`, if any.
    pub fn get(&self, name: &String) -> (r: Option<u64>)
        requires
            self.inv(),
        ensures
            r == (if self@.contains_key(name@) { Some(self@[name@]) } else { None }),
    {
        match self.position(name) {
            Some(i) => Some(self.entries[i].1),
            None => None,
        }
    }

    /// Sets the number kept for `name`.
    pub fn insert(&mut self, name: &String, value: u64)
        requires
            old(self).inv(),
        ensures
            final(self).inv(),
            final(self)@ == old(self)@.insert(name@, value),
    {
        let ghost old_model = self.model@;
        let ghost old_entries = self.entries@;
        match self.position(name) {
            Some(i) => {
                self.entries.set(i, (name.clone(), value));
                self.model = Ghost(old_model.insert(name@, value));
                proof {
                    assert forall|k: Seq<char>| #[trigger] self.model@.contains_key(k) implies exists|j: int| 0 <= j < self.entries@.len() && self.entries@[j].0@ == k by {
                        if k != name@ {
                            let j = choose|j: int| 0 <= j < old_entries.len() && old_entries[j].0@ == k;
                            assert(self.entries@[j].0@ == k);
                        } else {
                            assert(self.entries@[i as int].0@ == k);
                        }
                    }
                }
            },
            None => {
                self.entries.push((name.clone(), value));
                self.model = Ghost(old_model.insert(name@, value));
                proof {
                    assert forall|k: Seq<char>| #[trigger] self.model@.contains_key(k) implies exists|j: int| 0 <= j < self.entries@.len() && self.entries@[j].0@ == k by {
                        if k != name@ {
                            let j = choose|j: int| 0 <= j < old_entries.len() && old_entries[j].0@ == k;
                            assert(self.entries@[j].0@ == k);
                        } else {
                            assert(self.entries@[old_entries.len() as int].0@ == k);
                        }
                    }
                }
            },
        }
    }

    /// Forgets `name`.
    pub fn remove(&mut self, name: &String)
        requires
            old(self).inv(),
        ensures
            final(self).inv(),
            final(self)@ == old(self)@.remove(name@),
    {
        let ghost old_model = self.model@;
        let ghost old_entries = self.entries@;
        match self.position(name) {
            Some(i) => {
                self.entries.remove(i);
                self.model = Ghost(old_model.remove(name@));
                proof {
                    assert forall|a: int, b: int| 0 <= a < b < self.entries@.len() implies self.entries@[a].0@ != self.entries@[b].0@ by {
                        let a0 = if a < i { a } else { a + 1 };
                        let b0 = if b < i { b } else { b + 1 };
                        assert(self.entries@[a] == old_entries[a0]);
                        assert(self.entries@[b] == old_entries[b0]);
                    }
                    assert forall|a: int| 0 <= a < self.entries@.len() implies #[trigger] self.model@.contains_key(self.entries@[a].0@)
                        && self.model@[self.entries@[a].0@] == self.entries@[a].1 by {
                        let a0 = if a < i { a } else { a + 1 };
                        assert(self.entries@[a] == old_entries[a0]);
                        if a0 < i {
                            assert(old_entries[a0].0@ != old_entries[i as int].0@);
                        } else {
                            assert(old_entries[i as int].0@ != old_entries[a0].0@);
                        }
                        assert(old_model.contains_key(old_entries[a0].0@));
                    }
                    assert forall|k: Seq<char>| #[trigger] self.model@.contains_key(k) implies exists|j: int| 0 <= j < self.entries@.len() && self.entries@[j].0@ == k by {
                        let j = choose|j: int| 0 <= j < old_entries.len() && old_entries[j].0@ == k;
                        assert(j != i);
                        let j1 = if j < i { j } else { j - 1 };
                        assert(self.entries@[j1] == old_entries[j]);
                    }
                }
            },
            None => {
                proof {
                    assert(old_model.remove(name@) =~= old_model);
                }
            },
        }
    }

    /// A copy of the table.
    pub fn duplicate(&self) -> (r: Self)
        requires
            self.inv(),
        ensures
            r.inv(),
            r@ == self@,
    {
        let mut entries: Vec<(String, u64)> = Vec::new();
        let mut i: usize = 0;
        while i < self.entries.len()
            invariant
                self.inv(),
                i <= self.entries@.len(),
                entries@.len() == i,
                forall|j: int| 0 <= j < i ==> entries@[j].0@ == self.entries@[j].0@ && entries@[j].1 == self.entries@[j].1,
            decreases self.entries@.len() - i,
        {
            let k = self.entries[i].0.clone();
            entries.push((k, self.entries[i].1));
            i = i + 1;
        }
        let r = ClientTable { entries, model: Ghost(self.model@) };
        proof {
            assert forall|k: Seq<char>| #[trigger] r.model@.contains_key(k) implies exists|j: int| 0 <= j < r.entries@.len() && r.entries@[j].0@ == k by {
                let j = choose|j: int| 0 <= j < self.entries@.len() && self.entries@[j].0@ == k;
                assert(r.entries@[j].0@ == k);
            }
        }
        r
    }
}

} // verus!
