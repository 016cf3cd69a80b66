//! Tables keyed by name.
use vstd::prelude::*;

verus! {

/// A table from names to values.
///
/// Its view is the map from each name to the value stored under it.
pub struct Table<V> {
    entries: Vec<(String, V)>,
}

impl<V> View for Table<V> {
    type V = Map<Seq<char>, V>;

    closed spec fn view(&self) -> Map<Seq<char>, V> {
        Map::new(|k: Seq<char>| self.has(k), |k: Seq<char>| self.entries[self.slot(k)].1)
    }
}

impl<V> Table<V> {
    /// Entry `i` is the first one stored under `name`.
    closed spec fn first(&self, name: Seq<char>, i: int) -> bool {
        &&& 0 <= i < self.entries.len()
        &&& self.entries[i].0@ == name
        &&& forall|j: int| 0 <= j < i ==> (#[trigger] self.entries[j]).0@ != name
    }

    closed spec fn has(&self, name: Seq<char>) -> bool {
        exists|i: int| self.first(name, i)
    }

    closed spec fn slot(&self, name: Seq<char>) -> int {
        choose|i: int| self.first(name, i)
    }

    proof fn first_is_unique(&self, name: Seq<char>, i: int, j: int)
        requires
            self.first(name, i),
            self.first(name, j),
        ensures
            i == j,
    {
        if i < j {
            assert(self.entries[i].0@ == name);
        } else if j < i {
            assert(self.entries[j].0@ == name);
        }
    }

    proof fn slot_is_first(&self, name: Seq<char>, i: int)
        requires
            self.first(name, i),
        ensures
            self.has(name),
            self.slot(name) == i,
    {
        self.first_is_unique(name, i, self.slot(name));
    }

    /// The empty table.
    pub fn new() -> (r: Self)
        ensures
            r@ == Map::<Seq<char>, V>::empty(),
    {
        let r = Table { entries: Vec::new() };
        assert(r@ =~= Map::<Seq<char>, V>::empty());
        r
    }

    fn position(&self, name: &str) -> (r: Option<usize>)
        ensures
            match r {
                Some(i) => self.first(name@, i as int),
                None => !self.has(name@) && forall|j: int|
                    0 <= j < self.entries.len() ==> (#[trigger] self.entries[j]).0@ != name@,
            },
    {
        let mut i: usize = 0;
        while i < self.entries.len()
            invariant
                i <= self.entries.len(),
                forall|j: int| 0 <= j < i ==> (#[trigger] self.entries[j]).0@ != name@,
            decreases self.entries.len() - i,
        {
            if *self.entries[i].0.as_str() == *name {
                return Some(i);
            }
            i += 1;
        }
        assert forall|k: int| !self.first(name@, k) by {
            if 0 <= k < self.entries.len() {
                assert(self.entries[k].0@ != name@);
            }
        }
        None
    }

    /// Whether `name` is in the table.
    pub fn contains_key(&self, name: &str) -> (r: bool)
        ensures
            r == self@.contains_key(name@),
    {
        let found = self.position(name);
        proof {
            if let Some(i) = found {
                self.slot_is_first(name@, i as int);
            }
        }
        found.is_some()
    }

    /// Stores `value` under `name`, in place of what was stored under it before.
    pub fn insert(&mut self, name: String, value: V)
        ensures
            final(self)@ == old(self)@.insert(name@, value),
    {
        let ghost before = *self;
        let ghost key = name@;
        let found = self.position(name.as_str());
        let ghost at: int = match found {
            Some(i) => i as int,
            None => self.entries.len() as int,
        };
        match found {
            Some(i) => {
                self.entries.set(i, (name, value));
            },
            None => {
                self.entries.push((name, value));
            },
        }
        proof {
            let after = *self;
            assert forall|k: Seq<char>, i: int|
                k != key implies (before.first(k, i) <==> after.first(k, i)) by {
                if before.first(k, i) {
                    assert forall|j: int| 0 <= j < i implies (#[trigger] after.entries[j]).0@
                        != k by {
                        assert(before.entries[j].0@ != k);
                    }
                }
                if after.first(k, i) {
                    assert(i < before.entries.len());
                    assert forall|j: int| 0 <= j < i implies (#[trigger] before.entries[j]).0@
                        != k by {
                        assert(after.entries[j].0@ != k);
                    }
                }
            }
            assert(after.first(key, at)) by {
                assert forall|j: int| 0 <= j < at implies (#[trigger] after.entries[j]).0@
                    != key by {
                    assert(before.entries[j].0@ != key);
                }
            }
            after.slot_is_first(key, at);
            assert forall|k: Seq<char>| after.has(k) <==> (k == key || before.has(k)) by {
                if k != key {
                    if after.has(k) {
                        assert(before.first(k, after.slot(k)));
                    }
                    if before.has(k) {
                        assert(after.first(k, before.slot(k)));
                    }
                }
            }
            assert forall|k: Seq<char>| after.has(k) implies after@[k] == before@.insert(
                key,
                value,
            )[k] by {
                if k != key {
                    assert(before.first(k, after.slot(k)));
                    before.slot_is_first(k, after.slot(k));
                }
            }
            assert(after@ =~= before@.insert(key, value));
        }
    }
}

impl<V: Copy> Table<V> {
    /// The value stored under `name`, if there is one.
    pub fn get(&self, name: &str) -> (r: Option<V>)
        ensures
            r == (if self@.contains_key(name@) {
                Some(self@[name@])
            } else {
                None
            }),
    {
        match self.position(name) {
            Some(i) => {
                proof {
                    self.slot_is_first(name@, i as int);
                }
                Some(self.entries[i].1)
            },
            None => None,
        }
    }
}

} // verus!
