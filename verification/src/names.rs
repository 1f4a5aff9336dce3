//! A map from peer names to values.

use vstd::prelude::*;

use crate::text::same_text;

verus! {

/// A map keyed by names, held as a list in which no name occurs twice.
pub struct NameMap<V> {
    entries: Vec<(String, V)>,
}

/// Whether entry `i` of a list has this name.
spec fn names_at<V>(entries: Seq<(String, V)>, i: int, name: Seq<char>) -> bool {
    0 <= i < entries.len() && entries[i].0@ == name
}

/// A position at which the name occurs.
spec fn place<V>(entries: Seq<(String, V)>, name: Seq<char>) -> int {
    choose|i: int| names_at(entries, i, name)
}

impl<V: View> View for NameMap<V> {
    type V = Map<Seq<char>, V::V>;

    closed spec fn view(&self) -> Map<Seq<char>, V::V> {
        Map::new(
            |name: Seq<char>| exists|i: int| names_at(self.entries@, i, name),
            |name: Seq<char>| self.entries@[place(self.entries@, name)].1@,
        )
    }
}

impl<V> NameMap<V> {
    #[verifier::type_invariant]
    spec fn no_name_twice(self) -> bool {
        forall|i: int, j: int|
            #![trigger self.entries@[i], self.entries@[j]]
            0 <= i < j < self.entries@.len() ==> self.entries@[i].0@ != self.entries@[j].0@
    }

}

impl<V: View> NameMap<V> {
    /// The number of names.
    pub closed spec fn count(&self) -> nat {
        self.entries@.len()
    }

    /// The name at position `i` of the list.
    pub closed spec fn name_at(&self, i: int) -> Seq<char> {
        self.entries@[i].0@
    }

    proof fn lemma_entry(&self, i: int)
        requires
            self.no_name_twice(),
            0 <= i < self.entries@.len(),
        ensures
            self@.contains_key(self.entries@[i].0@),
            self@[self.entries@[i].0@] == self.entries@[i].1@,
    {
        let name = self.entries@[i].0@;
        assert(names_at(self.entries@, i, name));
        assert(place(self.entries@, name) == i);
    }

    /// A name is in the map exactly if it stands at some position.
    pub proof fn lemma_names(&self)
        ensures
            forall|name: Seq<char>|
                #[trigger] self@.contains_key(name) ==> exists|i: int|
                    0 <= i < self.count() && #[trigger] self.name_at(i) == name,
    {
        assert forall|name: Seq<char>| #[trigger] self@.contains_key(name) implies exists|i: int|
            0 <= i < self.count() && #[trigger] self.name_at(i) == name by {
            let i = choose|i: int| names_at(self.entries@, i, name);
            assert(self.name_at(i) == name);
        }
    }

    pub fn new() -> (map: NameMap<V>)
        ensures
            map@ == Map::<Seq<char>, V::V>::empty(),
            map.count() == 0,
    {
        let map = NameMap { entries: Vec::new() };
        assert(map@ =~= Map::<Seq<char>, V::V>::empty());
        map
    }

    pub fn len(&self) -> (n: usize)
        ensures
            n == self.count(),
    {
        self.entries.len()
    }

    /// The name and the value at position `i` of the list.
    pub fn entry(&self, i: usize) -> (entry: (&String, &V))
        requires
            i < self.count(),
        ensures
            entry.0@ == self.name_at(i as int),
            self@.contains_key(entry.0@),
            self@[entry.0@] == entry.1@,
    {
        proof {
            use_type_invariant(self);
            self.lemma_entry(i as int);
        }
        (&self.entries[i].0, &self.entries[i].1)
    }

    fn position(&self, name: &str) -> (found: Option<usize>)
        ensures
            match found {
                Some(i) => names_at(self.entries@, i as int, name@) && self@.contains_key(name@)
                    && self@[name@] == self.entries@[i as int].1@,
                None => !self@.contains_key(name@) && forall|i: int|
                    0 <= i < self.entries@.len() ==> #[trigger] self.entries@[i].0@ != name@,
            },
    {
        proof {
            use_type_invariant(self);
        }
        let mut i: usize = 0;
        while i < self.entries.len()
            invariant
                i <= self.entries.len(),
                self.no_name_twice(),
                forall|j: int| 0 <= j < i ==> #[trigger] self.entries@[j].0@ != name@,
            decreases self.entries.len() - i,
        {
            if same_text(self.entries[i].0.as_str(), name) {
                proof {
                    self.lemma_entry(i as int);
                }
                return Some(i);
            }
            i = i + 1;
        }
        proof {
            if self@.contains_key(name@) {
                let j = choose|j: int| names_at(self.entries@, j, name@);
                assert(self.entries@[j].0@ == name@);
            }
        }
        None
    }

    pub fn contains(&self, name: &str) -> (r: bool)
        ensures
            r == self@.contains_key(name@),
    {
        self.position(name).is_some()
    }

    pub fn get(&self, name: &str) -> (value: Option<&V>)
        ensures
            match value {
                Some(v) => self@.contains_key(name@) && self@[name@] == v@,
                None => !self@.contains_key(name@),
            },
    {
        match self.position(name) {
            Some(i) => Some(&self.entries[i].1),
            None => None,
        }
    }

    /// Takes a name and its value out.
    pub fn remove(&mut self, name: &str) -> (value: Option<V>)
        ensures
            final(self)@ == old(self)@.remove(name@),
            match value {
                Some(v) => old(self)@.contains_key(name@) && old(self)@[name@] == v@ && final(self).count() + 1 == old(self).count(),
                None => !old(self)@.contains_key(name@) && final(self)@ == old(self)@ && final(self).count() == old(self).count(),
            },
    {
        proof {
            use_type_invariant(&*self);
        }
        match self.position(name) {
            Some(i) => {
                let (_, value) = self.take(i);
                Some(value)
            },
            None => {
                assert(self@.remove(name@) =~= self@);
                None
            },
        }
    }

    /// Takes the entry at position `i` out.
    fn take(&mut self, i: usize) -> (entry: (String, V))
        requires
            i < old(self).count(),
        ensures
            entry.0@ == old(self).name_at(i as int),
            old(self)@.contains_key(entry.0@),
            old(self)@[entry.0@] == entry.1@,
            final(self)@ == old(self)@.remove(entry.0@),
            final(self).count() + 1 == old(self).count(),
    {
        proof {
            use_type_invariant(&*self);
            self.lemma_entry(i as int);
        }
        let ghost before = *self;
        let mut rest: Vec<(String, V)> = Vec::new();
        std::mem::swap(&mut rest, &mut self.entries);
        let entry = rest.remove(i);
        proof {
            assert forall|a: int, b: int|
                #![trigger rest@[a], rest@[b]]
                0 <= a < b < rest@.len() implies rest@[a].0@ != rest@[b].0@ by {
                let a1 = if a < i { a } else { a + 1 };
                let b1 = if b < i { b } else { b + 1 };
                assert(rest@[a] == before.entries@[a1]);
                assert(rest@[b] == before.entries@[b1]);
            }
        }
        self.entries = rest;
        proof {
            assert forall|name: Seq<char>| #[trigger] self@.contains_key(name)
                == before@.remove(entry.0@).contains_key(name) by {
                if self@.contains_key(name) {
                    let a = choose|a: int| names_at(self.entries@, a, name);
                    let a1 = if a < i { a } else { a + 1 };
                    assert(names_at(before.entries@, a1, name));
                    assert(before.entries@[a1].0@ != before.entries@[i as int].0@);
                }
                if before@.remove(entry.0@).contains_key(name) {
                    let b = choose|b: int| names_at(before.entries@, b, name);
                    let b1 = if b < i { b } else { b - 1 };
                    assert(names_at(self.entries@, b1, name));
                }
            }
            assert forall|name: Seq<char>| self@.contains_key(name) implies #[trigger] self@[name]
                == before@.remove(entry.0@)[name] by {
                let a = choose|a: int| names_at(self.entries@, a, name);
                let a1 = if a < i { a } else { a + 1 };
                self.lemma_entry(a);
                before.lemma_entry(a1);
            }
            assert(self@ =~= before@.remove(entry.0@));
        }
        entry
    }

    /// Takes some entry out, as long as there is one.
    pub fn pop(&mut self) -> (entry: Option<(String, V)>)
        ensures
            match entry {
                Some((name, v)) => {
                    &&& old(self)@.contains_key(name@)
                    &&& old(self)@[name@] == v@
                    &&& final(self)@ == old(self)@.remove(name@)
                    &&& final(self).count() + 1 == old(self).count()
                },
                None => old(self)@ == Map::<Seq<char>, V::V>::empty() && *final(self) == *old(self),
            },
    {
        if self.entries.len() == 0 {
            assert(self@ =~= Map::<Seq<char>, V::V>::empty());
            return None;
        }
        Some(self.take(0))
    }

    /// Binds a name to a value and gives back the value it was bound to.
    pub fn insert(&mut self, name: &str, value: V) -> (previous: Option<V>)
        ensures
            final(self)@ == old(self)@.insert(name@, value@),
            match previous {
                Some(v) => old(self)@.contains_key(name@) && old(self)@[name@] == v@,
                None => !old(self)@.contains_key(name@),
            },
    {
        let ghost start = self@;
        let previous = self.remove(name);
        proof {
            use_type_invariant(&*self);
        }
        let ghost before = *self;
        assert(before@ == start.remove(name@));
        let mut entries: Vec<(String, V)> = Vec::new();
        std::mem::swap(&mut entries, &mut self.entries);
        proof {
            assert forall|i: int| 0 <= i < entries@.len() implies #[trigger] entries@[i].0@
                != name@ by {
                before.lemma_entry(i);
            }
        }
        entries.push((name.to_owned(), value));
        self.entries = entries;
        proof {
            let last = self.entries@.len() - 1;
            assert(self.no_name_twice());
            self.lemma_entry(last);
            assert forall|n: Seq<char>| #[trigger] self@.contains_key(n) == before@.insert(
                name@,
                value@,
            ).contains_key(n) by {
                if self@.contains_key(n) {
                    let a = choose|a: int| names_at(self.entries@, a, n);
                    if a < last {
                        assert(names_at(before.entries@, a, n));
                    }
                }
                if before@.contains_key(n) {
                    let b = choose|b: int| names_at(before.entries@, b, n);
                    assert(names_at(self.entries@, b, n));
                }
            }
            assert forall|n: Seq<char>| self@.contains_key(n) implies #[trigger] self@[n]
                == before@.insert(name@, value@)[n] by {
                let a = choose|a: int| names_at(self.entries@, a, n);
                self.lemma_entry(a);
                if a < last {
                    before.lemma_entry(a);
                }
            }
            assert(self@ =~= before@.insert(name@, value@));
            assert(before@.insert(name@, value@) =~= start.insert(name@, value@));
        }
        previous
    }
}

} // verus!
