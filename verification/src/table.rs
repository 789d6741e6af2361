//! A table from names to values.
//!
//! The table is kept as a list of entries in which no name stands twice.
//! Its view is the map from each name to its value; the order of the
//! entries is the order in which the names were first inserted.

use vstd::prelude::*;

verus! {

/// The map that a list of entries collects into: where a name stands more
/// than once, the last entry counts.
pub open spec fn collected<T>(entries: Seq<(String, T)>) -> Map<Seq<char>, T>
    decreases entries.len(),
{
    if entries.len() == 0 {
        Map::empty()
    } else {
        collected(entries.drop_last()).insert(entries.last().0@, entries.last().1)
    }
}

/// A table from names to values, in which each name stands once. `==`
/// compares the entries in their order.
#[derive(Debug, PartialEq, Eq)]
pub struct Table<T> {
    entries: Vec<(String, T)>,
}

impl<T> View for Table<T> {
    type V = Map<Seq<char>, T>;

    closed spec fn view(&self) -> Map<Seq<char>, T> {
        Map::new(
            |name: Seq<char>| self.names().contains(name),
            |name: Seq<char>| self.values()[self.names().index_of(name)],
        )
    }
}

impl<T> Table<T> {
    /// The names in the order of the entries.
    pub closed spec fn names(&self) -> Seq<Seq<char>> {
        Seq::new(self.entries@.len(), |i: int| self.entries@[i].0@)
    }

    /// The values in the order of the entries.
    pub closed spec fn values(&self) -> Seq<T> {
        Seq::new(self.entries@.len(), |i: int| self.entries@[i].1)
    }

    #[verifier::type_invariant]
    spec fn no_name_twice(&self) -> bool {
        self.names().no_duplicates()
    }

    /// How the entries and the map belong together: there are as many
    /// values as names, no name stands twice, the names are the domain of
    /// the map, and the map sends each name to the value beside it.
    pub open spec fn well_formed(&self) -> bool {
        &&& self.values().len() == self.names().len()
        &&& self.names().no_duplicates()
        &&& self@.dom() == self.names().to_set()
        &&& self@.dom().finite()
        &&& self@.len() == self.names().len()
        &&& forall|i: int|
            0 <= i < self.names().len() ==> self@[#[trigger] self.names()[i]] == self.values()[i]
    }

    proof fn lemma_well_formed(&self)
        requires
            self.names().no_duplicates(),
        ensures
            self.well_formed(),
    {
        let names = self.names();
        assert(self@.dom() =~= names.to_set());
        names.unique_seq_to_set();
        vstd::seq_lib::seq_to_set_is_finite(names);
        assert forall|i: int| 0 <= i < names.len() implies self@[#[trigger] names[i]]
            == self.values()[i] by {
            let k = names.index_of(names[i]);
            assert(0 <= k < names.len() && names[k] == names[i]);
        }
    }

    /// The empty table.
    pub fn new() -> (table: Table<T>)
        ensures
            table@ == Map::<Seq<char>, T>::empty(),
            table.names() == Seq::<Seq<char>>::empty(),
            table.well_formed(),
    {
        let table = Table { entries: Vec::new() };
        proof {
            assert(table.names() =~= Seq::<Seq<char>>::empty());
            assert(table@ =~= Map::<Seq<char>, T>::empty());
            table.lemma_well_formed();
        }
        table
    }

    /// The number of entries.
    pub fn len(&self) -> (n: usize)
        ensures
            n == self.names().len(),
            self.well_formed(),
    {
        proof {
            use_type_invariant(self);
            self.lemma_well_formed();
        }
        self.entries.len()
    }

    /// The name of the `i`-th entry.
    pub fn name(&self, i: usize) -> (name: &String)
        requires
            i < self.names().len(),
        ensures
            name@ == self.names()[i as int],
    {
        &self.entries[i].0
    }

    /// The value of the `i`-th entry.
    pub fn value(&self, i: usize) -> (value: &T)
        requires
            i < self.names().len(),
        ensures
            *value == self.values()[i as int],
            *value == self@[self.names()[i as int]],
            self.well_formed(),
    {
        proof {
            use_type_invariant(self);
            self.lemma_well_formed();
        }
        &self.entries[i].1
    }

    /// Where the entry called `name` stands, if there is one.
    pub fn position(&self, name: &String) -> (found: Option<usize>)
        ensures
            self.well_formed(),
            match found {
                Some(i) => i < self.names().len() && self.names()[i as int] == name@,
                None => !self@.dom().contains(name@),
            },
    {
        proof {
            use_type_invariant(self);
            self.lemma_well_formed();
        }
        let mut i: usize = 0;
        while i < self.entries.len()
            invariant
                i <= self.entries@.len(),
                self.well_formed(),
                forall|j: int| 0 <= j < i ==> self.names()[j] != name@,
            decreases self.entries@.len() - i,
        {
            if self.entries[i].0 == *name {
                return Some(i);
            }
            i += 1;
        }
        None
    }

    /// The value of the entry called `name`, if there is one.
    pub fn get(&self, name: &String) -> (found: Option<&T>)
        ensures
            match found {
                Some(value) => self@.dom().contains(name@) && *value == self@[name@],
                None => !self@.dom().contains(name@),
            },
    {
        match self.position(name) {
            Some(i) => Some(self.value(i)),
            None => None,
        }
    }

    /// Puts `value` under `name`. A value that stood under `name` is
    /// replaced, keeps its place in the order, and is returned; a new name
    /// goes to the end.
    pub fn insert(&mut self, name: String, value: T) -> (replaced: Option<T>)
        ensures
            final(self)@ == old(self)@.insert(name@, value),
            final(self).well_formed(),
            match replaced {
                Some(before) => {
                    &&& old(self)@.dom().contains(name@)
                    &&& before == old(self)@[name@]
                    &&& final(self).names() == old(self).names()
                },
                None => {
                    &&& !old(self)@.dom().contains(name@)
                    &&& final(self).names() == old(self).names().push(name@)
                    &&& final(self).values() == old(self).values().push(value)
                },
            },
    {
        match self.position(&name) {
            Some(i) => {
                Some(self.replace(i, value))
            },
            None => {
                let ghost names = self.names();
                let ghost values = self.values();
                let ghost before = self@;
                let ghost added = name@;
                let mut entries: Vec<(String, T)> = Vec::new();
                std::mem::swap(&mut self.entries, &mut entries);
                entries.push((name, value));
                assert(Seq::new(entries@.len(), |i: int| entries@[i].0@) =~= names.push(added));
                self.entries = entries;
                proof {
                    assert(self.names() =~= names.push(added));
                    assert(self.values() =~= values.push(value));
                    self.lemma_well_formed();
                    assert forall|n: Seq<char>| #[trigger]
                        before.insert(added, value).dom().contains(n) implies self@[n]
                        == before.insert(added, value)[n] by {
                        if n != added {
                            let k = names.index_of(n);
                            assert(self.names()[k] == n);
                            assert(self@[self.names()[k]] == self.values()[k]);
                            assert(before[names[k]] == values[k]);
                        } else {
                            assert(self.names()[names.len() as int] == added);
                        }
                    }
                    names.lemma_push_to_set_commute(added);
                    assert(self@ =~= before.insert(added, value));
                }
                None
            },
        }
    }

    /// Puts `value` in the place of the `i`-th value, which is returned.
    pub fn replace(&mut self, i: usize, value: T) -> (before: T)
        requires
            i < old(self).names().len(),
        ensures
            before == old(self).values()[i as int],
            final(self).names() == old(self).names(),
            final(self).values() == old(self).values().update(i as int, value),
            final(self)@ == old(self)@.insert(old(self).names()[i as int], value),
            final(self).well_formed(),
    {
        proof {
            use_type_invariant(&*self);
            self.lemma_well_formed();
        }
        let ghost names = self.names();
        let ghost values = self.values();
        let ghost old_map = self@;
        let mut value = value;
        let mut entries: Vec<(String, T)> = Vec::new();
        std::mem::swap(&mut self.entries, &mut entries);
        std::mem::swap(&mut entries[i].1, &mut value);
        assert(Seq::new(entries@.len(), |k: int| entries@[k].0@) =~= names);
        self.entries = entries;
        proof {
            assert(self.names() =~= names);
            assert(self.values() =~= values.update(i as int, self.values()[i as int]));
            self.lemma_well_formed();
            let new_value = self.values()[i as int];
            assert forall|n: Seq<char>| #[trigger]
                old_map.insert(names[i as int], new_value).dom().contains(n) implies self@[n]
                == old_map.insert(names[i as int], new_value)[n] by {
                let k = names.index_of(n);
                assert(self@[self.names()[k]] == self.values()[k]);
                assert(old_map[names[k]] == values[k]);
            }
            assert(self@ =~= old_map.insert(names[i as int], new_value));
        }
        value
    }

    /// The table that a list of entries collects into. Where a name stands
    /// more than once, its last value counts.
    pub fn from_entries(entries: Vec<(String, T)>) -> (table: Table<T>)
        ensures
            table@ == collected(entries@),
            table.well_formed(),
    {
        let ghost given = entries@;
        let mut table: Table<T> = Table::new();
        for entry in it: entries
            invariant
                it.seq() == given,
                table@ == collected(given.take(it.index())),
                table.well_formed(),
        {
            proof {
                let next = given.take(it.index() + 1);
                assert(next.drop_last() =~= given.take(it.index()));
                assert(next.last() == entry);
            }
            let (name, value) = entry;
            table.insert(name, value);
        }
        assert(given.take(given.len() as int) =~= given);
        table
    }

    /// The entries of the table, in order.
    pub fn into_entries(self) -> (entries: Vec<(String, T)>)
        ensures
            self.well_formed(),
            entries@.len() == self.names().len(),
            forall|i: int|
                0 <= i < entries@.len() ==> (#[trigger] entries@[i]).0@ == self.names()[i]
                    && entries@[i].1 == self.values()[i],
    {
        proof {
            use_type_invariant(&self);
            self.lemma_well_formed();
        }
        self.entries
    }
}

impl<T: Clone> Clone for Table<T> {
    /// A table with the same names in the same order, each beside a clone
    /// of its value.
    fn clone(&self) -> (copy: Table<T>)
        ensures
            copy.names() == self.names(),
            copy.values().len() == self.values().len(),
            forall|i: int|
                0 <= i < self.values().len() ==> cloned::<T>(
                    #[trigger] self.values()[i],
                    copy.values()[i],
                ),
            copy.well_formed(),
    {
        proof {
            use_type_invariant(self);
        }
        let mut entries: Vec<(String, T)> = Vec::new();
        let mut i: usize = 0;
        while i < self.entries.len()
            invariant
                i <= self.entries@.len(),
                entries@.len() == i,
                forall|j: int|
                    0 <= j < i ==> (#[trigger] entries@[j]).0@ == self.entries@[j].0@ && cloned::<
                        T,
                    >(self.entries@[j].1, entries@[j].1),
            decreases self.entries@.len() - i,
        {
            entries.push((self.entries[i].0.clone(), self.entries[i].1.clone()));
            i += 1;
        }
        assert(Seq::new(entries@.len(), |k: int| entries@[k].0@) =~= self.names());
        let copy = Table { entries };
        proof {
            assert(copy.names() =~= self.names());
            copy.lemma_well_formed();
        }
        copy
    }
}

} // verus!
