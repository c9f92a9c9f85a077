//! A small map that keeps its entries in the order in which they came.

use vstd::prelude::*;

verus! {

/// A key that a [`Table`] can tell apart from others.
pub trait TableKey: View + Sized {
    /// Whether two keys are the same.
    fn same_key(&self, other: &Self) -> (same: bool)
        ensures
            same == (self@ == other@),
    ;
}

impl TableKey for String {
    fn same_key(&self, other: &Self) -> (same: bool) {
        *self == *other
    }
}

/// A map from keys to values; every key occurs once.
pub struct Table<K: TableKey, V> {
    entries: Vec<(K, V)>,
}

impl<K: TableKey, V> Table<K, V> {
    /// The keys, in the order in which they came.
    pub closed spec fn keys(&self) -> Seq<K::V> {
        self.entries@.map_values(|entry: (K, V)| entry.0@)
    }

    /// The values, in the order of their keys.
    pub closed spec fn values(&self) -> Seq<V> {
        self.entries@.map_values(|entry: (K, V)| entry.1)
    }

    /// Every key occurs once and has a value.
    pub open spec fn wf(&self) -> bool {
        &&& self.keys().no_duplicates()
        &&& self.keys().len() == self.values().len()
    }

    /// Which value each key has.
    pub open spec fn map(&self) -> Map<K::V, V> {
        Map::new(
            |key: K::V| self.keys().contains(key),
            |key: K::V| self.values()[self.keys().index_of(key)],
        )
    }

    /// The value at an index is the value of the key there.
    pub proof fn lemma_value_at(&self, index: int)
        requires
            self.wf(),
            0 <= index < self.keys().len(),
        ensures
            self.map().contains_key(self.keys()[index]),
            self.map()[self.keys()[index]] == self.values()[index],
    {
        self.lemma_at(index);
    }

    proof fn lemma_at(&self, index: int)
        requires
            self.wf(),
            0 <= index < self.entries@.len(),
        ensures
            self.keys()[index] == self.entries@[index].0@,
            self.map().contains_key(self.keys()[index]),
            self.map()[self.keys()[index]] == self.entries@[index].1,
    {
        let key = self.keys()[index];
        assert(self.keys().contains(key));
        assert(self.keys().index_of(key) == index);
    }

    /// A table without entries.
    pub fn new() -> (table: Self)
        ensures
            table.wf(),
            table.keys().len() == 0,
            table.map() == Map::<K::V, V>::empty(),
    {
        let table = Table { entries: Vec::new() };
        assert(table.map() == Map::<K::V, V>::empty());
        table
    }

    /// How many entries there are.
    pub fn len(&self) -> (len: usize)
        ensures
            len == self.keys().len(),
            len == self.values().len(),
    {
        self.entries.len()
    }

    /// Where the entry of a key is, if there is one.
    pub fn index_of(&self, key: &K) -> (index: Option<usize>)
        requires
            self.wf(),
        ensures
            match index {
                Some(found) => {
                    &&& found < self.keys().len()
                    &&& self.keys()[found as int] == key@
                    &&& self.map().contains_key(key@)
                    &&& self.map()[key@] == self.values()[found as int]
                },
                None => !self.map().contains_key(key@),
            },
    {
        for index in 0..self.entries.len()
            invariant
                self.wf(),
                forall|i: int| 0 <= i < index ==> (#[trigger] self.keys()[i]) != key@,
        {
            if self.entries[index].0.same_key(key) {
                proof {
                    self.lemma_at(index as int);
                }
                return Some(index);
            }
        }
        None
    }

    /// The value at an index.
    pub fn at(&self, index: usize) -> (value: &V)
        requires
            index < self.keys().len(),
        ensures
            *value == self.values()[index as int],
    {
        &self.entries[index].1
    }

    /// The value at an index, for changing it.
    pub fn at_mut(&mut self, index: usize) -> (value: &mut V)
        requires
            index < old(self).keys().len(),
        ensures
            *value == old(self).values()[index as int],
            final(self).keys() == old(self).keys(),
            final(self).values() == old(self).values().update(index as int, *final(value)),
    {
        &mut self.entries[index].1
    }

    /// The value of a key, if there is one.
    pub fn get(&self, key: &K) -> (value: Option<&V>)
        requires
            self.wf(),
        ensures
            match value {
                Some(found) => self.map().contains_key(key@) && *found == self.map()[key@],
                None => !self.map().contains_key(key@),
            },
    {
        match self.index_of(key) {
            Some(index) => Some(self.at(index)),
            None => None,
        }
    }

    /// Gives a key a value, in place of the one it has.
    pub fn insert(&mut self, key: K, value: V)
        requires
            old(self).wf(),
        ensures
            final(self).wf(),
            final(self).map() == old(self).map().insert(key@, value),
            final(self).keys() == if old(self).map().contains_key(key@) {
                old(self).keys()
            } else {
                old(self).keys().push(key@)
            },
    {
        match self.index_of(&key) {
            Some(index) => {
                self.entries[index] = (key, value);
                proof {
                    assert(self.keys() == old(self).keys());
                    assert(self.values() == old(self).values().update(index as int, value));
                    assert forall|other: K::V| self.keys().contains(other) && other
                        != key@ implies self.keys().index_of(other) != index by {
                        let i = self.keys().index_of(other);
                        assert(self.keys()[i] == other);
                    }
                    self.lemma_at(index as int);
                    assert(self.map() =~= old(self).map().insert(key@, value));
                }
            },
            None => {
                let ghost name = key@;
                self.entries.push((key, value));
                proof {
                    let last = (self.entries@.len() - 1) as int;
                    assert(self.keys() == old(self).keys().push(name));
                    assert(self.values() == old(self).values().push(value));
                    assert(!old(self).keys().contains(name));
                    assert(self.wf());
                    self.lemma_at(last);
                    assert forall|other: K::V| old(self).keys().contains(other) implies {
                        &&& self.map().contains_key(other)
                        &&& self.map()[other] == old(self).map()[other]
                    } by {
                        let i = old(self).keys().index_of(other);
                        old(self).lemma_at(i);
                        assert(self.entries@[i] == old(self).entries@[i]);
                        self.lemma_at(i);
                    }
                    assert(self.map() =~= old(self).map().insert(name, value));
                }
            },
        }
    }

    /// Takes a key and its value out, if they are there.
    pub fn remove(&mut self, key: &K)
        requires
            old(self).wf(),
        ensures
            final(self).wf(),
            final(self).map() == old(self).map().remove(key@),
    {
        match self.index_of(key) {
            Some(index) => {
                self.entries.remove(index);
                proof {
                    let cut = index as int;
                    assert(self.keys() == old(self).keys().remove(cut));
                    assert(self.values() == old(self).values().remove(cut));
                    assert forall|i: int, j: int|
                        0 <= i < self.keys().len() && 0 <= j < self.keys().len() && i
                            != j implies self.keys()[i] != self.keys()[j] by {
                        let a = if i < cut {
                            i
                        } else {
                            i + 1
                        };
                        let b = if j < cut {
                            j
                        } else {
                            j + 1
                        };
                        assert(self.keys()[i] == old(self).keys()[a]);
                        assert(self.keys()[j] == old(self).keys()[b]);
                    }
                    assert(self.wf());
                    assert forall|other: K::V| old(self).keys().contains(other) && other
                        != key@ implies {
                        &&& self.map().contains_key(other)
                        &&& self.map()[other] == old(self).map()[other]
                    } by {
                        let a = old(self).keys().index_of(other);
                        old(self).lemma_at(a);
                        let i = if a < cut {
                            a
                        } else {
                            a - 1
                        };
                        assert(self.entries@[i] == old(self).entries@[a]);
                        self.lemma_at(i);
                    }
                    assert forall|other: K::V| self.keys().contains(other) implies old(
                        self,
                    ).keys().contains(other) && other != key@ by {
                        let i = self.keys().index_of(other);
                        let a = if i < cut {
                            i
                        } else {
                            i + 1
                        };
                        assert(old(self).keys()[a] == other);
                    }
                    assert(self.map() =~= old(self).map().remove(key@));
                }
            },
            None => {
                assert(self.map() =~= old(self).map().remove(key@));
            },
        }
    }
}

/// A table has a value for exactly the keys that it keeps, each of them once: the one that
/// stands at the place of the key.
pub proof fn law_a_table_has_a_value_for_each_key<K: TableKey, V>(table: Table<K, V>, key: K::V)
    requires
        table.wf(),
    ensures
        table.keys().no_duplicates(),
        table.keys().len() == table.values().len(),
        table.map().contains_key(key) <==> exists|i: int|
            0 <= i < table.keys().len() && #[trigger] table.keys()[i] == key,
        forall|i: int|
            0 <= i < table.keys().len() ==> table.map()[#[trigger] table.keys()[i]]
                == table.values()[i],
{
    assert forall|i: int| 0 <= i < table.keys().len() implies table.map()[
        #[trigger] table.keys()[i]
    ] == table.values()[i] by {
        table.lemma_value_at(i);
    }
}

} // verus!
