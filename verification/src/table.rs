//! A table of values under distinct names.

use vstd::prelude::*;

verus! {

/// Values under names. No name occurs twice, and a name that came earlier stands
/// earlier.
pub struct NameTable<V> {
    names: Vec<String>,
    values: Vec<V>,
}

/// A set of names.
pub type NameSet = NameTable<()>;

impl<V> NameTable<V> {
    /// The names in the order in which they came.
    pub closed spec fn order(self) -> Seq<Seq<char>> {
        Seq::new(self.names@.len(), |i: int| self.names@[i]@)
    }

    /// The values, in the order of their names.
    pub closed spec fn column(self) -> Seq<V> {
        self.values@
    }

    /// Every name has one value, and no name occurs twice.
    pub open spec fn wf(self) -> bool {
        &&& self.order().len() == self.column().len()
        &&& self.order().no_duplicates()
    }
}

/// The names are the keys; the value of a name is the one in its place.
impl<V> View for NameTable<V> {
    type V = Map<Seq<char>, V>;

    open spec fn view(&self) -> Map<Seq<char>, V> {
        Map::new(
            |name: Seq<char>| self.order().contains(name),
            |name: Seq<char>| self.column()[self.order().index_of(name)],
        )
    }
}

impl<V> NameTable<V> {
    /// In a table without repeated names, the value of the name in a place is the
    /// value in that place.
    pub proof fn lemma_place(self, place: int)
        requires
            self.wf(),
            0 <= place < self.order().len(),
        ensures
            self@.dom().contains(self.order()[place]),
            self@[self.order()[place]] == self.column()[place],
    {
        let name = self.order()[place];
        assert(self.order().contains(name));
        let found = self.order().index_of(name);
        assert(self.order()[found] == name);
        assert(found == place);
    }

    /// Changing the value in a place changes the value of the name there, and nothing
    /// else.
    pub proof fn lemma_changed(self, after: NameTable<V>, place: int, value: V)
        requires
            self.wf(),
            0 <= place < self.order().len(),
            after.order() == self.order(),
            after.column() == self.column().update(place, value),
        ensures
            after@ == self@.insert(self.order()[place], value),
    {
        let key = self.order()[place];
        assert forall|name: Seq<char>| after@.dom().contains(name) implies after@[name]
            == self@.insert(key, value)[name] by {
            let found = self.order().index_of(name);
            after.lemma_place(found);
            self.lemma_place(found);
        }
        assert(self.order().contains(key));
        assert(after@ =~= self@.insert(key, value));
    }

    /// An empty table.
    pub fn new() -> (table: NameTable<V>)
        ensures
            table.wf(),
            table@ == Map::<Seq<char>, V>::empty(),
    {
        let table = NameTable { names: Vec::new(), values: Vec::new() };
        proof {
            assert(table.order() =~= Seq::<Seq<char>>::empty());
            assert(table@ =~= Map::<Seq<char>, V>::empty());
        }
        table
    }

    /// How many names there are.
    pub fn len(&self) -> (count: usize)
        ensures
            count == self.order().len(),
    {
        self.names.len()
    }

    /// The name in a place.
    pub fn name_at(&self, place: usize) -> (name: &String)
        requires
            place < self.order().len(),
        ensures
            name@ == self.order()[place as int],
    {
        &self.names[place]
    }

    /// The place of a name.
    pub fn find(&self, name: &String) -> (place: Option<usize>)
        requires
            self.wf(),
        ensures
            match place {
                Some(place) => place < self.order().len() && self.order()[place as int] == name@
                    && self@.dom().contains(name@) && self@[name@] == self.column()[place as int],
                None => !self@.dom().contains(name@),
            },
    {
        let mut place: usize = 0;
        while place < self.names.len()
            invariant
                self.wf(),
                place <= self.names.len(),
                forall|i: int| 0 <= i < place ==> self.order()[i] != name@,
            decreases self.names.len() - place,
        {
            if self.names[place] == *name {
                proof {
                    self.lemma_place(place as int);
                }
                return Some(place);
            }
            place = place + 1;
        }
        None
    }

    /// Whether a name is in the table.
    pub fn contains(&self, name: &String) -> (found: bool)
        requires
            self.wf(),
        ensures
            found == self@.dom().contains(name@),
    {
        self.find(name).is_some()
    }

    /// The value under a name.
    pub fn get(&self, name: &String) -> (value: Option<&V>)
        requires
            self.wf(),
        ensures
            match value {
                Some(value) => self@.dom().contains(name@) && *value == self@[name@],
                None => !self@.dom().contains(name@),
            },
    {
        match self.find(name) {
            Some(place) => Some(&self.values[place]),
            None => None,
        }
    }

    /// The value in a place.
    pub fn value_at(&self, place: usize) -> (value: &V)
        requires
            self.wf(),
            place < self.order().len(),
        ensures
            *value == self.column()[place as int],
    {
        &self.values[place]
    }

    /// Puts a new name at the end.
    pub fn add(&mut self, name: String, value: V)
        requires
            old(self).wf(),
            !old(self)@.dom().contains(name@),
        ensures
            final(self).wf(),
            final(self)@ == old(self)@.insert(name@, value),
            final(self).column() == old(self).column().push(value),
    {
        let ghost key = name@;
        let ghost before = *self;
        self.names.push(name);
        self.values.push(value);
        proof {
            assert(self.order() =~= before.order().push(key));
            assert(self.column() =~= before.column().push(value));
            assert(self.order()[before.order().len() as int] == key);
            assert forall|name: Seq<char>| self@.dom().contains(name) <==> before@.dom().contains(
                name,
            ) || name == key by {
                if before.order().contains(name) {
                    let place = before.order().index_of(name);
                    assert(self.order()[place] == name);
                }
            }
            assert forall|name: Seq<char>| self@.dom().contains(name) implies self@[name]
                == before@.insert(key, value)[name] by {
                let place = self.order().index_of(name);
                self.lemma_place(place);
                if name != key {
                    before.lemma_place(place);
                }
            }
            assert(self@ =~= before@.insert(key, value));
        }
    }

    /// Takes a name out, if it is there.
    pub fn take(&mut self, name: &String)
        requires
            old(self).wf(),
        ensures
            final(self).wf(),
            final(self)@ == old(self)@.remove(name@),
    {
        let ghost before = *self;
        match self.find(name) {
            Some(gone) => {
                self.names.remove(gone);
                self.values.remove(gone);
                proof {
                    assert(self.order() =~= before.order().remove(gone as int));
                    assert(self.column() =~= before.column().remove(gone as int));
                    assert(self.order().no_duplicates());
                    assert forall|other: Seq<char>| self@.dom().contains(other)
                        <==> before@.dom().contains(other) && other != name@ by {
                        if before.order().contains(other) && other != name@ {
                            let was = before.order().index_of(other);
                            let now = if was < gone { was } else { was - 1 };
                            assert(self.order()[now] == other);
                        }
                    }
                    assert forall|other: Seq<char>| self@.dom().contains(other) implies self@[other]
                        == before@[other] by {
                        let now = self.order().index_of(other);
                        let was = if now < gone { now } else { now + 1 };
                        self.lemma_place(now);
                        before.lemma_place(was);
                    }
                    assert(self@ =~= before@.remove(name@));
                }
            },
            None => {
                proof {
                    assert(self@ =~= before@.remove(name@));
                }
            },
        }
    }

    /// The value in a place, to be changed.
    pub fn value_mut(&mut self, place: usize) -> (value: &mut V)
        requires
            old(self).wf(),
            place < old(self).order().len(),
        ensures
            *value == old(self).column()[place as int],
            final(self).order() == old(self).order(),
            final(self).column() == old(self).column().update(place as int, *final(value)),
            final(self).wf(),
    {
        &mut self.values[place]
    }
}

} // verus!
