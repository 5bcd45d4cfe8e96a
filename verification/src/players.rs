//! An association from player names to values that remembers the order in
//! which the names first came.

use vstd::prelude::*;

verus! {

/// The characters of each name.
pub open spec fn texts(names: Seq<String>) -> Seq<Seq<char>> {
    names.map_values(|s: String| s@)
}

/// The names of `names` without repetition, in the order of their first
/// occurrence.
pub open spec fn first_seen(names: Seq<Seq<char>>) -> Seq<Seq<char>>
    decreases names.len(),
{
    if names.len() == 0 {
        Seq::empty()
    } else {
        let earlier = first_seen(names.drop_last());
        if earlier.contains(names.last()) {
            earlier
        } else {
            earlier.push(names.last())
        }
    }
}

/// Values by player name. No name occurs twice; a name keeps the place at
/// which it was first entered.
pub struct PlayerMap<V> {
    names: Vec<String>,
    values: Vec<V>,
}

impl<V> PlayerMap<V> {
    /// The names, in the order in which they were entered.
    pub closed spec fn names(&self) -> Seq<Seq<char>> {
        texts(self.names@)
    }

    /// The values, each at the index of its name.
    pub closed spec fn values(&self) -> Seq<V> {
        self.values@
    }

    /// Every name has one value and occurs once.
    pub closed spec fn wf(&self) -> bool {
        &&& self.names.len() == self.values.len()
        &&& self.names().no_duplicates()
    }

    /// Whether a value is held for `name`.
    pub open spec fn has(&self, name: Seq<char>) -> bool {
        self.names().contains(name)
    }

    /// The value held for `name`.
    pub open spec fn value_of(&self, name: Seq<char>) -> V
        recommends
            self.has(name),
    {
        self.values()[self.names().index_of(name)]
    }

    /// What well-formedness means for the names and the values.
    pub proof fn lemma_wf(&self)
        requires
            self.wf(),
        ensures
            self.names().len() == self.values().len(),
            self.names().no_duplicates(),
    {
    }

    /// An empty map.
    pub fn new() -> (map: Self)
        ensures
            map.wf(),
            map.names() == Seq::<Seq<char>>::empty(),
            map.values() == Seq::<V>::empty(),
    {
        let map = PlayerMap { names: Vec::new(), values: Vec::new() };
        assert(map.names() =~= Seq::<Seq<char>>::empty());
        map
    }

    /// The number of players.
    pub fn len(&self) -> (count: usize)
        requires
            self.wf(),
        ensures
            count == self.names().len(),
            count == self.values().len(),
    {
        self.names.len()
    }

    /// The name at index `i`.
    pub fn name(&self, i: usize) -> (name: &String)
        requires
            self.wf(),
            i < self.names().len(),
        ensures
            name@ == self.names()[i as int],
    {
        &self.names[i]
    }

    /// The value at index `i`.
    pub fn value(&self, i: usize) -> (value: &V)
        requires
            self.wf(),
            i < self.values().len(),
        ensures
            *value == self.values()[i as int],
    {
        &self.values[i]
    }

    /// The value at index `i`, to be changed in place.
    pub fn value_mut(&mut self, i: usize) -> (value: &mut V)
        requires
            old(self).wf(),
            i < old(self).values().len(),
        ensures
            *value == old(self).values()[i as int],
            final(self).wf(),
            final(self).names() == old(self).names(),
            final(self).values() == old(self).values().update(i as int, *final(value)),
    {
        &mut self.values[i]
    }

    /// The index of `name`, if the map holds it.
    pub fn find(&self, name: &str) -> (found: Option<usize>)
        requires
            self.wf(),
        ensures
            match found {
                Some(i) => i < self.names().len() && self.names()[i as int] == name@ && i
                    == self.names().index_of(name@),
                None => !self.has(name@),
            },
    {
        let wanted = name.to_owned();
        let mut i: usize = 0;
        while i < self.names.len()
            invariant
                self.wf(),
                i <= self.names.len(),
                wanted@ == name@,
                forall|k: int| 0 <= k < i ==> self.names()[k] != name@,
            decreases self.names.len() - i,
        {
            if self.names[i] == wanted {
                assert(self.names()[i as int] == name@);
                assert(self.names()[self.names().index_of(name@)] == name@);
                return Some(i);
            }
            assert(self.names()[i as int] != name@);
            i = i + 1;
        }
        None
    }

    /// The value held for `name`, if any.
    pub fn get(&self, name: &str) -> (found: Option<&V>)
        requires
            self.wf(),
        ensures
            match found {
                Some(value) => self.has(name@) && *value == self.value_of(name@),
                None => !self.has(name@),
            },
    {
        match self.find(name) {
            Some(i) => Some(&self.values[i]),
            None => None,
        }
    }

    /// Enters a name that the map does not hold yet.
    pub fn append(&mut self, name: String, value: V)
        requires
            old(self).wf(),
            !old(self).has(name@),
        ensures
            final(self).wf(),
            final(self).names() == old(self).names().push(name@),
            final(self).values() == old(self).values().push(value),
    {
        self.names.push(name);
        self.values.push(value);
        proof {
            assert(self.names() =~= old(self).names().push(name@));
        }
    }

    /// Sets the value of `name`. A value held for it before is lost; a new
    /// name goes to the end.
    pub fn insert(&mut self, name: String, value: V)
        requires
            old(self).wf(),
        ensures
            final(self).wf(),
            final(self).names() == with_name(old(self).names(), name@),
            final(self).values() == with_value(old(self).names(), old(self).values(), name@, value),
    {
        match self.find(name.as_str()) {
            Some(i) => {
                self.values[i] = value;
            },
            None => {
                self.append(name, value);
            },
        }
    }
}

/// The names after a value was set for `name`.
pub open spec fn with_name(names: Seq<Seq<char>>, name: Seq<char>) -> Seq<Seq<char>> {
    if names.contains(name) {
        names
    } else {
        names.push(name)
    }
}

/// The values after `value` was set for `name`.
pub open spec fn with_value<V>(
    names: Seq<Seq<char>>,
    values: Seq<V>,
    name: Seq<char>,
    value: V,
) -> Seq<V> {
    if names.contains(name) {
        values.update(names.index_of(name), value)
    } else {
        values.push(value)
    }
}

} // verus!
