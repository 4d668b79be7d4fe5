//! The entries of one directory level, found by name.

use crate::classify::views;
use vstd::prelude::*;

verus! {

/// Entries by name. No name occurs twice: an entry inserted under a name
/// that is already present takes the place of the earlier one.
pub struct Listing<V> {
    pub names: Vec<String>,
    pub values: Vec<V>,
}

/// The index of `name` in `names`, if it occurs.
pub open spec fn position(names: Seq<Seq<char>>, name: Seq<char>) -> Option<int> {
    if names.contains(name) {
        Some(names.index_of(name))
    } else {
        None
    }
}

/// The entry found under `name` among `values`, which stand under `keys`.
pub open spec fn lookup_in<V>(keys: Seq<Seq<char>>, values: Seq<V>, name: Seq<char>) -> Option<V> {
    match position(keys, name) {
        Some(i) => Some(values[i]),
        None => None,
    }
}

/// The names and entries after `value` was inserted under `name`: an entry
/// already found under that name is replaced and keeps its place; a new name
/// goes to the end.
pub open spec fn insert_into<V>(keys: Seq<Seq<char>>, values: Seq<V>, name: Seq<char>, value: V) -> (
    Seq<Seq<char>>,
    Seq<V>,
) {
    match position(keys, name) {
        Some(i) => (keys, values.update(i, value)),
        None => (keys.push(name), values.push(value)),
    }
}

/// The listing built from the names of a sequence of entries, taken in
/// order: under each name stands the index of the last entry that bears it.
/// Entries without a name are left out.
pub open spec fn collect(names: Seq<Option<Seq<char>>>) -> (Seq<Seq<char>>, Seq<usize>)
    decreases names.len(),
{
    if names.len() == 0 {
        (Seq::empty(), Seq::empty())
    } else {
        let rest = collect(names.drop_last());
        match names.last() {
            Some(name) => insert_into(rest.0, rest.1, name, (names.len() - 1) as usize),
            None => rest,
        }
    }
}

/// A collected listing has an index for each name, no name twice, and under
/// each name the index of an entry that bears it.
pub proof fn lemma_collect(names: Seq<Option<Seq<char>>>)
    requires
        names.len() <= usize::MAX,
    ensures
        collect(names).0.len() == collect(names).1.len(),
        collect(names).0.no_duplicates(),
        forall|i: int|
            0 <= i < collect(names).0.len() ==> 0 <= (#[trigger] collect(names).1[i]) < names.len()
                && names[collect(names).1[i] as int] == Some(collect(names).0[i]),
        forall|j: int|
            0 <= j < names.len() && names[j] is Some ==> collect(names).0.contains(
                (#[trigger] names[j])->0,
            ),
    decreases names.len(),
{
    if names.len() > 0 {
        let init = names.drop_last();
        lemma_collect(init);
        let rest = collect(init);
        let keys = collect(names).0;
        match names.last() {
            Some(name) => {
                match position(rest.0, name) {
                    Some(i) => {
                        assert(rest.0[rest.0.index_of(name)] == name);
                    },
                    None => {
                        assert forall|a: int, b: int|
                            0 <= a < keys.len() && 0 <= b < keys.len() && a != b implies keys[a]
                            != keys[b] by {
                            if a < rest.0.len() {
                                assert(rest.0.contains(keys[a]));
                            }
                            if b < rest.0.len() {
                                assert(rest.0.contains(keys[b]));
                            }
                        }
                    },
                }
                assert forall|j: int| 0 <= j < names.len() && names[j] is Some implies keys.contains(
                    (#[trigger] names[j])->0,
                ) by {
                    if j < init.len() {
                        assert(init[j] == names[j]);
                        let k = choose|k: int| 0 <= k < rest.0.len() && rest.0[k] == init[j]->0;
                        assert(keys[k] == names[j]->0);
                    } else {
                        if rest.0.contains(name) {
                            assert(keys[rest.0.index_of(name)] == name);
                        } else {
                            assert(keys[keys.len() - 1] == name);
                        }
                    }
                }
            },
            None => {
                assert forall|j: int| 0 <= j < names.len() && names[j] is Some implies keys.contains(
                    (#[trigger] names[j])->0,
                ) by {
                    assert(init[j] == names[j]);
                }
            },
        }
    }
}

/// The names of entries that all have one.
pub open spec fn known(names: Seq<Option<Seq<char>>>) -> Seq<Seq<char>> {
    names.map_values(|name: Option<Seq<char>>| name->0)
}

/// Where every entry has a name and no two have the same, the listing holds
/// the names in their order, and under each the index of its entry.
pub proof fn lemma_collect_distinct(names: Seq<Option<Seq<char>>>)
    requires
        names.len() <= usize::MAX,
        forall|i: int| 0 <= i < names.len() ==> (#[trigger] names[i]) is Some,
        known(names).no_duplicates(),
    ensures
        collect(names).0 == known(names),
        collect(names).1.len() == names.len(),
        forall|i: int| 0 <= i < names.len() ==> (#[trigger] collect(names).1[i]) == i,
    decreases names.len(),
{
    if names.len() == 0 {
        assert(collect(names).0 =~= known(names));
    } else {
        let init = names.drop_last();
        assert forall|i: int| 0 <= i < init.len() implies (#[trigger] init[i]) is Some by {
            assert(init[i] == names[i]);
        }
        assert(known(init) =~= known(names).drop_last());
        assert forall|i: int, j: int|
            0 <= i < known(init).len() && 0 <= j < known(init).len() && i != j implies known(
            init,
        )[i] != known(init)[j] by {
            assert(known(names)[i] != known(names)[j]);
        }
        lemma_collect_distinct(init);
        let name = names.last()->0;
        if known(init).contains(name) {
            let i = choose|i: int| 0 <= i < known(init).len() && known(init)[i] == name;
            assert(known(names)[i] == known(names)[names.len() - 1]);
        }
        assert(position(known(init), name) is None);
        assert(collect(names).0 =~= known(names));
    }
}

/// In a sequence of distinct names, a name stands at one index only, and
/// that is where it is found.
pub proof fn lemma_position_distinct(names: Seq<Seq<char>>, i: int)
    requires
        names.no_duplicates(),
        0 <= i < names.len(),
    ensures
        position(names, names[i]) == Some(i),
{
    assert(names.contains(names[i]));
    let j = names.index_of(names[i]);
    assert(0 <= j < names.len() && names[j] == names[i]);
}

impl<V> Listing<V> {
    /// Every name has its entry, and no name occurs twice.
    pub open spec fn wf(self) -> bool {
        &&& self.names@.len() == self.values@.len()
        &&& self.keys().no_duplicates()
    }

    /// The names, in the order in which they were first inserted.
    pub open spec fn keys(self) -> Seq<Seq<char>> {
        views(self.names@)
    }

    /// The entry found under `name`, if any.
    pub open spec fn lookup(self, name: Seq<char>) -> Option<V> {
        lookup_in(self.keys(), self.values@, name)
    }

    /// The empty listing.
    pub fn new() -> (l: Listing<V>)
        ensures
            l.wf(),
            l.names@ == Seq::<String>::empty(),
            l.values@ == Seq::<V>::empty(),
    {
        Listing { names: Vec::new(), values: Vec::new() }
    }

    /// The number of entries.
    pub fn len(&self) -> (n: usize)
        ensures
            n == self.keys().len(),
    {
        self.names.len()
    }

    /// The index of `name`, if it is present.
    pub fn find(&self, name: &String) -> (at: Option<usize>)
        requires
            self.wf(),
        ensures
            match at {
                Some(i) => position(self.keys(), name@) == Some(i as int) && i < self.names@.len(),
                None => position(self.keys(), name@) is None,
            },
    {
        let mut i: usize = 0;
        while i < self.names.len()
            invariant
                self.wf(),
                i <= self.names.len(),
                forall|k: int| 0 <= k < i ==> self.keys()[k] != name@,
            decreases self.names.len() - i,
        {
            if self.names[i] == *name {
                proof {
                    let keys = self.keys();
                    assert(keys[i as int] == name@);
                    assert(keys.contains(name@));
                    let j = keys.index_of(name@);
                    assert(0 <= j < keys.len() && keys[j] == name@);
                    assert(j == i);
                }
                return Some(i);
            }
            i += 1;
        }
        assert(!self.keys().contains(name@));
        None
    }

    /// The entry found under `name`, if any.
    pub fn get(&self, name: &String) -> (found: Option<&V>)
        requires
            self.wf(),
        ensures
            found == match self.lookup(name@) {
                Some(v) => Some(&v),
                None => None,
            },
    {
        match self.find(name) {
            Some(i) => Some(&self.values[i]),
            None => None,
        }
    }

    /// Inserts `value` under `name`. An entry already found under that name
    /// is replaced and keeps its place; a new name goes to the end.
    pub fn insert(&mut self, name: String, value: V)
        requires
            old(self).wf(),
        ensures
            final(self).wf(),
            (final(self).keys(), final(self).values@) == insert_into(
                old(self).keys(),
                old(self).values@,
                name@,
                value,
            ),
            final(self).lookup(name@) == Some(value),
            forall|other: Seq<char>|
                other != name@ ==> final(self).lookup(other) == old(self).lookup(other),
    {
        let ghost before = *self;
        match self.find(&name) {
            Some(i) => {
                self.values.set(i, value);
                proof {
                    assert(self.keys() == before.keys());
                    assert forall|other: Seq<char>| other != name@ implies self.lookup(other)
                        == before.lookup(other) by {
                        if before.keys().contains(other) {
                            let j = before.keys().index_of(other);
                            assert(before.keys()[j] == other);
                        }
                    }
                }
            },
            None => {
                self.names.push(name);
                self.values.push(value);
                proof {
                    let keys = self.keys();
                    assert(keys =~= before.keys().push(name@));
                    assert forall|a: int, b: int|
                        0 <= a < keys.len() && 0 <= b < keys.len() && a != b implies keys[a]
                        != keys[b] by {
                        if a < before.keys().len() {
                            assert(before.keys().contains(keys[a]));
                        }
                        if b < before.keys().len() {
                            assert(before.keys().contains(keys[b]));
                        }
                    }
                    assert(keys[keys.len() - 1] == name@);
                    assert(keys.contains(name@));
                    let j = keys.index_of(name@);
                    assert(keys[j] == name@);
                    assert(j == keys.len() - 1);
                    assert forall|other: Seq<char>| other != name@ implies self.lookup(other)
                        == before.lookup(other) by {
                        if before.keys().contains(other) {
                            let k = before.keys().index_of(other);
                            assert(before.keys()[k] == other);
                            assert(keys[k] == other);
                            assert(keys.contains(other));
                            let k2 = keys.index_of(other);
                            assert(keys[k2] == other);
                            assert(k2 == k);
                        } else {
                            if keys.contains(other) {
                                let k2 = keys.index_of(other);
                                assert(keys[k2] == other);
                                assert(before.keys()[k2] == other);
                            }
                        }
                    }
                }
            },
        }
    }
}

} // verus!
