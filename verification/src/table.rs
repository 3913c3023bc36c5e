//! An ordered table keyed by names, in which no name occurs twice.

use vstd::prelude::*;

verus! {

/// No key occurs twice.
pub open spec fn distinct_keys(keys: Seq<Seq<char>>) -> bool {
    forall|i: int, j: int| 0 <= i < j < keys.len() ==> keys[i] != keys[j]
}

/// `i` is the first place at which `key` stands.
pub open spec fn is_first(keys: Seq<Seq<char>>, key: Seq<char>, i: int) -> bool {
    &&& 0 <= i < keys.len()
    &&& keys[i] == key
    &&& forall|j: int| 0 <= j < i ==> keys[j] != key
}

/// The first place at which `key` stands, if it stands anywhere.
pub open spec fn position(keys: Seq<Seq<char>>, key: Seq<char>) -> Option<int> {
    if exists|i: int| is_first(keys, key, i) {
        Some(choose|i: int| is_first(keys, key, i))
    } else {
        None
    }
}

/// A place that holds the key, with no earlier one that does, is the key's
/// position.
pub proof fn lemma_position_found(keys: Seq<Seq<char>>, key: Seq<char>, i: int)
    requires
        is_first(keys, key, i),
    ensures
        position(keys, key) == Some(i),
{
    let c = choose|c: int| is_first(keys, key, c);
    assert(is_first(keys, key, c));
    if c < i {
        assert(keys[c] != key);
    } else if i < c {
        assert(keys[i] != key);
    }
}

/// A key that stands nowhere has no position.
pub proof fn lemma_position_absent(keys: Seq<Seq<char>>, key: Seq<char>)
    requires
        forall|j: int| 0 <= j < keys.len() ==> keys[j] != key,
    ensures
        position(keys, key) is None,
{
}

/// What `position` returns is the first place of the key, or nothing where
/// the key is absent.
pub proof fn lemma_position(keys: Seq<Seq<char>>, key: Seq<char>)
    ensures
        match position(keys, key) {
            Some(i) => is_first(keys, key, i),
            None => forall|j: int| 0 <= j < keys.len() ==> keys[j] != key,
        },
{
    if position(keys, key) is None {
        assert forall|j: int| 0 <= j < keys.len() implies keys[j] != key by {
            if keys[j] == key {
                lemma_has_first(keys, key, j);
            }
        }
    }
}

proof fn lemma_has_first(keys: Seq<Seq<char>>, key: Seq<char>, j: int)
    requires
        0 <= j < keys.len(),
        keys[j] == key,
    ensures
        exists|i: int| is_first(keys, key, i),
    decreases j,
{
    if exists|k: int| 0 <= k < j && keys[k] == key {
        let k = choose|k: int| 0 <= k < j && keys[k] == key;
        lemma_has_first(keys, key, k);
    } else {
        assert(is_first(keys, key, j));
    }
}

/// The first place at which a name stands in a list.
pub fn find_name(names: &Vec<String>, name: &str) -> (place: Option<usize>)
    ensures
        match place {
            Some(i) => position(names.deep_view(), name@) == Some(i as int),
            None => position(names.deep_view(), name@) is None,
        },
{
    let wanted: String = name.to_owned();
    let n = names.len();
    let mut i: usize = 0;
    while i < n
        invariant
            n == names@.len(),
            wanted@ == name@,
            i <= n,
            forall|j: int| 0 <= j < i ==> names.deep_view()[j] != name@,
        decreases n - i,
    {
        if names[i] == wanted {
            proof {
                assert(names.deep_view()[i as int] == name@);
                lemma_position_found(names.deep_view(), name@, i as int);
            }
            return Some(i);
        }
        i += 1;
    }
    proof {
        lemma_position_absent(names.deep_view(), name@);
    }
    None
}

/// The keys of a sequence of entries, in order.
pub open spec fn keys_of<V>(entries: Seq<(Seq<char>, V)>) -> Seq<Seq<char>> {
    Seq::new(entries.len(), |i: int| entries[i].0)
}

/// The value that the first entry with this key holds.
pub open spec fn lookup<V>(entries: Seq<(Seq<char>, V)>, key: Seq<char>) -> Option<V> {
    match position(keys_of(entries), key) {
        Some(i) => Some(entries[i].1),
        None => None,
    }
}

/// Looking a key up among the values' models finds the model of what the
/// same key finds among the values.
pub proof fn lemma_lookup_deep<T: DeepView>(table: &Table<T>, key: Seq<char>)
    ensures
        lookup(table.deep_view(), key) == match lookup(table@, key) {
            Some(value) => Some(value.deep_view()),
            None => None,
        },
        keys_of(table.deep_view()) == table.keys(),
{
    assert(keys_of(table.deep_view()) =~= keys_of(table@));
    lemma_position(keys_of(table@), key);
}

/// Entries in the order in which they were first inserted, found by name.
#[derive(Debug, PartialEq, Eq)]
pub struct Table<T> {
    entries: Vec<(String, T)>,
}

impl<T> View for Table<T> {
    type V = Seq<(Seq<char>, T)>;

    closed spec fn view(&self) -> Seq<(Seq<char>, T)> {
        Seq::new(self.entries@.len(), |i: int| (self.entries@[i].0@, self.entries@[i].1))
    }
}

impl<T: DeepView> DeepView for Table<T> {
    type V = Seq<(Seq<char>, T::V)>;

    open spec fn deep_view(&self) -> Seq<(Seq<char>, T::V)> {
        Seq::new(self@.len(), |i: int| (self@[i].0, self@[i].1.deep_view()))
    }
}

impl<T> Table<T> {
    #[verifier::type_invariant]
    spec fn well_formed(&self) -> bool {
        distinct_keys(keys_of(self@))
    }

    /// The keys, in insertion order.
    pub open spec fn keys(&self) -> Seq<Seq<char>> {
        keys_of(self@)
    }

    /// Recalls that no key occurs twice in a table.
    pub fn keys_are_distinct(&self)
        ensures
            distinct_keys(self.keys()),
    {
        proof {
            use_type_invariant(self);
        }
    }

    pub fn new() -> (table: Self)
        ensures
            table@ == Seq::<(Seq<char>, T)>::empty(),
    {
        let table = Table { entries: Vec::new() };
        proof {
            assert(table@ =~= Seq::<(Seq<char>, T)>::empty());
        }
        table
    }

    /// Makes a table of entries whose keys differ from one another.
    pub fn from_distinct(entries: Vec<(String, T)>) -> (table: Self)
        requires
            distinct_keys(Seq::new(entries@.len(), |i: int| entries@[i].0@)),
        ensures
            table@ == Seq::new(entries@.len(), |i: int| (entries@[i].0@, entries@[i].1)),
    {
        proof {
            let keys = Seq::new(entries@.len(), |i: int| entries@[i].0@);
            assert forall|i: int, j: int| 0 <= i < j < entries@.len() implies (#[trigger] entries@[i]).0@
                != (#[trigger] entries@[j]).0@ by {
                assert(keys[i] != keys[j]);
            }
        }
        Table { entries }
    }

    /// Takes the table apart into its entries, in order.
    pub fn into_entries(self) -> (entries: Vec<(String, T)>)
        ensures
            self@ == Seq::new(entries@.len(), |i: int| (entries@[i].0@, entries@[i].1)),
            distinct_keys(self.keys()),
    {
        proof {
            use_type_invariant(&self);
        }
        self.entries
    }

    pub fn len(&self) -> (n: usize)
        ensures
            n == self@.len(),
    {
        self.entries.len()
    }

    /// The key of the entry at a place.
    pub fn key(&self, i: usize) -> (key: &String)
        requires
            i < self@.len(),
        ensures
            key@ == self@[i as int].0,
    {
        &self.entries[i].0
    }

    /// The value of the entry at a place.
    pub fn value(&self, i: usize) -> (value: &T)
        requires
            i < self@.len(),
        ensures
            *value == self@[i as int].1,
    {
        &self.entries[i].1
    }

    /// The place of the entry with this key.
    pub fn find(&self, key: &str) -> (place: Option<usize>)
        ensures
            match place {
                Some(i) => position(self.keys(), key@) == Some(i as int),
                None => position(self.keys(), key@) is None,
            },
    {
        let wanted: String = key.to_owned();
        let n = self.entries.len();
        let mut i: usize = 0;
        while i < n
            invariant
                n == self.entries@.len(),
                wanted@ == key@,
                i <= n,
                forall|j: int| 0 <= j < i ==> self.keys()[j] != key@,
            decreases n - i,
        {
            if self.entries[i].0 == wanted {
                proof {
                    lemma_position_found(self.keys(), key@, i as int);
                }
                return Some(i);
            }
            i += 1;
        }
        proof {
            lemma_position_absent(self.keys(), key@);
        }
        None
    }

    /// The value stored under a key.
    pub fn get(&self, key: &str) -> (value: Option<&T>)
        ensures
            match value {
                Some(v) => lookup(self@, key@) == Some(*v),
                None => lookup(self@, key@) is None,
            },
    {
        match self.find(key) {
            Some(i) => Some(&self.entries[i].1),
            None => None,
        }
    }

    pub fn contains_key(&self, key: &str) -> (found: bool)
        ensures
            found == position(self.keys(), key@).is_some(),
    {
        self.find(key).is_some()
    }

    /// Stores a value under a key. A key that is already there keeps its
    /// place and gets the new value; the result tells whether the key is new.
    pub fn insert(&mut self, key: String, value: T) -> (added: bool)
        ensures
            match position(old(self).keys(), key@) {
                Some(i) => !added && final(self)@ == old(self)@.update(i, (key@, value)),
                None => added && final(self)@ == old(self)@.push((key@, value)),
            },
    {
        proof {
            use_type_invariant(&*self);
            lemma_position(self.keys(), key@);
        }
        let place = self.find(key.as_str());
        let mut entries: Vec<(String, T)> = Vec::new();
        core::mem::swap(&mut self.entries, &mut entries);
        let added = match place {
            Some(i) => {
                entries.set(i, (key, value));
                false
            },
            None => {
                entries.push((key, value));
                true
            },
        };
        proof {
            let before = keys_of(old(self)@);
            assert forall|i: int, j: int| 0 <= i < j < entries@.len() implies (#[trigger] entries@[i]).0@
                != (#[trigger] entries@[j]).0@ by {
                if j < before.len() {
                    assert(entries@[i].0@ == before[i] || entries@[i].0@ == key@);
                    assert(entries@[j].0@ == before[j] || entries@[j].0@ == key@);
                } else {
                    assert(entries@[i].0@ == before[i]);
                }
            }
        }
        core::mem::swap(&mut self.entries, &mut entries);
        proof {
            match place {
                Some(i) => {
                    assert(self@ =~= old(self)@.update(i as int, (key@, value)));
                },
                None => {
                    assert(self@ =~= old(self)@.push((key@, value)));
                },
            }
        }
        added
    }
}

} // verus!
