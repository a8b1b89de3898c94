//! An insertion-ordered table keyed by name, as the configuration's
//! `repositories:` and `jobs:` blocks are: iteration follows declaration
//! order, a lookup finds the entry declared under that name, and
//! inserting an existing name replaces its value in place.

use vstd::prelude::*;
use crate::text::str_eq;

verus! {

/// Index of the first entry named `key`.
pub open spec fn first_index_of<V>(entries: Seq<(Seq<char>, V)>, key: Seq<char>) -> Option<int>
    decreases entries.len(),
{
    if entries.len() == 0 {
        None
    } else {
        match first_index_of(entries.drop_last(), key) {
            Some(i) => Some(i),
            None => if entries.last().0 == key {
                Some(entries.len() - 1)
            } else {
                None
            },
        }
    }
}

/// What `first_index_of` returns, described by the names in `entries`.
pub proof fn lemma_first_index_of<V>(entries: Seq<(Seq<char>, V)>, key: Seq<char>)
    ensures
        match first_index_of(entries, key) {
            Some(i) => 0 <= i < entries.len() && entries[i].0 == key && forall|k: int|
                0 <= k < i ==> entries[k].0 != key,
            None => forall|k: int| 0 <= k < entries.len() ==> entries[k].0 != key,
        },
    decreases entries.len(),
{
    if entries.len() > 0 {
        lemma_first_index_of(entries.drop_last(), key);
        assert forall|k: int| 0 <= k < entries.len() - 1 implies entries[k] == entries.drop_last()[k] by {}
    }
}

/// The index described by `lemma_first_index_of` is the one returned.
pub proof fn lemma_first_index_at<V>(entries: Seq<(Seq<char>, V)>, key: Seq<char>, i: int)
    requires
        0 <= i <= entries.len(),
        i < entries.len() ==> entries[i].0 == key,
        forall|k: int| 0 <= k < i ==> entries[k].0 != key,
    ensures
        first_index_of(entries, key) == (if i < entries.len() { Some(i) } else { None::<int> }),
{
    lemma_first_index_of(entries, key);
}

/// The value of the first entry named `key`.
pub open spec fn lookup_in<V>(entries: Seq<(Seq<char>, V)>, key: Seq<char>) -> Option<V> {
    match first_index_of(entries, key) {
        Some(i) => Some(entries[i].1),
        None => None,
    }
}

/// The entries after declaring `value` under `key` (see `Table::insert`).
pub open spec fn inserted<V>(entries: Seq<(Seq<char>, V)>, key: Seq<char>, value: V) -> Seq<(Seq<char>, V)> {
    match first_index_of(entries, key) {
        Some(i) => entries.update(i, (key, value)),
        None => entries.push((key, value)),
    }
}

/// A lookup gives back the last value declared under a name, and
/// declaring one name leaves the lookups of every other name unchanged.
pub proof fn lemma_read_after_write<V>(entries: Seq<(Seq<char>, V)>, key: Seq<char>, value: V, other: Seq<char>)
    ensures
        lookup_in(inserted(entries, key, value), key) == Some(value),
        other != key ==> lookup_in(inserted(entries, key, value), other) == lookup_in(entries, other),
{
    let after = inserted(entries, key, value);
    lemma_first_index_of(entries, key);
    lemma_first_index_of(entries, other);
    match first_index_of(entries, key) {
        Some(i) => {
            lemma_first_index_at(after, key, i);
            if other != key {
                match first_index_of(entries, other) {
                    Some(j) => lemma_first_index_at(after, other, j),
                    None => lemma_first_index_at(after, other, after.len() as int),
                }
            }
        },
        None => {
            lemma_first_index_at(after, key, entries.len() as int);
            if other != key {
                match first_index_of(entries, other) {
                    Some(j) => lemma_first_index_at(after, other, j),
                    None => lemma_first_index_at(after, other, after.len() as int),
                }
            }
        },
    }
}

/// Declaring a name keeps the order of declaration: an existing name stays
/// where it was, a new one comes last.
pub proof fn lemma_insert_keeps_order<V>(entries: Seq<(Seq<char>, V)>, key: Seq<char>, value: V)
    ensures
        inserted(entries, key, value).len() == entries.len() + (if first_index_of(entries, key) is Some {
            0int
        } else {
            1int
        }),
        forall|k: int| 0 <= k < entries.len() ==> (#[trigger] inserted(entries, key, value)[k]).0 == entries[k].0,
{
    lemma_first_index_of(entries, key);
}

/// Named entries in declaration order.
#[derive(Debug)]
pub struct Table<V> {
    entries: Vec<(String, V)>,
}

impl<V> View for Table<V> {
    type V = Seq<(Seq<char>, V)>;

    closed spec fn view(&self) -> Seq<(Seq<char>, V)> {
        self.entries@.map_values(|e: (String, V)| (e.0@, e.1))
    }
}

impl<V> Table<V> {
    /// The value declared under `key`, if any.
    pub open spec fn lookup(&self, key: Seq<char>) -> Option<V> {
        match first_index_of(self@, key) {
            Some(i) => Some(self@[i].1),
            None => None,
        }
    }

    /// `key` names an entry of the table.
    pub open spec fn has_key(&self, key: Seq<char>) -> bool {
        first_index_of(self@, key) is Some
    }

    /// An empty table.
    pub fn new() -> (t: Self)
        ensures
            t@ == Seq::<(Seq<char>, V)>::empty(),
    {
        let t = Table { entries: Vec::new() };
        assert(t@ =~= Seq::<(Seq<char>, V)>::empty());
        t
    }

    /// Number of entries.
    pub fn len(&self) -> (n: usize)
        ensures
            n == self@.len(),
    {
        self.entries.len()
    }

    /// The name of the `i`-th entry.
    pub fn key_at(&self, i: usize) -> (k: &String)
        requires
            i < self@.len(),
        ensures
            k@ == self@[i as int].0,
    {
        &self.entries[i].0
    }

    /// The value of the `i`-th entry.
    pub fn value_at(&self, i: usize) -> (v: &V)
        requires
            i < self@.len(),
        ensures
            *v == self@[i as int].1,
    {
        &self.entries[i].1
    }

    /// Position of the entry named `key`.
    pub fn position(&self, key: &str) -> (r: Option<usize>)
        ensures
            r matches Some(i) ==> first_index_of(self@, key@) == Some(i as int),
            r is None ==> first_index_of(self@, key@) is None,
    {
        let mut i: usize = 0;
        while i < self.entries.len()
            invariant
                i <= self@.len(),
                forall|k: int| 0 <= k < i ==> self@[k].0 != key@,
            decreases self.entries.len() - i,
        {
            if str_eq(self.entries[i].0.as_str(), key) {
                proof {
                    lemma_first_index_at(self@, key@, i as int);
                }
                return Some(i);
            }
            i += 1;
        }
        proof {
            lemma_first_index_at(self@, key@, self@.len() as int);
        }
        None
    }

    /// `key` names an entry of the table.
    pub fn contains_key(&self, key: &str) -> (b: bool)
        ensures
            b == self.has_key(key@),
    {
        self.position(key).is_some()
    }

    /// The value declared under `key`.
    pub fn get(&self, key: &str) -> (r: Option<&V>)
        ensures
            match r {
                Some(v) => self.lookup(key@) == Some(*v),
                None => self.lookup(key@) is None,
            },
    {
        proof {
            lemma_first_index_of(self@, key@);
        }
        match self.position(key) {
            Some(i) => Some(&self.entries[i].1),
            None => None,
        }
    }

    /// Declare `value` under `key`: a new name is appended, an existing
    /// one keeps its position and takes the new value.
    pub fn insert(&mut self, key: String, value: V)
        ensures
            final(self)@ == inserted(old(self)@, key@, value),
            match first_index_of(old(self)@, key@) {
                Some(i) => final(self)@ == old(self)@.update(i, (key@, value)),
                None => final(self)@ == old(self)@.push((key@, value)),
            },
    {
        proof {
            lemma_first_index_of(self@, key@);
        }
        match self.position(key.as_str()) {
            Some(i) => {
                let ghost k = key@;
                self.entries.set(i, (key, value));
                assert(self@ =~= old(self)@.update(i as int, (k, value)));
            },
            None => {
                let ghost k = key@;
                self.entries.push((key, value));
                assert(self@ =~= old(self)@.push((k, value)));
            },
        }
    }

    /// Take out the entry named `key`, returning its value.
    pub fn remove(&mut self, key: &str) -> (r: Option<V>)
        ensures
            match first_index_of(old(self)@, key@) {
                Some(i) => r == Some(old(self)@[i].1) && final(self)@ == old(self)@.remove(i),
                None => r is None && final(self)@ == old(self)@,
            },
    {
        proof {
            lemma_first_index_of(self@, key@);
        }
        match self.position(key) {
            Some(i) => {
                let (_k, v) = self.entries.remove(i);
                assert(self@ =~= old(self)@.remove(i as int));
                Some(v)
            },
            None => None,
        }
    }
}

} // verus!
