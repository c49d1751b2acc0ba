//! Maps from keys that std's hash maps are not specified for.
use vstd::prelude::*;

use std::collections::HashMap;

use crate::basics::Id;

verus! {

broadcast use vstd::std_specs::hash::group_hash_axioms;

/// A key of a [`Table`]: equal keys have equal codes.
pub trait TableKey: Sized {
    /// What a key stands for.
    type Key;

    spec fn key(&self) -> Self::Key;

    /// The number by which a key is found.
    spec fn code(key: Self::Key) -> u64;

    fn table_code(&self) -> (c: u64)
        ensures
            c == Self::code(self.key()),
    ;

    fn same_key(&self, other: &Self) -> (b: bool)
        ensures
            b == (self.key() == other.key()),
    ;
}

/// The value of the first entry with a key.
pub open spec fn entry<K: TableKey, V>(entries: Seq<(K, V)>, key: K::Key) -> Option<V>
    decreases entries.len(),
{
    if entries.len() == 0 {
        None
    } else if entries[0].0.key() == key {
        Some(entries[0].1)
    } else {
        entry(entries.skip(1), key)
    }
}

/// The position of the entry that [`entry`] finds.
proof fn lemma_entry_at<K: TableKey, V>(entries: Seq<(K, V)>, key: K::Key, i: int)
    requires
        0 <= i <= entries.len(),
        forall|j: int| 0 <= j < i ==> (#[trigger] entries[j]).0.key() != key,
    ensures
        i == entries.len() ==> entry(entries, key) is None,
        i < entries.len() && entries[i].0.key() == key ==> entry(entries, key) == Some(entries[i].1),
    decreases i,
{
    if i > 0 {
        let rest = entries.skip(1);
        assert forall|j: int| 0 <= j < i - 1 implies (#[trigger] rest[j]).0.key() != key by {
            assert(rest[j] == entries[j + 1]);
        }
        lemma_entry_at(rest, key, i - 1);
        if i < entries.len() {
            assert(rest[i - 1] == entries[i]);
        }
    }
}

/// Setting the value of the first entry with a key, or adding an entry where
/// there is none, changes what is found under that key and nothing else.
proof fn lemma_entry_set<K: TableKey, V>(
    entries: Seq<(K, V)>,
    after: Seq<(K, V)>,
    i: int,
    key: K::Key,
    value: V,
    other: K::Key,
)
    requires
        0 <= i <= entries.len(),
        forall|j: int| 0 <= j < i ==> (#[trigger] entries[j]).0.key() != key,
        i < entries.len() ==> entries[i].0.key() == key,
        after.len() == (if i < entries.len() {
            entries.len()
        } else {
            entries.len() + 1
        }),
        forall|j: int| 0 <= j < entries.len() && j != i ==> #[trigger] after[j] == entries[j],
        after[i].0.key() == key,
        after[i].1 == value,
    ensures
        entry(after, other) == (if other == key {
            Some(value)
        } else {
            entry(entries, other)
        }),
    decreases entries.len(),
{
    if i == 0 {
        if entries.len() > 0 {
            assert(after.skip(1) =~= entries.skip(1)) by {
                assert forall|j: int| 0 <= j < after.len() - 1 implies #[trigger] after.skip(1)[j]
                    == entries.skip(1)[j] by {
                    assert(after[j + 1] == entries[j + 1]);
                }
            }
        } else {
            assert(after.skip(1).len() == 0);
        }
    } else {
        let e = entries.skip(1);
        let a = after.skip(1);
        assert(after[0] == entries[0]);
        assert forall|j: int| 0 <= j < i - 1 implies (#[trigger] e[j]).0.key() != key by {
            assert(e[j] == entries[j + 1]);
        }
        assert forall|j: int| 0 <= j < e.len() && j != i - 1 implies #[trigger] a[j] == e[j] by {
            assert(after[j + 1] == entries[j + 1]);
        }
        if i < entries.len() {
            assert(e[i - 1] == entries[i]);
        }
        assert(a[i - 1] == after[i]);
        lemma_entry_set(e, a, i - 1, key, value, other);
    }
}

/// A map. The entries are kept apart by the codes of their keys.
#[verifier::reject_recursive_types(K)]
#[verifier::reject_recursive_types(V)]
pub struct Table<K: TableKey, V> {
    buckets: HashMap<u64, Vec<(K, V)>>,
}

impl<K: TableKey, V> Table<K, V> {
    /// What is found under a key.
    pub closed spec fn find(&self, key: K::Key) -> Option<V> {
        if self.buckets@.contains_key(K::code(key)) {
            entry(self.buckets@[K::code(key)]@, key)
        } else {
            None
        }
    }
}

impl<K: TableKey, V> View for Table<K, V> {
    type V = Map<K::Key, V>;

    open spec fn view(&self) -> Map<K::Key, V> {
        Map::new(|key: K::Key| self.find(key) is Some, |key: K::Key| self.find(key)->0)
    }
}

impl<K: TableKey, V> Table<K, V> {
    pub fn new() -> (t: Table<K, V>)
        ensures
            t@ == Map::<K::Key, V>::empty(),
    {
        let t = Table { buckets: HashMap::new() };
        assert(t@ =~= Map::<K::Key, V>::empty());
        t
    }

    /// The first position with a key, or the number of entries.
    fn position(entries: &Vec<(K, V)>, key: &K) -> (i: usize)
        ensures
            i <= entries@.len(),
            forall|j: int| 0 <= j < i ==> (#[trigger] entries@[j]).0.key() != key.key(),
            i < entries@.len() ==> entries@[i as int].0.key() == key.key(),
    {
        for i in 0..entries.len()
            invariant
                forall|j: int| 0 <= j < i ==> (#[trigger] entries@[j]).0.key() != key.key(),
        {
            if entries[i].0.same_key(key) {
                return i;
            }
        }
        entries.len()
    }

    /// Looks a key up.
    pub fn get(&self, key: &K) -> (r: Option<&V>)
        ensures
            r == (if self@.contains_key(key.key()) {
                Some(&self@[key.key()])
            } else {
                None
            }),
    {
        let code: u64 = key.table_code();
        match self.buckets.get(&code) {
            Some(entries) => {
                let i: usize = Self::position(entries, key);
                proof {
                    lemma_entry_at(entries@, key.key(), i as int);
                }
                if i < entries.len() {
                    Some(&entries[i].1)
                } else {
                    None
                }
            },
            None => None,
        }
    }

    /// Stores a value under a key.
    pub fn insert(&mut self, key: K, value: V)
        ensures
            final(self)@ == old(self)@.insert(key.key(), value),
    {
        let code: u64 = key.table_code();
        let ghost k = key.key();
        let ghost before = *self;
        let mut entries: Vec<(K, V)> = match self.buckets.remove(&code) {
            Some(entries) => entries,
            None => Vec::new(),
        };
        let ghost old_entries = entries@;
        let i: usize = Self::position(&entries, &key);
        if i < entries.len() {
            entries.set(i, (key, value));
        } else {
            entries.push((key, value));
        }
        let ghost new_entries = entries@;
        self.buckets.insert(code, entries);
        proof {
            assert forall|other: K::Key| #[trigger] self.find(other) == (if other == k {
                Some(value)
            } else {
                before.find(other)
            }) by {
                if K::code(other) == code {
                    lemma_entry_set(old_entries, new_entries, i as int, k, value, other);
                }
            }
            assert(self@ =~= before@.insert(k, value));
        }
    }
}

/// A map from ids.
#[verifier::reject_recursive_types(V)]
pub struct IdMap<V> {
    entries: HashMap<u64, V>,
}

impl<V> View for IdMap<V> {
    type V = Map<Id, V>;

    closed spec fn view(&self) -> Map<Id, V> {
        Map::new(|id: Id| self.entries@.contains_key(id.0), |id: Id| self.entries@[id.0])
    }
}

impl<V> IdMap<V> {
    pub fn new() -> (m: IdMap<V>)
        ensures
            m@ == Map::<Id, V>::empty(),
    {
        let m = IdMap { entries: HashMap::new() };
        assert(m@ =~= Map::<Id, V>::empty());
        m
    }

    /// Looks an id up.
    pub fn get(&self, id: Id) -> (r: Option<&V>)
        ensures
            r == (if self@.contains_key(id) {
                Some(&self@[id])
            } else {
                None
            }),
    {
        self.entries.get(&id.0)
    }

    /// Whether anything is stored under an id.
    pub fn contains(&self, id: Id) -> (b: bool)
        ensures
            b == self@.contains_key(id),
    {
        self.entries.contains_key(&id.0)
    }

    /// Stores a value under an id.
    pub fn insert(&mut self, id: Id, value: V)
        ensures
            final(self)@ == old(self)@.insert(id, value),
    {
        let ghost before = self@;
        self.entries.insert(id.0, value);
        assert(self@ =~= before.insert(id, value));
    }

    /// Takes out what is stored under an id.
    pub fn remove(&mut self, id: Id) -> (r: Option<V>)
        ensures
            final(self)@ == old(self)@.remove(id),
            r == (if old(self)@.contains_key(id) {
                Some(old(self)@[id])
            } else {
                None
            }),
    {
        let ghost before = self@;
        let r = self.entries.remove(&id.0);
        assert(self@ =~= before.remove(id));
        r
    }
}

} // verus!
