//! A small keyed store: a list of entries in which no key occurs twice.

use crate::word::Address;
use vstd::prelude::*;

verus! {

/// A key that can be compared in executable code.
pub trait Key: Copy {
    /// Whether the two keys are the same value.
    fn same_key(&self, other: &Self) -> (r: bool)
        ensures
            r == (*self == *other),
    ;
}

/// A 32-byte record identifier.
#[derive(Clone, Copy, Debug, PartialEq, Eq)]
pub struct Id {
    pub bytes: [u8; 32],
}

/// An account under a record: the key of a contribution.
#[derive(Clone, Copy, Debug, PartialEq, Eq)]
pub struct Slot {
    pub id: Id,
    pub account: Address,
}

/// Whether two 32-byte identifiers are the same.
pub fn same_id(a: &[u8; 32], b: &[u8; 32]) -> (r: bool)
    ensures
        r == (*a == *b),
{
    let mut i: usize = 0;
    while i < 32
        invariant
            i <= 32,
            forall|j: int| 0 <= j < i ==> a[j] == b[j],
        decreases 32 - i,
    {
        if a[i] != b[i] {
            return false;
        }
        i += 1;
    }
    assert(*a =~= *b);
    true
}

impl Key for Id {
    fn same_key(&self, other: &Self) -> (r: bool) {
        same_id(&self.bytes, &other.bytes)
    }
}

impl Key for Address {
    fn same_key(&self, other: &Self) -> (r: bool) {
        self.same(other)
    }
}

impl Key for Slot {
    fn same_key(&self, other: &Self) -> (r: bool) {
        self.id.same_key(&other.id) && self.account.same(&other.account)
    }
}

/// A finite map from keys to values, held as two parallel lists.
#[verifier::reject_recursive_types(K)]
pub struct Table<K: Key, V: Copy> {
    keys: Vec<K>,
    vals: Vec<V>,
    model: Ghost<Map<K, V>>,
}

impl<K: Key, V: Copy> Table<K, V> {
    /// The map that the table stands for.
    pub closed spec fn view(&self) -> Map<K, V> {
        self.model@
    }

    /// The lists agree with the map, and no key occurs twice.
    #[verifier::type_invariant]
    spec fn wf(self) -> bool {
        &&& self.keys@.len() == self.vals@.len()
        &&& forall|i: int|
            0 <= i < self.keys@.len() ==> self.model@.contains_key(#[trigger] self.keys@[i])
                && self.model@[self.keys@[i]] == self.vals@[i]
        &&& forall|k: K| #[trigger]
            self.model@.contains_key(k) ==> exists|i: int|
                0 <= i < self.keys@.len() && (#[trigger] self.keys@[i]) == k
        &&& forall|i: int, j: int|
            0 <= i < j < self.keys@.len() ==> (#[trigger] self.keys@[i]) != (
            #[trigger] self.keys@[j])
    }

    /// The value under a key, where there is one.
    pub open spec fn lookup(&self, key: K) -> Option<V> {
        if self@.contains_key(key) {
            Some(self@[key])
        } else {
            None
        }
    }

    /// The empty table.
    pub fn new() -> (t: Self)
        ensures
            t@ == Map::<K, V>::empty(),
    {
        Table { keys: Vec::new(), vals: Vec::new(), model: Ghost(Map::empty()) }
    }

    fn position(&self, key: &K) -> (r: Option<usize>)
        ensures
            match r {
                Some(i) => i < self.keys@.len() && self.keys@[i as int] == *key
                    && self@.contains_key(*key),
                None => !self@.contains_key(*key),
            },
    {
        proof {
            use_type_invariant(self);
        }
        let mut i: usize = 0;
        while i < self.keys.len()
            invariant
                self.wf(),
                i <= self.keys@.len(),
                forall|j: int| 0 <= j < i ==> self.keys@[j] != *key,
            decreases self.keys@.len() - i,
        {
            if self.keys[i].same_key(key) {
                return Some(i);
            }
            i += 1;
        }
        None
    }

    /// Reads the value under a key.
    pub fn get(&self, key: &K) -> (r: Option<V>)
        ensures
            r == self.lookup(*key),
    {
        proof {
            use_type_invariant(self);
        }
        match self.position(key) {
            Some(i) => Some(self.vals[i]),
            None => None,
        }
    }

    /// Writes the value under a key, replacing the one that was there.
    pub fn insert(&mut self, key: K, val: V)
        ensures
            final(self)@ == old(self)@.insert(key, val),
    {
        proof {
            use_type_invariant(&*self);
        }
        let found = self.position(&key);
        let mut taken = Self::new();
        std::mem::swap(self, &mut taken);
        let Table { keys, vals, model } = taken;
        let mut keys = keys;
        let mut vals = vals;
        let ghost before = keys@;
        let ghost at: int;
        match found {
            Some(i) => {
                vals.set(i, val);
                proof {
                    at = i as int;
                }
            },
            None => {
                proof {
                    at = keys@.len() as int;
                }
                keys.push(key);
                vals.push(val);
            },
        }
        let ghost after = model@.insert(key, val);
        proof {
            assert forall|k: K| #[trigger] after.contains_key(k) implies exists|i: int|
                0 <= i < keys@.len() && (#[trigger] keys@[i]) == k by {
                if k != key {
                    let i = choose|i: int| 0 <= i < before.len() && (#[trigger] before[i]) == k;
                    assert(keys@[i] == k);
                } else {
                    assert(keys@[at] == k);
                }
            }
        }
        *self = Table { keys, vals, model: Ghost(after) };
    }
}

} // verus!
