//! A small verified map from copyable identifier keys to arbitrary values,
//! kept as a journal of key/value pairs in which the latest entry for a key
//! is the binding in force.

use vstd::prelude::*;
use crate::ids::{PoolId, TokenId};

verus! {

/// Keys usable in an [`AList`]: copyable values whose executable equality
/// test agrees with specification-level equality.
pub trait EqKey: Sized + Copy {
    fn key_eq(&self, other: &Self) -> (r: bool)
        ensures
            r == (*self == *other),
    ;
}

impl EqKey for TokenId {
    fn key_eq(&self, other: &Self) -> (r: bool)
        ensures
            r == (*self == *other),
    {
        self.0 == other.0
    }
}

impl EqKey for PoolId {
    fn key_eq(&self, other: &Self) -> (r: bool)
        ensures
            r == (*self == *other),
    {
        self.0 == other.0
    }
}

/// The map described by a sequence of key/value pairs; later entries win.
pub open spec fn entries_map<K, V>(s: Seq<(K, V)>) -> Map<K, V>
    decreases s.len(),
{
    if s.len() == 0 {
        Map::empty()
    } else {
        entries_map(s.drop_last()).insert(s.last().0, s.last().1)
    }
}

/// A finite map keyed by identifiers, stored as an append-only association
/// list. Its view is the [`Map`] it denotes.
pub struct AList<K, V> {
    entries: Vec<(K, V)>,
}

impl<K, V> View for AList<K, V> {
    type V = Map<K, V>;

    closed spec fn view(&self) -> Map<K, V> {
        entries_map(self.entries@)
    }
}

/// The latest entry holding a key denotes that key's value in the map.
proof fn lemma_entries_map_latest<K, V>(s: Seq<(K, V)>, i: int)
    requires
        0 <= i < s.len(),
        forall|j: int| i < j < s.len() ==> (#[trigger] s[j]).0 != s[i].0,
    ensures
        entries_map(s).contains_key(s[i].0),
        entries_map(s)[s[i].0] == s[i].1,
    decreases s.len(),
{
    if i == s.len() - 1 {
    } else {
        assert(s.drop_last()[i] == s[i]);
        assert(forall|j: int|
            i < j < s.drop_last().len() ==> (#[trigger] s.drop_last()[j]).0 != s[i].0);
        lemma_entries_map_latest(s.drop_last(), i);
        assert(s.last().0 != s[i].0);
    }
}

/// A key that appears in no entry is absent from the denoted map.
proof fn lemma_entries_map_absent<K, V>(s: Seq<(K, V)>, k: K)
    requires
        forall|i: int| 0 <= i < s.len() ==> (#[trigger] s[i]).0 != k,
    ensures
        !entries_map(s).contains_key(k),
    decreases s.len(),
{
    if s.len() > 0 {
        assert(forall|i: int|
            0 <= i < s.drop_last().len() ==> (#[trigger] s.drop_last()[i]).0 != k);
        lemma_entries_map_absent(s.drop_last(), k);
    }
}

impl<K: EqKey, V> AList<K, V> {
    /// The empty map.
    pub fn new() -> (r: Self)
        ensures
            r@ == Map::<K, V>::empty(),
    {
        AList { entries: Vec::new() }
    }

    /// Index of the latest entry holding `k`, if one does.
    fn find_latest(&self, k: K) -> (r: Option<usize>)
        ensures
            match r {
                Some(i) => {
                    &&& i < self.entries@.len()
                    &&& self.entries@[i as int].0 == k
                    &&& forall|j: int|
                        i < j < self.entries@.len() ==> (#[trigger] self.entries@[j]).0 != k
                },
                None => forall|j: int|
                    0 <= j < self.entries@.len() ==> (#[trigger] self.entries@[j]).0 != k,
            },
    {
        let mut i: usize = self.entries.len();
        while i > 0
            invariant
                i <= self.entries@.len(),
                forall|j: int|
                    i <= j < self.entries@.len() ==> (#[trigger] self.entries@[j]).0 != k,
            decreases i,
        {
            i = i - 1;
            if self.entries[i].0.key_eq(&k) {
                return Some(i);
            }
        }
        None
    }

    /// Whether `k` has an entry.
    pub fn contains_key(&self, k: K) -> (r: bool)
        ensures
            r == self@.contains_key(k),
    {
        match self.find_latest(k) {
            Some(i) => {
                proof {
                    lemma_entries_map_latest(self.entries@, i as int);
                }
                true
            }
            None => {
                proof {
                    lemma_entries_map_absent(self.entries@, k);
                }
                false
            }
        }
    }

    /// The value under `k`, if `k` is present.
    pub fn get(&self, k: K) -> (r: Option<&V>)
        ensures
            match r {
                Some(v) => self@.contains_key(k) && *v == self@[k],
                None => !self@.contains_key(k),
            },
    {
        match self.find_latest(k) {
            Some(i) => {
                proof {
                    lemma_entries_map_latest(self.entries@, i as int);
                }
                Some(&self.entries[i].1)
            }
            None => {
                proof {
                    lemma_entries_map_absent(self.entries@, k);
                }
                None
            }
        }
    }

    /// Binds `k` to `v`, superseding any earlier binding.
    pub fn insert(&mut self, k: K, v: V)
        ensures
            final(self)@ == old(self)@.insert(k, v),
    {
        let ghost s = self.entries@;
        self.entries.push((k, v));
        proof {
            assert(self.entries@.drop_last() =~= s);
        }
    }
}

} // verus!
