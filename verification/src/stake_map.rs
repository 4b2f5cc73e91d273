//! A map from keys to stakes that keeps its entries in the order in which their
//! keys were first inserted.

use crate::address::IpAddress;
use crate::pubkey::Pubkey;
use vstd::prelude::*;

verus! {

/// A key of a [`StakeMap`]: a plain value that can be compared.
pub trait StakeKey: Copy {
    /// Whether two keys are the same value.
    fn same_key(&self, other: &Self) -> (r: bool)
        ensures
            r == (*self == *other),
    ;
}

impl StakeKey for Pubkey {
    fn same_key(&self, other: &Pubkey) -> (r: bool) {
        self.same(other)
    }
}

impl StakeKey for IpAddress {
    fn same_key(&self, other: &IpAddress) -> (r: bool) {
        *self == *other
    }
}

/// The map that a sequence of entries stands for; of two entries with one key
/// the later one counts.
pub open spec fn entries_map<K>(entries: Seq<(K, u64)>) -> Map<K, u64>
    decreases entries.len(),
{
    if entries.len() == 0 {
        Map::empty()
    } else {
        entries_map(entries.drop_last()).insert(entries.last().0, entries.last().1)
    }
}

/// No key occurs in two entries.
pub open spec fn distinct_keys<K>(entries: Seq<(K, u64)>) -> bool {
    forall|i: int, j: int| 0 <= i < j < entries.len() ==> entries[i].0 != entries[j].0
}

/// The entries after `value` was written under `key`: the entry of `key` is
/// replaced where it stands, a new key goes to the end.
pub open spec fn entries_insert<K>(entries: Seq<(K, u64)>, key: K, value: u64) -> Seq<(K, u64)> {
    if exists|i: int| 0 <= i < entries.len() && entries[i].0 == key {
        let i = choose|i: int| 0 <= i < entries.len() && entries[i].0 == key;
        entries.update(i, (key, value))
    } else {
        entries.push((key, value))
    }
}

/// The map of a sequence of entries is finite.
pub proof fn lemma_entries_map_finite<K>(entries: Seq<(K, u64)>)
    ensures
        entries_map(entries).dom().finite(),
    decreases entries.len(),
{
    if entries.len() > 0 {
        lemma_entries_map_finite(entries.drop_last());
    }
}

/// A key that no entry holds is not in the map.
pub proof fn lemma_entries_map_absent<K>(entries: Seq<(K, u64)>, key: K)
    requires
        forall|i: int| 0 <= i < entries.len() ==> entries[i].0 != key,
    ensures
        !entries_map(entries).contains_key(key),
    decreases entries.len(),
{
    if entries.len() > 0 {
        lemma_entries_map_absent(entries.drop_last(), key);
    }
}

/// A key in the map is the key of some entry.
pub proof fn lemma_entries_map_present<K>(entries: Seq<(K, u64)>, key: K)
    requires
        entries_map(entries).contains_key(key),
    ensures
        exists|i: int| 0 <= i < entries.len() && entries[i].0 == key,
{
    if !(exists|i: int| 0 <= i < entries.len() && entries[i].0 == key) {
        lemma_entries_map_absent(entries, key);
    }
}

/// With distinct keys, each entry is what the map holds under its key.
pub proof fn lemma_entries_map_lookup<K>(entries: Seq<(K, u64)>, i: int)
    requires
        distinct_keys(entries),
        0 <= i < entries.len(),
    ensures
        entries_map(entries).contains_key(entries[i].0),
        entries_map(entries)[entries[i].0] == entries[i].1,
    decreases entries.len(),
{
    if i < entries.len() - 1 {
        lemma_entries_map_lookup(entries.drop_last(), i);
    }
}

/// With distinct keys, replacing the stake of one entry is an insertion under
/// its key.
pub proof fn lemma_entries_map_update<K>(entries: Seq<(K, u64)>, i: int, value: u64)
    requires
        distinct_keys(entries),
        0 <= i < entries.len(),
    ensures
        distinct_keys(entries.update(i, (entries[i].0, value))),
        entries_map(entries.update(i, (entries[i].0, value))) == entries_map(entries).insert(
            entries[i].0,
            value,
        ),
    decreases entries.len(),
{
    let key = entries[i].0;
    let updated = entries.update(i, (key, value));
    let front = entries.drop_last();
    if i == entries.len() - 1 {
        assert(updated.drop_last() =~= front);
        assert(entries_map(updated) =~= entries_map(entries).insert(key, value));
    } else {
        lemma_entries_map_update(front, i, value);
        assert(updated.drop_last() =~= front.update(i, (key, value)));
        assert(entries_map(updated) =~= entries_map(entries).insert(key, value));
    }
}

/// With distinct keys, the map has as many keys as there are entries.
pub proof fn lemma_entries_map_len<K>(entries: Seq<(K, u64)>)
    requires
        distinct_keys(entries),
    ensures
        entries_map(entries).dom().finite(),
        entries_map(entries).dom().len() == entries.len(),
    decreases entries.len(),
{
    if entries.len() > 0 {
        let front = entries.drop_last();
        lemma_entries_map_len(front);
        lemma_entries_map_absent(front, entries.last().0);
    }
}

/// With distinct keys, the map of the first `n` entries is part of the whole
/// map.
pub proof fn lemma_entries_map_prefix<K>(entries: Seq<(K, u64)>, n: int)
    requires
        distinct_keys(entries),
        0 <= n <= entries.len(),
    ensures
        entries_map(entries.take(n)).submap_of(entries_map(entries)),
{
    let part = entries.take(n);
    let part_map = entries_map(part);
    let whole_map = entries_map(entries);
    assert forall|key: K| #[trigger] part_map.dom().contains(key) implies whole_map.dom().contains(
        key,
    ) && part_map[key] == whole_map[key] by {
        lemma_entries_map_present(part, key);
        let i = choose|i: int| 0 <= i < part.len() && part[i].0 == key;
        lemma_entries_map_lookup(part, i);
        lemma_entries_map_lookup(entries, i);
    }
}

/// A map from keys to stakes. Each key occurs once; the entries keep the order
/// in which their keys were first inserted.
#[derive(Debug)]
pub struct StakeMap<K> {
    entries: Vec<(K, u64)>,
}

impl<K> StakeMap<K> {
    #[verifier::type_invariant]
    spec fn has_distinct_keys(self) -> bool {
        distinct_keys(self.entries@)
    }

    /// The entries in order.
    pub closed spec fn entries(&self) -> Seq<(K, u64)> {
        self.entries@
    }
}

impl<K> View for StakeMap<K> {
    type V = Map<K, u64>;

    open spec fn view(&self) -> Map<K, u64> {
        entries_map(self.entries())
    }
}

impl<K: StakeKey> StakeMap<K> {
    /// The empty map.
    pub fn new() -> (map: StakeMap<K>)
        ensures
            map.entries() == Seq::<(K, u64)>::empty(),
            map@ == Map::<K, u64>::empty(),
    {
        StakeMap { entries: Vec::new() }
    }

    /// The number of keys.
    pub fn len(&self) -> (n: usize)
        ensures
            n == self.entries().len(),
            n == self@.dom().len(),
            self@.dom().finite(),
            distinct_keys(self.entries()),
    {
        proof {
            use_type_invariant(self);
            lemma_entries_map_len(self.entries@);
        }
        self.entries.len()
    }

    /// The entry at position `i`, if there is one.
    pub fn entry(&self, i: usize) -> (r: Option<(K, u64)>)
        ensures
            r == if i < self.entries().len() {
                Some(self.entries()[i as int])
            } else {
                None
            },
            r matches Some(e) ==> self@.contains_key(e.0) && self@[e.0] == e.1,
    {
        if i < self.entries.len() {
            proof {
                use_type_invariant(self);
                lemma_entries_map_lookup(self.entries@, i as int);
            }
            Some(self.entries[i])
        } else {
            None
        }
    }

    fn position(&self, key: &K) -> (r: Option<usize>)
        ensures
            match r {
                Some(i) => i < self.entries@.len() && self.entries@[i as int].0 == *key,
                None => forall|i: int| 0 <= i < self.entries@.len() ==> self.entries@[i].0 != *key,
            },
    {
        let mut i: usize = 0;
        while i < self.entries.len()
            invariant
                i <= self.entries@.len(),
                forall|j: int| 0 <= j < i ==> self.entries@[j].0 != *key,
            decreases self.entries@.len() - i,
        {
            if self.entries[i].0.same_key(key) {
                return Some(i);
            }
            i = i + 1;
        }
        None
    }

    /// The stake held under `key`, if any.
    pub fn get(&self, key: &K) -> (r: Option<u64>)
        ensures
            r == if self@.contains_key(*key) {
                Some(self@[*key])
            } else {
                None
            },
    {
        proof {
            use_type_invariant(self);
        }
        match self.position(key) {
            Some(i) => {
                proof {
                    lemma_entries_map_lookup(self.entries@, i as int);
                }
                Some(self.entries[i].1)
            },
            None => {
                proof {
                    lemma_entries_map_absent(self.entries@, *key);
                }
                None
            },
        }
    }

    /// Whether `key` holds a stake.
    pub fn contains_key(&self, key: &K) -> (r: bool)
        ensures
            r == self@.contains_key(*key),
    {
        self.get(key).is_some()
    }

    /// Writes `value` under `key` and returns the stake that `key` held before.
    pub fn insert(&mut self, key: K, value: u64) -> (previous: Option<u64>)
        ensures
            final(self)@ == old(self)@.insert(key, value),
            final(self).entries() == entries_insert(old(self).entries(), key, value),
            previous == if old(self)@.contains_key(key) {
                Some(old(self)@[key])
            } else {
                None
            },
    {
        proof {
            use_type_invariant(&*self);
        }
        let found = self.position(&key);
        let mut entries: Vec<(K, u64)> = Vec::new();
        std::mem::swap(&mut entries, &mut self.entries);
        let ghost before = entries@;
        let previous = match found {
            Some(i) => {
                proof {
                    lemma_entries_map_lookup(before, i as int);
                    lemma_entries_map_update(before, i as int, value);
                    let c = choose|c: int| 0 <= c < before.len() && before[c].0 == key;
                    assert(c == i);
                }
                let previous = entries[i].1;
                entries.set(i, (key, value));
                Some(previous)
            },
            None => {
                proof {
                    lemma_entries_map_absent(before, key);
                    assert(before.push((key, value)).drop_last() =~= before);
                }
                entries.push((key, value));
                None
            },
        };
        self.entries = entries;
        previous
    }
}

impl<K: StakeKey> Clone for StakeMap<K> {
    fn clone(&self) -> (copy: StakeMap<K>)
        ensures
            copy.entries() == self.entries(),
            copy@ == self@,
    {
        proof {
            use_type_invariant(self);
        }
        let mut entries: Vec<(K, u64)> = Vec::new();
        let mut i: usize = 0;
        while i < self.entries.len()
            invariant
                i <= self.entries@.len(),
                entries@ == self.entries@.take(i as int),
            decreases self.entries@.len() - i,
        {
            entries.push(self.entries[i]);
            assert(self.entries@.take(i + 1) =~= self.entries@.take(i as int).push(
                self.entries@[i as int],
            ));
            i = i + 1;
        }
        assert(self.entries@.take(i as int) =~= self.entries@);
        StakeMap { entries }
    }
}

} // verus!
