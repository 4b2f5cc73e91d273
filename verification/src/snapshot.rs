//! The ledger's stake snapshot.

use crate::pubkey::Pubkey;
use crate::stake_map::{
    distinct_keys, entries_map, lemma_entries_map_absent, lemma_entries_map_finite,
    lemma_entries_map_prefix, StakeMap,
};
use crate::stake_sum::{lemma_map_sum_insert, lemma_map_sum_submap, map_sum};
use vstd::prelude::*;

verus! {

/// A point-in-time mapping from identity to stake, with the total stake of all
/// its entries.
#[derive(Debug)]
pub struct StakeSnapshot {
    stakes: StakeMap<Pubkey>,
    total_stake: u64,
}

impl View for StakeSnapshot {
    type V = Map<Pubkey, u64>;

    closed spec fn view(&self) -> Map<Pubkey, u64> {
        self.stakes@
    }
}

impl StakeSnapshot {
    #[verifier::type_invariant]
    spec fn total_is_sum(self) -> bool {
        self.total_stake == map_sum(self.stakes@)
    }

    /// The snapshot of `stakes`, unless their sum is more than a `u64` holds.
    pub fn new(stakes: StakeMap<Pubkey>) -> (r: Option<StakeSnapshot>)
        ensures
            r.is_some() <==> map_sum(stakes@) <= u64::MAX,
            r matches Some(snapshot) ==> snapshot@ == stakes@,
    {
        let n = stakes.len();
        let ghost entries = stakes.entries();
        let mut total: u64 = 0;
        let mut i: usize = 0;
        while i < n
            invariant
                i <= n,
                n == entries.len(),
                entries == stakes.entries(),
                distinct_keys(entries),
                total == map_sum(entries_map(entries.take(i as int))),
            decreases n - i,
        {
            let entry = stakes.entry(i).unwrap();
            proof {
                let prefix = entries.take(i as int);
                let next = entries.take(i + 1);
                assert(next.drop_last() =~= prefix);
                lemma_entries_map_absent(prefix, entry.0);
                lemma_entries_map_finite(prefix);
                lemma_map_sum_insert(entries_map(prefix), entry.0, entry.1);
                lemma_entries_map_prefix(entries, i + 1);
                lemma_entries_map_finite(entries);
                lemma_map_sum_submap(entries_map(next), entries_map(entries));
            }
            match total.checked_add(entry.1) {
                Some(sum) => {
                    total = sum;
                },
                None => {
                    return None;
                },
            }
            i = i + 1;
        }
        assert(entries.take(n as int) =~= entries);
        Some(StakeSnapshot { stakes, total_stake: total })
    }

    /// The total stake known to the ledger: the sum over the whole snapshot.
    pub fn total_stake(&self) -> (total: u64)
        ensures
            total == map_sum(self@),
            self@.dom().finite(),
    {
        proof {
            use_type_invariant(self);
            lemma_entries_map_finite(self.stakes.entries());
        }
        self.total_stake
    }

    /// The stake of `id`, if the snapshot holds one.
    pub fn stake_of(&self, id: &Pubkey) -> (r: Option<u64>)
        ensures
            r == if self@.contains_key(*id) {
                Some(self@[*id])
            } else {
                None
            },
    {
        self.stakes.get(id)
    }

    /// The mapping from identity to stake.
    pub fn stakes(&self) -> (stakes: &StakeMap<Pubkey>)
        ensures
            stakes@ == self@,
    {
        &self.stakes
    }
}

} // verus!
