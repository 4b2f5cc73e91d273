//! Applying stake overrides to a stake view.

use crate::address::IpAddress;
use crate::pubkey::Pubkey;
use crate::stake_map::lemma_entries_map_finite;
use crate::stake_sum::{lemma_map_sum_bounds_entry, lemma_map_sum_insert};
use crate::staked_nodes::{StakeView, StakedNodes};
use vstd::prelude::*;

verus! {

/// An override together with what the peer directory answered for its
/// identity: the peer's current address, or `None` for an unknown peer.
#[derive(Clone, Copy, Debug, PartialEq, Eq)]
pub struct ResolvedOverride {
    pub id: Pubkey,
    pub stake: u64,
    pub address: Option<IpAddress>,
}

/// An override that was not applied because its peer has no known address. It
/// names the identity and the stake, for the warning that reports it.
#[derive(Clone, Copy, Debug, PartialEq, Eq)]
pub struct SkippedOverride {
    pub id: Pubkey,
    pub stake: u64,
}

/// A reconciled view, and the overrides that were skipped on the way, in the
/// order of the overrides.
#[derive(Debug)]
pub struct Reconciled {
    pub nodes: StakedNodes,
    pub skipped: Vec<SkippedOverride>,
}

impl StakeView {
    /// The stake that `id` holds in the identity map; zero where it holds none.
    pub open spec fn stake_of(self, id: Pubkey) -> int {
        if self.pubkey_stake_map.contains_key(id) {
            self.pubkey_stake_map[id] as int
        } else {
            0
        }
    }

    /// The view after one override. With an address: the identity's earlier
    /// stake leaves the total, the override's stake enters it, and both maps
    /// hold the override's stake. Without an address: the view as it was.
    pub open spec fn with_override(self, o: ResolvedOverride) -> StakeView {
        match o.address {
            Some(address) => StakeView {
                total_stake: self.total_stake - self.stake_of(o.id) + o.stake,
                ip_stake_map: self.ip_stake_map.insert(address, o.stake),
                pubkey_stake_map: self.pubkey_stake_map.insert(o.id, o.stake),
            },
            None => self,
        }
    }

    /// The view after all of `overrides`, applied one after the other.
    pub open spec fn reconciled(self, overrides: Seq<ResolvedOverride>) -> StakeView
        decreases overrides.len(),
    {
        if overrides.len() == 0 {
            self
        } else {
            self.reconciled(overrides.drop_last()).with_override(overrides.last())
        }
    }

    /// Whether the total after one override still fits a `u64`.
    pub open spec fn fits(self, o: ResolvedOverride) -> bool {
        self.with_override(o).total_stake <= u64::MAX
    }

    /// Whether the total fits a `u64` after each of `overrides` in turn.
    pub open spec fn fits_all(self, overrides: Seq<ResolvedOverride>) -> bool
        decreases overrides.len(),
    {
        overrides.len() == 0 || (self.fits_all(overrides.drop_last()) && self.reconciled(
            overrides.drop_last(),
        ).fits(overrides.last()))
    }
}

/// The overrides among `overrides` that have no address, in order.
pub open spec fn skipped_overrides(overrides: Seq<ResolvedOverride>) -> Seq<SkippedOverride>
    decreases overrides.len(),
{
    if overrides.len() == 0 {
        Seq::empty()
    } else if overrides.last().address.is_none() {
        skipped_overrides(overrides.drop_last()).push(
            SkippedOverride { id: overrides.last().id, stake: overrides.last().stake },
        )
    } else {
        skipped_overrides(overrides.drop_last())
    }
}

impl StakedNodes {
    /// Whether the total would still fit a `u64` after the override `o`.
    pub fn fits(&self, o: &ResolvedOverride) -> (r: bool)
        ensures
            r == self@.fits(*o),
    {
        let total = self.total_stake();
        if o.address.is_none() {
            return true;
        }
        proof {
            if self@.pubkey_stake_map.contains_key(o.id) {
                lemma_map_sum_bounds_entry(self@.pubkey_stake_map, o.id);
            }
        }
        let base = match self.pubkey_stake_map().get(&o.id) {
            Some(previous) => total - previous,
            None => total,
        };
        o.stake <= u64::MAX - base
    }

    /// Applies one override. Where the directory gave an address, the
    /// override's stake replaces the identity's earlier stake in the total and
    /// is written under the identity and under the address. Where it gave
    /// none, nothing changes and the override is returned as skipped.
    pub fn apply_override(&mut self, o: &ResolvedOverride) -> (skipped: Option<SkippedOverride>)
        requires
            old(self)@.fits(*o),
        ensures
            final(self)@ == old(self)@.with_override(*o),
            skipped == if o.address.is_none() {
                Some(SkippedOverride { id: o.id, stake: o.stake })
            } else {
                None::<SkippedOverride>
            },
    {
        match o.address {
            None => Some(SkippedOverride { id: o.id, stake: o.stake }),
            Some(address) => {
                let mut current = StakedNodes::new();
                std::mem::swap(self, &mut current);
                let (total_stake, mut ip_to_stake, mut id_to_stake) = current.into_parts();
                proof {
                    lemma_entries_map_finite(id_to_stake.entries());
                    lemma_map_sum_insert(id_to_stake@, o.id, o.stake);
                    if id_to_stake@.contains_key(o.id) {
                        lemma_map_sum_bounds_entry(id_to_stake@, o.id);
                    }
                }
                let base = match id_to_stake.insert(o.id, o.stake) {
                    Some(previous) => total_stake - previous,
                    None => total_stake,
                };
                ip_to_stake.insert(address, o.stake);
                *self = StakedNodes::from_parts(base + o.stake, ip_to_stake, id_to_stake);
                None
            },
        }
    }

    /// Applies `overrides` one after the other, each on the view that the
    /// earlier ones left. Gives `None` when the total would leave the range of
    /// a `u64` at one of them.
    pub fn apply_overrides(self, overrides: &Vec<ResolvedOverride>) -> (r: Option<Reconciled>)
        ensures
            r.is_some() <==> self@.fits_all(overrides@),
            r matches Some(done) ==> done.nodes@ == self@.reconciled(overrides@) && done.skipped@
                == skipped_overrides(overrides@),
    {
        let ghost start = self@;
        let mut nodes = self;
        let mut skipped: Vec<SkippedOverride> = Vec::new();
        let mut i: usize = 0;
        while i < overrides.len()
            invariant
                i <= overrides@.len(),
                start == self@,
                start.fits_all(overrides@.take(i as int)),
                nodes@ == start.reconciled(overrides@.take(i as int)),
                skipped@ == skipped_overrides(overrides@.take(i as int)),
            decreases overrides@.len() - i,
        {
            assert(overrides@.take(i + 1).drop_last() =~= overrides@.take(i as int));
            if !nodes.fits(&overrides[i]) {
                proof {
                    if start.fits_all(overrides@) {
                        lemma_fits_all_prefix(start, overrides@, i + 1);
                    }
                }
                return None;
            }
            if let Some(warning) = nodes.apply_override(&overrides[i]) {
                skipped.push(warning);
            }
            i = i + 1;
        }
        assert(overrides@.take(i as int) =~= overrides@);
        Some(Reconciled { nodes, skipped })
    }
}

/// Where the total fits after each of `overrides`, it fits after each of the
/// first `n` of them.
pub proof fn lemma_fits_all_prefix(view: StakeView, overrides: Seq<ResolvedOverride>, n: int)
    requires
        0 <= n <= overrides.len(),
        view.fits_all(overrides),
    ensures
        view.fits_all(overrides.take(n)),
    decreases overrides.len(),
{
    if n < overrides.len() {
        assert(overrides.drop_last().take(n) =~= overrides.take(n));
        lemma_fits_all_prefix(view, overrides.drop_last(), n);
    } else {
        assert(overrides.take(n) =~= overrides);
    }
}

} // verus!
