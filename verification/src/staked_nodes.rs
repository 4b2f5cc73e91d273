//! The published stake view.

use crate::address::IpAddress;
use crate::pubkey::Pubkey;
use crate::stake_map::StakeMap;
use crate::stake_sum::map_sum;
use vstd::prelude::*;

verus! {

/// What a [`StakedNodes`] value stands for: the total stake, and the stake of
/// each known address and of each known identity.
pub struct StakeView {
    pub total_stake: int,
    pub ip_stake_map: Map<IpAddress, u64>,
    pub pubkey_stake_map: Map<Pubkey, u64>,
}

impl StakeView {
    /// The view with no stake and no peer.
    pub open spec fn empty() -> StakeView {
        StakeView { total_stake: 0, ip_stake_map: Map::empty(), pubkey_stake_map: Map::empty() }
    }

    /// The stake that the total holds beyond that of the identities in the
    /// view: the stake of nodes that the ledger knows and the directory does
    /// not.
    pub open spec fn unreachable_stake(self) -> int {
        self.total_stake - map_sum(self.pubkey_stake_map)
    }

    /// The identity map is finite and the total covers it.
    pub open spec fn consistent(self) -> bool {
        &&& self.pubkey_stake_map.dom().finite()
        &&& self.unreachable_stake() >= 0
    }
}

/// Total stake, and the stake of each known address and of each known
/// identity, as of one refresh.
#[derive(Debug)]
pub struct StakedNodes {
    total_stake: u64,
    ip_stake_map: StakeMap<IpAddress>,
    pubkey_stake_map: StakeMap<Pubkey>,
}

impl View for StakedNodes {
    type V = StakeView;

    closed spec fn view(&self) -> StakeView {
        StakeView {
            total_stake: self.total_stake as int,
            ip_stake_map: self.ip_stake_map@,
            pubkey_stake_map: self.pubkey_stake_map@,
        }
    }
}

impl StakedNodes {
    #[verifier::type_invariant]
    spec fn total_covers_identities(self) -> bool {
        self.total_stake >= map_sum(self.pubkey_stake_map@)
    }

    /// The view made of a total and two maps, where the total covers the
    /// stake of the identities.
    pub(crate) fn from_parts(
        total_stake: u64,
        ip_stake_map: StakeMap<IpAddress>,
        pubkey_stake_map: StakeMap<Pubkey>,
    ) -> (nodes: StakedNodes)
        requires
            total_stake >= map_sum(pubkey_stake_map@),
        ensures
            nodes@ == (StakeView {
                total_stake: total_stake as int,
                ip_stake_map: ip_stake_map@,
                pubkey_stake_map: pubkey_stake_map@,
            }),
    {
        StakedNodes { total_stake, ip_stake_map, pubkey_stake_map }
    }

    /// The total and the two maps that the view is made of.
    pub(crate) fn into_parts(self) -> (parts: (u64, StakeMap<IpAddress>, StakeMap<Pubkey>))
        ensures
            self@ == (StakeView {
                total_stake: parts.0 as int,
                ip_stake_map: parts.1@,
                pubkey_stake_map: parts.2@,
            }),
            parts.0 >= map_sum(parts.2@),
    {
        proof {
            use_type_invariant(&self);
        }
        (self.total_stake, self.ip_stake_map, self.pubkey_stake_map)
    }

    /// The view that a service starts with: no stake, no peer.
    pub fn new() -> (nodes: StakedNodes)
        ensures
            nodes@ == StakeView::empty(),
    {
        StakedNodes {
            total_stake: 0,
            ip_stake_map: StakeMap::new(),
            pubkey_stake_map: StakeMap::new(),
        }
    }

    /// The total stake.
    pub fn total_stake(&self) -> (total: u64)
        ensures
            total == self@.total_stake,
            self@.consistent(),
    {
        proof {
            use_type_invariant(self);
            crate::stake_map::lemma_entries_map_finite(self.pubkey_stake_map.entries());
        }
        self.total_stake
    }

    /// The stake of each known address.
    pub fn ip_stake_map(&self) -> (map: &StakeMap<IpAddress>)
        ensures
            map@ == self@.ip_stake_map,
    {
        &self.ip_stake_map
    }

    /// The stake of each known identity.
    pub fn pubkey_stake_map(&self) -> (map: &StakeMap<Pubkey>)
        ensures
            map@ == self@.pubkey_stake_map,
    {
        &self.pubkey_stake_map
    }

    /// Replaces the whole view by `refreshed`: total and both maps change
    /// together, and nothing of the earlier view is left.
    pub fn publish(&mut self, refreshed: StakedNodes)
        ensures
            final(self)@ == refreshed@,
    {
        *self = refreshed;
    }
}

impl Default for StakedNodes {
    fn default() -> (nodes: StakedNodes)
        ensures
            nodes@ == StakeView::empty(),
    {
        StakedNodes::new()
    }
}

} // verus!
