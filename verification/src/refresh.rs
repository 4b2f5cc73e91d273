//! One refresh cycle: build the base view, then reconcile the overrides.

use crate::builder::{build_stake_maps, lemma_base_view};
use crate::peers::{is_known_peer, PeerRecord};
use crate::pubkey::Pubkey;
use crate::reconcile::{skipped_overrides, Reconciled, ResolvedOverride};
use crate::reconcile_proofs::lemma_reconciled_keeps_unreachable_stake;
use crate::snapshot::StakeSnapshot;
use crate::stake_sum::{lemma_map_sum_submap, lemma_map_sum_submap_rest_zero, map_sum};
use crate::staked_nodes::StakeView;
use vstd::prelude::*;

verus! {

/// The view that one refresh cycle gives for a snapshot, a peer list and the
/// resolved overrides.
pub open spec fn refreshed_view(
    snapshot: Map<Pubkey, u64>,
    peers: Seq<PeerRecord>,
    overrides: Seq<ResolvedOverride>,
) -> StakeView {
    StakeView::base(snapshot, peers).reconciled(overrides)
}

/// Computes the view to publish: the base view of the snapshot and the peers,
/// with the overrides applied in order. Gives `None` when the total would
/// leave the range of a `u64` at one of the overrides.
pub fn refresh_stake_maps(
    snapshot: &StakeSnapshot,
    peers: &Vec<PeerRecord>,
    overrides: &Vec<ResolvedOverride>,
) -> (r: Option<Reconciled>)
    ensures
        r.is_some() <==> StakeView::base(snapshot@, peers@).fits_all(overrides@),
        r matches Some(done) ==> done.nodes@ == refreshed_view(snapshot@, peers@, overrides@)
            && done.skipped@ == skipped_overrides(overrides@),
{
    build_stake_maps(snapshot, peers).apply_overrides(overrides)
}

/// In a refreshed view the total covers the identity map, and what it holds
/// beyond is the stake of the snapshot's identities that have no peer record:
/// the overrides do not change that part.
pub proof fn lemma_refreshed_unreachable_stake(
    snapshot: Map<Pubkey, u64>,
    peers: Seq<PeerRecord>,
    overrides: Seq<ResolvedOverride>,
)
    requires
        snapshot.dom().finite(),
    ensures
        refreshed_view(snapshot, peers, overrides).consistent(),
        refreshed_view(snapshot, peers, overrides).unreachable_stake() == map_sum(snapshot)
            - map_sum(StakeView::base(snapshot, peers).pubkey_stake_map),
{
    let base = StakeView::base(snapshot, peers);
    lemma_base_view(snapshot, peers);
    lemma_map_sum_submap(base.pubkey_stake_map, snapshot);
    lemma_reconciled_keeps_unreachable_stake(base, overrides);
}

/// Where every identity with a stake in the snapshot has a peer record, the
/// total of a refreshed view is the sum of its identity map.
pub proof fn lemma_total_is_sum_of_identities(
    snapshot: Map<Pubkey, u64>,
    peers: Seq<PeerRecord>,
    overrides: Seq<ResolvedOverride>,
)
    requires
        snapshot.dom().finite(),
        forall|id: Pubkey|
            snapshot.contains_key(id) && snapshot[id] > 0 ==> is_known_peer(peers, id),
    ensures
        refreshed_view(snapshot, peers, overrides).total_stake == map_sum(
            refreshed_view(snapshot, peers, overrides).pubkey_stake_map,
        ),
{
    let base = StakeView::base(snapshot, peers);
    lemma_base_view(snapshot, peers);
    assert forall|id: Pubkey|
        snapshot.contains_key(id) && !base.pubkey_stake_map.contains_key(
            id,
        ) implies snapshot[id] == 0 by {
        assert(!is_known_peer(peers, id));
    }
    lemma_map_sum_submap_rest_zero(base.pubkey_stake_map, snapshot);
    lemma_refreshed_unreachable_stake(snapshot, peers, overrides);
}

} // verus!
