//! Building the base stake maps from a snapshot and the peer directory.

use crate::address::IpAddress;
use crate::peers::{is_known_peer, PeerRecord};
use crate::pubkey::Pubkey;
use crate::snapshot::StakeSnapshot;
use crate::stake_map::StakeMap;
use crate::stake_sum::{lemma_map_sum_submap, map_sum};
use crate::staked_nodes::{StakeView, StakedNodes};
use vstd::prelude::*;

verus! {

impl StakeView {
    /// The view after one peer record was read: a peer with a stake in
    /// `snapshot` enters both maps with that stake, any other peer changes
    /// nothing.
    pub open spec fn with_peer(self, snapshot: Map<Pubkey, u64>, peer: PeerRecord) -> StakeView {
        if snapshot.contains_key(peer.id) {
            StakeView {
                total_stake: self.total_stake,
                ip_stake_map: self.ip_stake_map.insert(peer.address, snapshot[peer.id]),
                pubkey_stake_map: self.pubkey_stake_map.insert(peer.id, snapshot[peer.id]),
            }
        } else {
            self
        }
    }

    /// The base view of a snapshot and a peer list: the total is that of the
    /// whole snapshot, and the peers are read in order.
    pub open spec fn base(snapshot: Map<Pubkey, u64>, peers: Seq<PeerRecord>) -> StakeView
        decreases peers.len(),
    {
        if peers.len() == 0 {
            StakeView {
                total_stake: map_sum(snapshot) as int,
                ip_stake_map: Map::empty(),
                pubkey_stake_map: Map::empty(),
            }
        } else {
            StakeView::base(snapshot, peers.drop_last()).with_peer(snapshot, peers.last())
        }
    }
}

/// Whether `peers` holds a record with the address `address` whose identity
/// has a stake in `snapshot`.
pub open spec fn has_staked_peer_at(
    snapshot: Map<Pubkey, u64>,
    peers: Seq<PeerRecord>,
    address: IpAddress,
) -> bool {
    exists|i: int|
        0 <= i < peers.len() && peers[i].address == address && snapshot.contains_key(peers[i].id)
}

/// The base view holds the whole snapshot's total, whatever the peers are; its
/// identity map holds exactly the identities that have both a stake and a peer
/// record, each with its snapshot stake; its address map holds exactly the
/// addresses of such peers.
pub proof fn lemma_base_view(snapshot: Map<Pubkey, u64>, peers: Seq<PeerRecord>)
    ensures
        StakeView::base(snapshot, peers).total_stake == map_sum(snapshot),
        StakeView::base(snapshot, peers).pubkey_stake_map.submap_of(snapshot),
        forall|id: Pubkey|
            StakeView::base(snapshot, peers).pubkey_stake_map.contains_key(id) <==> (
            snapshot.contains_key(id) && is_known_peer(peers, id)),
        forall|address: IpAddress|
            StakeView::base(snapshot, peers).ip_stake_map.contains_key(address)
                <==> has_staked_peer_at(snapshot, peers, address),
    decreases peers.len(),
{
    let view = StakeView::base(snapshot, peers);
    if peers.len() > 0 {
        let front = peers.drop_last();
        let last = peers.last();
        let before = StakeView::base(snapshot, front);
        lemma_base_view(snapshot, front);
        assert forall|id: Pubkey|
            view.pubkey_stake_map.contains_key(id) <==> (snapshot.contains_key(id) && is_known_peer(
                peers,
                id,
            )) by {
            if is_known_peer(front, id) {
                let i = choose|i: int| 0 <= i < front.len() && front[i].id == id;
                assert(peers[i].id == id);
            }
            if last.id == id {
                assert(peers[peers.len() - 1].id == id);
            }
            if is_known_peer(peers, id) {
                let i = choose|i: int| 0 <= i < peers.len() && peers[i].id == id;
                if i < front.len() {
                    assert(front[i].id == id);
                }
            }
        }
        assert forall|address: IpAddress|
            view.ip_stake_map.contains_key(address) <==> has_staked_peer_at(
                snapshot,
                peers,
                address,
            ) by {
            if has_staked_peer_at(snapshot, front, address) {
                let i = choose|i: int|
                    0 <= i < front.len() && front[i].address == address && snapshot.contains_key(
                        front[i].id,
                    );
                assert(peers[i].address == address && snapshot.contains_key(peers[i].id));
            }
            if last.address == address && snapshot.contains_key(last.id) {
                assert(peers[peers.len() - 1].address == address);
            }
            if has_staked_peer_at(snapshot, peers, address) {
                let i = choose|i: int|
                    0 <= i < peers.len() && peers[i].address == address && snapshot.contains_key(
                        peers[i].id,
                    );
                if i < front.len() {
                    assert(front[i].address == address && snapshot.contains_key(front[i].id));
                }
            }
        }
    }
}

/// An address in the base view holds the snapshot stake of the last peer
/// record at that address whose identity has a stake.
pub proof fn lemma_base_view_address_stake(
    snapshot: Map<Pubkey, u64>,
    peers: Seq<PeerRecord>,
    address: IpAddress,
)
    requires
        StakeView::base(snapshot, peers).ip_stake_map.contains_key(address),
    ensures
        exists|i: int|
            {
                &&& 0 <= i < peers.len()
                &&& (#[trigger] peers[i]).address == address
                &&& snapshot.contains_key(peers[i].id)
                &&& StakeView::base(snapshot, peers).ip_stake_map[address] == snapshot[peers[i].id]
                &&& forall|j: int|
                    i < j < peers.len() ==> !((#[trigger] peers[j]).address == address
                        && snapshot.contains_key(peers[j].id))
            },
    decreases peers.len(),
{
    let front = peers.drop_last();
    let last = peers.last();
    if last.address == address && snapshot.contains_key(last.id) {
        let i = peers.len() - 1;
        assert(peers[i].address == address);
    } else {
        lemma_base_view_address_stake(snapshot, front, address);
        let i = choose|i: int|
            {
                &&& 0 <= i < front.len()
                &&& (#[trigger] front[i]).address == address
                &&& snapshot.contains_key(front[i].id)
                &&& StakeView::base(snapshot, front).ip_stake_map[address] == snapshot[front[i].id]
                &&& forall|j: int|
                    i < j < front.len() ==> !((#[trigger] front[j]).address == address
                        && snapshot.contains_key(front[j].id))
            };
        assert(peers[i].address == address);
        assert forall|j: int| i < j < peers.len() implies !((#[trigger] peers[j]).address
            == address && snapshot.contains_key(peers[j].id)) by {
            if j < front.len() {
                assert(front[j] == peers[j]);
            }
        }
    }
}

/// Builds the base view: for each peer record in order, a peer whose identity
/// has a stake in the snapshot enters the identity map and the address map
/// with that stake; a peer without a stake is left out of both. The total is
/// that of the whole snapshot, whether or not its identities are peers.
pub fn build_stake_maps(snapshot: &StakeSnapshot, peers: &Vec<PeerRecord>) -> (nodes: StakedNodes)
    ensures
        nodes@ == StakeView::base(snapshot@, peers@),
        nodes@.total_stake == map_sum(snapshot@),
{
    let mut ip_to_stake: StakeMap<IpAddress> = StakeMap::new();
    let mut id_to_stake: StakeMap<Pubkey> = StakeMap::new();
    let total_stake = snapshot.total_stake();
    let mut i: usize = 0;
    while i < peers.len()
        invariant
            i <= peers@.len(),
            total_stake == map_sum(snapshot@),
            StakeView::base(snapshot@, peers@.take(i as int)) == (StakeView {
                total_stake: total_stake as int,
                ip_stake_map: ip_to_stake@,
                pubkey_stake_map: id_to_stake@,
            }),
        decreases peers@.len() - i,
    {
        let peer = peers[i];
        assert(peers@.take(i + 1).drop_last() =~= peers@.take(i as int));
        if let Some(stake) = snapshot.stake_of(&peer.id) {
            id_to_stake.insert(peer.id, stake);
            ip_to_stake.insert(peer.address, stake);
        }
        i = i + 1;
    }
    proof {
        assert(peers@.take(i as int) =~= peers@);
        lemma_base_view(snapshot@, peers@);
        lemma_map_sum_submap(id_to_stake@, snapshot@);
    }
    StakedNodes::from_parts(total_stake, ip_to_stake, id_to_stake)
}

} // verus!
