//! The peer directory as one query returned it.

use crate::address::IpAddress;
use crate::pubkey::Pubkey;
use vstd::prelude::*;

verus! {

/// One known peer: its identity and its network address.
#[derive(Clone, Copy, Debug, PartialEq, Eq)]
pub struct PeerRecord {
    pub id: Pubkey,
    pub address: IpAddress,
}

/// The address of the first peer in `peers` whose identity is `id`.
pub open spec fn peer_address(peers: Seq<PeerRecord>, id: Pubkey) -> Option<IpAddress>
    decreases peers.len(),
{
    if peers.len() == 0 {
        None
    } else if peers.first().id == id {
        Some(peers.first().address)
    } else {
        peer_address(peers.drop_first(), id)
    }
}

/// Whether some peer in `peers` has the identity `id`.
pub open spec fn is_known_peer(peers: Seq<PeerRecord>, id: Pubkey) -> bool {
    exists|i: int| 0 <= i < peers.len() && peers[i].id == id
}

/// An identity resolves to an address exactly when the directory knows it.
pub proof fn lemma_peer_address_known(peers: Seq<PeerRecord>, id: Pubkey)
    ensures
        peer_address(peers, id).is_some() <==> is_known_peer(peers, id),
    decreases peers.len(),
{
    if peers.len() > 0 {
        let rest = peers.drop_first();
        lemma_peer_address_known(rest, id);
        if peers.first().id == id {
            assert(peers[0].id == id);
        } else if is_known_peer(rest, id) {
            let i = choose|i: int| 0 <= i < rest.len() && rest[i].id == id;
            assert(peers[i + 1].id == id);
        } else if is_known_peer(peers, id) {
            let i = choose|i: int| 0 <= i < peers.len() && peers[i].id == id;
            assert(rest[i - 1].id == id);
        }
    }
}

/// Resolves an identity to its current address in `peers`: that of the first
/// record with this identity, `None` when the directory does not know it.
pub fn find_peer_address(peers: &Vec<PeerRecord>, id: &Pubkey) -> (r: Option<IpAddress>)
    ensures
        r == peer_address(peers@, *id),
        r.is_some() <==> is_known_peer(peers@, *id),
{
    proof {
        lemma_peer_address_known(peers@, *id);
        assert(peers@.skip(0) =~= peers@);
    }
    let mut i: usize = 0;
    while i < peers.len()
        invariant
            i <= peers@.len(),
            peer_address(peers@, *id) == peer_address(peers@.skip(i as int), *id),
        decreases peers@.len() - i,
    {
        if peers[i].id.same(id) {
            return Some(peers[i].address);
        }
        assert(peers@.skip(i as int).drop_first() =~= peers@.skip(i + 1));
        i = i + 1;
    }
    None
}

} // verus!
