//! Administrator stake overrides.

use crate::peers::{peer_address, find_peer_address, PeerRecord};
use crate::pubkey::{parsed_pubkey, Pubkey};
use crate::reconcile::ResolvedOverride;
use crate::stake_map::{entries_insert, StakeMap};
use vstd::prelude::*;

verus! {

/// The stake overrides: for each overridden identity the stake that replaces
/// the ledger's.
#[derive(Debug)]
pub struct StakedNodesOverrides {
    pub staked_map_id: StakeMap<Pubkey>,
}

impl Default for StakedNodesOverrides {
    fn default() -> (overrides: StakedNodesOverrides)
        ensures
            overrides.staked_map_id.entries() == Seq::<(Pubkey, u64)>::empty(),
    {
        StakedNodesOverrides { staked_map_id: StakeMap::new() }
    }
}

impl Clone for StakedNodesOverrides {
    fn clone(&self) -> (copy: StakedNodesOverrides)
        ensures
            copy.staked_map_id.entries() == self.staked_map_id.entries(),
    {
        StakedNodesOverrides { staked_map_id: self.staked_map_id.clone() }
    }
}

/// The overrides of `entries`, each with the address that `peers` gives for
/// its identity.
pub open spec fn resolved_overrides(entries: Seq<(Pubkey, u64)>, peers: Seq<PeerRecord>) -> Seq<
    ResolvedOverride,
> {
    Seq::new(
        entries.len(),
        |i: int|
            ResolvedOverride {
                id: entries[i].0,
                stake: entries[i].1,
                address: peer_address(peers, entries[i].0),
            },
    )
}

impl StakedNodesOverrides {
    /// Resolves every override against one answer of the peer directory, in
    /// the order of the overrides.
    pub fn resolve(&self, peers: &Vec<PeerRecord>) -> (resolved: Vec<ResolvedOverride>)
        ensures
            resolved@ == resolved_overrides(self.staked_map_id.entries(), peers@),
    {
        let n = self.staked_map_id.len();
        let mut resolved: Vec<ResolvedOverride> = Vec::new();
        let mut i: usize = 0;
        while i < n
            invariant
                i <= n,
                n == self.staked_map_id.entries().len(),
                resolved@ == resolved_overrides(self.staked_map_id.entries(), peers@).take(
                    i as int,
                ),
            decreases n - i,
        {
            let (id, stake) = self.staked_map_id.entry(i).unwrap();
            let address = find_peer_address(peers, &id);
            resolved.push(ResolvedOverride { id, stake, address });
            assert(resolved@ =~= resolved_overrides(self.staked_map_id.entries(), peers@).take(
                i + 1,
            ));
            i = i + 1;
        }
        assert(resolved@ =~= resolved_overrides(self.staked_map_id.entries(), peers@));
        resolved
    }
}

/// The key of an override entry is no valid identity.
#[derive(Clone, Copy, Debug, PartialEq, Eq, Structural)]
pub struct InvalidPubkey {
    /// The position of the first such entry.
    pub index: usize,
}

/// The position of the first entry without an identity, if there is one.
pub open spec fn first_invalid(parsed: Seq<(Option<Pubkey>, u64)>) -> Option<int>
    decreases parsed.len(),
{
    if parsed.len() == 0 {
        None
    } else {
        match first_invalid(parsed.drop_last()) {
            Some(i) => Some(i),
            None => if parsed.last().0.is_none() {
                Some(parsed.len() - 1)
            } else {
                None
            },
        }
    }
}

/// The entries of the typed map: each entry with an identity is inserted in
/// order, so that of two entries with one identity the later stake stays.
pub open spec fn typed_entries(parsed: Seq<(Option<Pubkey>, u64)>) -> Seq<(Pubkey, u64)>
    decreases parsed.len(),
{
    if parsed.len() == 0 {
        Seq::empty()
    } else {
        match parsed.last().0 {
            Some(key) => entries_insert(typed_entries(parsed.drop_last()), key, parsed.last().1),
            None => typed_entries(parsed.drop_last()),
        }
    }
}

/// The entries of a container, each with what its key stands for.
pub open spec fn parsed_entries(container: Seq<(String, u64)>) -> Seq<(Option<Pubkey>, u64)> {
    Seq::new(container.len(), |i: int| (parsed_pubkey(container[i].0@), container[i].1))
}

/// Collects decoded override entries into a map from identity to stake. An
/// entry whose key could not be decoded rejects the whole container; the error
/// gives the position of the first such entry.
pub fn collect_pubkey_map(parsed: &Vec<(Option<Pubkey>, u64)>) -> (r: Result<
    StakeMap<Pubkey>,
    InvalidPubkey,
>)
    ensures
        match r {
            Ok(map) => first_invalid(parsed@).is_none() && map.entries() == typed_entries(parsed@),
            Err(e) => first_invalid(parsed@) == Some(e.index as int),
        },
{
    let mut map: StakeMap<Pubkey> = StakeMap::new();
    let mut i: usize = 0;
    while i < parsed.len()
        invariant
            i <= parsed@.len(),
            first_invalid(parsed@.take(i as int)).is_none(),
            map.entries() == typed_entries(parsed@.take(i as int)),
        decreases parsed@.len() - i,
    {
        assert(parsed@.take(i + 1).drop_last() =~= parsed@.take(i as int));
        match parsed[i].0 {
            Some(key) => {
                map.insert(key, parsed[i].1);
            },
            None => {
                proof {
                    lemma_first_invalid_prefix(parsed@, i + 1);
                }
                return Err(InvalidPubkey { index: i });
            },
        }
        i = i + 1;
    }
    assert(parsed@.take(i as int) =~= parsed@);
    Ok(map)
}

/// The first entry without an identity among the first `n` entries is the
/// first one of the whole sequence.
pub proof fn lemma_first_invalid_prefix(parsed: Seq<(Option<Pubkey>, u64)>, n: int)
    requires
        0 <= n <= parsed.len(),
        first_invalid(parsed.take(n)).is_some(),
    ensures
        first_invalid(parsed) == first_invalid(parsed.take(n)),
    decreases parsed.len(),
{
    if n < parsed.len() {
        assert(parsed.drop_last().take(n) =~= parsed.take(n));
        lemma_first_invalid_prefix(parsed.drop_last(), n);
    } else {
        assert(parsed.take(n) =~= parsed);
    }
}

/// Turns a container of override entries, keyed by the text of an identity,
/// into a map keyed by the identity. A key that is no valid identity rejects
/// the container.
pub fn deserialize_pubkey_map(container: &Vec<(String, u64)>) -> (r: Result<
    StakeMap<Pubkey>,
    InvalidPubkey,
>)
    ensures
        match r {
            Ok(map) => first_invalid(parsed_entries(container@)).is_none() && map.entries()
                == typed_entries(parsed_entries(container@)),
            Err(e) => first_invalid(parsed_entries(container@)) == Some(e.index as int),
        },
{
    let mut parsed: Vec<(Option<Pubkey>, u64)> = Vec::new();
    let mut i: usize = 0;
    while i < container.len()
        invariant
            i <= container@.len(),
            parsed@ == parsed_entries(container@).take(i as int),
        decreases container@.len() - i,
    {
        let key = Pubkey::parse(container[i].0.as_str());
        parsed.push((key, container[i].1));
        assert(parsed@ =~= parsed_entries(container@).take(i + 1));
        i = i + 1;
    }
    assert(parsed@ =~= parsed_entries(container@));
    collect_pubkey_map(&parsed)
}

} // verus!
