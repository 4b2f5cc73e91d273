//! What holds of reconciling overrides, whatever the view and the overrides.

use crate::address::IpAddress;
use crate::peers::{is_known_peer, lemma_peer_address_known, peer_address, PeerRecord};
use crate::pubkey::Pubkey;
use crate::reconcile::{skipped_overrides, ResolvedOverride, SkippedOverride};
use crate::stake_sum::{lemma_map_sum_insert, map_sum};
use crate::staked_nodes::StakeView;
use vstd::prelude::*;

verus! {

/// An override of a peer that the directory does not know changes neither map
/// nor the total, and is reported as skipped with its identity and stake.
pub proof fn lemma_unknown_peer_is_skipped(
    view: StakeView,
    peers: Seq<PeerRecord>,
    id: Pubkey,
    stake: u64,
)
    requires
        !is_known_peer(peers, id),
    ensures
        peer_address(peers, id).is_none(),
        view.with_override(ResolvedOverride { id, stake, address: peer_address(peers, id) })
            == view,
        skipped_overrides(seq![ResolvedOverride { id, stake, address: peer_address(peers, id) }])
            == seq![SkippedOverride { id, stake }],
{
    lemma_peer_address_known(peers, id);
    let o = ResolvedOverride { id, stake, address: peer_address(peers, id) };
    reveal_with_fuel(skipped_overrides, 2);
    assert(seq![o].drop_last() =~= Seq::<ResolvedOverride>::empty());
    assert(skipped_overrides(seq![o]) =~= seq![SkippedOverride { id, stake }]);
}

/// The overrides with an address among `overrides`, in order.
pub open spec fn known_overrides(overrides: Seq<ResolvedOverride>) -> Seq<ResolvedOverride>
    decreases overrides.len(),
{
    if overrides.len() == 0 {
        Seq::empty()
    } else if overrides.last().address.is_some() {
        known_overrides(overrides.drop_last()).push(overrides.last())
    } else {
        known_overrides(overrides.drop_last())
    }
}

/// Overrides without an address have no part in the result: the view is the
/// one that the other overrides alone give, and each override is either
/// applied or skipped.
pub proof fn lemma_unknown_overrides_change_nothing(
    view: StakeView,
    overrides: Seq<ResolvedOverride>,
)
    ensures
        view.reconciled(overrides) == view.reconciled(known_overrides(overrides)),
        skipped_overrides(overrides).len() + known_overrides(overrides).len() == overrides.len(),
    decreases overrides.len(),
{
    if overrides.len() > 0 {
        let front = overrides.drop_last();
        lemma_unknown_overrides_change_nothing(view, front);
        if overrides.last().address.is_some() {
            let known = known_overrides(front).push(overrides.last());
            assert(known.drop_last() =~= known_overrides(front));
        }
    }
}

/// Every override without an address is among the skipped ones, named by its
/// identity and its stake.
pub proof fn lemma_skipped_names_override(overrides: Seq<ResolvedOverride>, i: int)
    requires
        0 <= i < overrides.len(),
        overrides[i].address.is_none(),
    ensures
        skipped_overrides(overrides).contains(
            SkippedOverride { id: overrides[i].id, stake: overrides[i].stake },
        ),
    decreases overrides.len(),
{
    let front = overrides.drop_last();
    let skipped = skipped_overrides(overrides);
    if i == overrides.len() - 1 {
        assert(skipped[skipped.len() - 1] == SkippedOverride {
            id: overrides[i].id,
            stake: overrides[i].stake,
        });
    } else {
        lemma_skipped_names_override(front, i);
        let warning = SkippedOverride { id: overrides[i].id, stake: overrides[i].stake };
        let k = choose|k: int|
            0 <= k < skipped_overrides(front).len() && skipped_overrides(front)[k] == warning;
        assert(skipped[k] == warning);
    }
}

/// An override of an identity that already holds a stake replaces that stake
/// once: the identity holds the override's stake, the other identities hold
/// what they held, and the total and the sum of the identity map both move by
/// the difference between the two stakes.
pub proof fn lemma_override_replaces_once(view: StakeView, o: ResolvedOverride)
    requires
        view.pubkey_stake_map.dom().finite(),
        o.address.is_some(),
        view.pubkey_stake_map.contains_key(o.id),
    ensures
        view.with_override(o).pubkey_stake_map[o.id] == o.stake,
        view.with_override(o).pubkey_stake_map.remove(o.id) == view.pubkey_stake_map.remove(o.id),
        view.with_override(o).total_stake - view.total_stake == o.stake
            - view.pubkey_stake_map[o.id],
        map_sum(view.with_override(o).pubkey_stake_map) - map_sum(view.pubkey_stake_map)
            == o.stake - view.pubkey_stake_map[o.id],
{
    lemma_map_sum_insert(view.pubkey_stake_map, o.id, o.stake);
    assert(view.with_override(o).pubkey_stake_map.remove(o.id) =~= view.pubkey_stake_map.remove(
        o.id,
    ));
}

/// One override moves the total exactly as it moves the sum of the identity
/// map: the stake that the total holds beyond the identities stays.
pub proof fn lemma_override_keeps_unreachable_stake(view: StakeView, o: ResolvedOverride)
    requires
        view.pubkey_stake_map.dom().finite(),
    ensures
        view.with_override(o).pubkey_stake_map.dom().finite(),
        view.with_override(o).unreachable_stake() == view.unreachable_stake(),
{
    lemma_map_sum_insert(view.pubkey_stake_map, o.id, o.stake);
}

/// Reconciling moves the total exactly as it moves the sum of the identity
/// map.
pub proof fn lemma_reconciled_keeps_unreachable_stake(
    view: StakeView,
    overrides: Seq<ResolvedOverride>,
)
    requires
        view.pubkey_stake_map.dom().finite(),
    ensures
        view.reconciled(overrides).pubkey_stake_map.dom().finite(),
        view.reconciled(overrides).unreachable_stake() == view.unreachable_stake(),
    decreases overrides.len(),
{
    if overrides.len() > 0 {
        lemma_reconciled_keeps_unreachable_stake(view, overrides.drop_last());
        lemma_override_keeps_unreachable_stake(
            view.reconciled(overrides.drop_last()),
            overrides.last(),
        );
    }
}

/// The writes that a sequence of overrides makes to a map: `None` for an
/// override that is skipped.
pub open spec fn written<K>(map: Map<K, u64>, writes: Seq<Option<(K, u64)>>) -> Map<K, u64>
    decreases writes.len(),
{
    if writes.len() == 0 {
        map
    } else {
        match writes.last() {
            Some((key, value)) => written(map, writes.drop_last()).insert(key, value),
            None => written(map, writes.drop_last()),
        }
    }
}

/// What the overrides write to the identity map.
pub open spec fn identity_writes(overrides: Seq<ResolvedOverride>) -> Seq<Option<(Pubkey, u64)>> {
    Seq::new(
        overrides.len(),
        |i: int|
            if overrides[i].address.is_some() {
                Some((overrides[i].id, overrides[i].stake))
            } else {
                None
            },
    )
}

/// What the overrides write to the address map.
pub open spec fn address_writes(overrides: Seq<ResolvedOverride>) -> Seq<
    Option<(IpAddress, u64)>,
> {
    Seq::new(
        overrides.len(),
        |i: int|
            match overrides[i].address {
                Some(address) => Some((address, overrides[i].stake)),
                None => None,
            },
    )
}

/// The maps of a reconciled view are the maps of the view with the overrides'
/// writes.
pub proof fn lemma_reconciled_maps(view: StakeView, overrides: Seq<ResolvedOverride>)
    ensures
        view.reconciled(overrides).pubkey_stake_map == written(
            view.pubkey_stake_map,
            identity_writes(overrides),
        ),
        view.reconciled(overrides).ip_stake_map == written(
            view.ip_stake_map,
            address_writes(overrides),
        ),
    decreases overrides.len(),
{
    if overrides.len() > 0 {
        let front = overrides.drop_last();
        lemma_reconciled_maps(view, front);
        assert(identity_writes(overrides).drop_last() =~= identity_writes(front));
        assert(address_writes(overrides).drop_last() =~= address_writes(front));
    }
}

/// A write that is made again at the end may be left out at the start.
proof fn lemma_written_absorbs<K>(
    map: Map<K, u64>,
    key: K,
    value: u64,
    writes: Seq<Option<(K, u64)>>,
)
    ensures
        written(map.insert(key, value), writes).insert(key, value) == written(map, writes).insert(
            key,
            value,
        ),
    decreases writes.len(),
{
    if writes.len() > 0 {
        let front = writes.drop_last();
        lemma_written_absorbs(map, key, value, front);
        match writes.last() {
            Some((k, v)) => {
                let with = written(map.insert(key, value), front);
                let without = written(map, front);
                if k == key {
                    assert(with.insert(k, v).insert(key, value) =~= with.insert(key, value));
                    assert(without.insert(k, v).insert(key, value) =~= without.insert(key, value));
                } else {
                    assert(with.insert(k, v).insert(key, value) =~= with.insert(key, value).insert(
                        k,
                        v,
                    ));
                    assert(without.insert(k, v).insert(key, value) =~= without.insert(
                        key,
                        value,
                    ).insert(k, v));
                }
            },
            None => {},
        }
    }
}

/// Making the same writes a second time changes nothing.
proof fn lemma_written_twice<K>(map: Map<K, u64>, writes: Seq<Option<(K, u64)>>)
    ensures
        written(written(map, writes), writes) == written(map, writes),
    decreases writes.len(),
{
    if writes.len() > 0 {
        let front = writes.drop_last();
        lemma_written_twice(map, front);
        match writes.last() {
            Some((key, value)) => {
                lemma_written_absorbs(written(map, front), key, value, front);
            },
            None => {},
        }
    }
}

/// Reconciling is a function of the view and the overrides: two runs on the
/// same view with the same overrides give the same view and skip the same
/// overrides.
pub proof fn lemma_reconcile_same_inputs(
    first: StakeView,
    second: StakeView,
    first_overrides: Seq<ResolvedOverride>,
    second_overrides: Seq<ResolvedOverride>,
)
    requires
        first == second,
        first_overrides == second_overrides,
    ensures
        first.reconciled(first_overrides) == second.reconciled(second_overrides),
        first.fits_all(first_overrides) == second.fits_all(second_overrides),
        skipped_overrides(first_overrides) == skipped_overrides(second_overrides),
{
}

/// Reconciling the result with the same overrides once more leaves it as it
/// is: no stake is counted twice.
pub proof fn lemma_reconcile_twice(view: StakeView, overrides: Seq<ResolvedOverride>)
    requires
        view.pubkey_stake_map.dom().finite(),
    ensures
        view.reconciled(overrides).reconciled(overrides) == view.reconciled(overrides),
{
    let once = view.reconciled(overrides);
    let twice = once.reconciled(overrides);
    lemma_reconciled_maps(view, overrides);
    lemma_reconciled_maps(once, overrides);
    lemma_written_twice(view.pubkey_stake_map, identity_writes(overrides));
    lemma_written_twice(view.ip_stake_map, address_writes(overrides));
    lemma_reconciled_keeps_unreachable_stake(view, overrides);
    lemma_reconciled_keeps_unreachable_stake(once, overrides);
}

} // verus!
