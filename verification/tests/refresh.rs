use staked_nodes_updater::address::IpAddress;
use staked_nodes_updater::builder::build_stake_maps;
use staked_nodes_updater::overrides::StakedNodesOverrides;
use staked_nodes_updater::peers::{find_peer_address, PeerRecord};
use staked_nodes_updater::pubkey::Pubkey;
use staked_nodes_updater::reconcile::{ResolvedOverride, SkippedOverride};
use staked_nodes_updater::refresh::refresh_stake_maps;
use staked_nodes_updater::snapshot::StakeSnapshot;
use staked_nodes_updater::stake_map::StakeMap;
use staked_nodes_updater::staked_nodes::StakedNodes;

fn key(byte: u8) -> Pubkey {
    Pubkey::new_from_array([byte; 32])
}

fn ip(last: u32) -> IpAddress {
    IpAddress::V4(0x0a00_0000 + last)
}

fn peer(id: u8, address: u32) -> PeerRecord {
    PeerRecord { id: key(id), address: ip(address) }
}

fn stakes(entries: &[(u8, u64)]) -> StakeMap<Pubkey> {
    let mut map = StakeMap::new();
    for (id, stake) in entries {
        map.insert(key(*id), *stake);
    }
    map
}

fn snapshot(entries: &[(u8, u64)]) -> StakeSnapshot {
    StakeSnapshot::new(stakes(entries)).expect("the total fits")
}

fn overrides(entries: &[(u8, u64)]) -> StakedNodesOverrides {
    StakedNodesOverrides { staked_map_id: stakes(entries) }
}

const A: u8 = 1;
const B: u8 = 2;
const C: u8 = 3;
const D: u8 = 4;

#[test]
fn staked_peers_fill_both_maps() {
    let snapshot = snapshot(&[(A, 100), (B, 50)]);
    let peers = vec![peer(A, 1), peer(B, 2)];
    let resolved = overrides(&[]).resolve(&peers);
    let done = refresh_stake_maps(&snapshot, &peers, &resolved).expect("the total fits");
    assert_eq!(done.nodes.total_stake(), 150);
    assert_eq!(done.nodes.pubkey_stake_map().len(), 2);
    assert_eq!(done.nodes.pubkey_stake_map().get(&key(A)), Some(100));
    assert_eq!(done.nodes.pubkey_stake_map().get(&key(B)), Some(50));
    assert_eq!(done.nodes.ip_stake_map().len(), 2);
    assert_eq!(done.nodes.ip_stake_map().get(&ip(1)), Some(100));
    assert_eq!(done.nodes.ip_stake_map().get(&ip(2)), Some(50));
    assert!(done.skipped.is_empty());
}

#[test]
fn override_of_a_known_peer_replaces_its_stake() {
    let snapshot = snapshot(&[(A, 100), (B, 50)]);
    let peers = vec![peer(A, 1), peer(B, 2)];
    let resolved = overrides(&[(A, 200)]).resolve(&peers);
    let done = refresh_stake_maps(&snapshot, &peers, &resolved).expect("the total fits");
    assert_eq!(done.nodes.total_stake(), 250);
    assert_eq!(done.nodes.pubkey_stake_map().len(), 2);
    assert_eq!(done.nodes.pubkey_stake_map().get(&key(A)), Some(200));
    assert_eq!(done.nodes.pubkey_stake_map().get(&key(B)), Some(50));
    assert_eq!(done.nodes.ip_stake_map().len(), 2);
    assert_eq!(done.nodes.ip_stake_map().get(&ip(1)), Some(200));
    assert_eq!(done.nodes.ip_stake_map().get(&ip(2)), Some(50));
    assert!(done.skipped.is_empty());
}

#[test]
fn override_of_an_unknown_peer_is_skipped() {
    let snapshot = snapshot(&[(A, 100), (B, 50)]);
    let peers = vec![peer(A, 1), peer(B, 2)];
    let resolved = overrides(&[(C, 10)]).resolve(&peers);
    assert_eq!(resolved, vec![ResolvedOverride { id: key(C), stake: 10, address: None }]);
    let done = refresh_stake_maps(&snapshot, &peers, &resolved).expect("the total fits");
    assert_eq!(done.nodes.total_stake(), 150);
    assert_eq!(done.nodes.pubkey_stake_map().len(), 2);
    assert_eq!(done.nodes.pubkey_stake_map().get(&key(A)), Some(100));
    assert_eq!(done.nodes.pubkey_stake_map().get(&key(B)), Some(50));
    assert_eq!(done.nodes.pubkey_stake_map().get(&key(C)), None);
    assert_eq!(done.nodes.ip_stake_map().len(), 2);
    assert_eq!(done.nodes.ip_stake_map().get(&ip(1)), Some(100));
    assert_eq!(done.nodes.ip_stake_map().get(&ip(2)), Some(50));
    assert_eq!(done.skipped, vec![SkippedOverride { id: key(C), stake: 10 }]);
}

#[test]
fn staked_node_without_peer_record_counts_in_the_total_only() {
    let snapshot = snapshot(&[(A, 100), (B, 50), (D, 30)]);
    let peers = vec![peer(A, 1), peer(B, 2)];
    let done = refresh_stake_maps(&snapshot, &peers, &Vec::new()).expect("the total fits");
    assert_eq!(done.nodes.total_stake(), 180);
    assert_eq!(done.nodes.pubkey_stake_map().len(), 2);
    assert_eq!(done.nodes.pubkey_stake_map().get(&key(D)), None);
    assert!(!done.nodes.pubkey_stake_map().contains_key(&key(D)));
    assert_eq!(done.nodes.ip_stake_map().len(), 2);
    assert_eq!(done.nodes.ip_stake_map().get(&ip(1)), Some(100));
    assert_eq!(done.nodes.ip_stake_map().get(&ip(2)), Some(50));
}

#[test]
fn total_is_sum_of_identities_when_all_staked_nodes_are_peers() {
    let snapshot = snapshot(&[(A, 100), (B, 50), (C, 7)]);
    let peers = vec![peer(A, 1), peer(B, 2), peer(C, 3), peer(D, 4)];
    let resolved = overrides(&[(B, 1), (D, 1000)]).resolve(&peers);
    let done = refresh_stake_maps(&snapshot, &peers, &resolved).expect("the total fits");
    let ids = done.nodes.pubkey_stake_map();
    let mut sum = 0u64;
    for i in 0..ids.len() {
        sum += ids.entry(i).expect("an entry").1;
    }
    assert_eq!(sum, 100 + 1 + 7 + 1000);
    assert_eq!(done.nodes.total_stake(), sum);
}

#[test]
fn peer_without_stake_is_in_neither_map() {
    let snapshot = snapshot(&[(A, 100)]);
    let peers = vec![peer(A, 1), peer(B, 2)];
    let nodes = build_stake_maps(&snapshot, &peers);
    assert_eq!(nodes.total_stake(), 100);
    assert_eq!(nodes.pubkey_stake_map().len(), 1);
    assert_eq!(nodes.pubkey_stake_map().get(&key(B)), None);
    assert_eq!(nodes.ip_stake_map().len(), 1);
    assert_eq!(nodes.ip_stake_map().get(&ip(2)), None);
}

#[test]
fn two_staked_peers_at_one_address_leave_the_later_stake() {
    let snapshot = snapshot(&[(A, 100), (B, 50)]);
    let peers = vec![peer(A, 9), peer(B, 9)];
    let nodes = build_stake_maps(&snapshot, &peers);
    assert_eq!(nodes.total_stake(), 150);
    assert_eq!(nodes.pubkey_stake_map().len(), 2);
    assert_eq!(nodes.ip_stake_map().len(), 1);
    assert_eq!(nodes.ip_stake_map().get(&ip(9)), Some(50));
}

#[test]
fn empty_snapshot_and_directory_give_the_empty_view() {
    let snapshot = snapshot(&[]);
    let nodes = build_stake_maps(&snapshot, &Vec::new());
    assert_eq!(nodes.total_stake(), 0);
    assert_eq!(nodes.pubkey_stake_map().len(), 0);
    assert_eq!(nodes.ip_stake_map().len(), 0);
}

#[test]
fn override_of_a_peer_without_stake_adds_it() {
    let snapshot = snapshot(&[(A, 100)]);
    let peers = vec![peer(A, 1), peer(C, 3)];
    let resolved = overrides(&[(C, 10)]).resolve(&peers);
    assert_eq!(resolved, vec![ResolvedOverride { id: key(C), stake: 10, address: Some(ip(3)) }]);
    let done = refresh_stake_maps(&snapshot, &peers, &resolved).expect("the total fits");
    assert_eq!(done.nodes.total_stake(), 110);
    assert_eq!(done.nodes.pubkey_stake_map().get(&key(C)), Some(10));
    assert_eq!(done.nodes.ip_stake_map().get(&ip(3)), Some(10));
    assert!(done.skipped.is_empty());
}

#[test]
fn override_is_resolved_by_the_lookup_and_not_by_the_base_peer_list() {
    let snapshot = snapshot(&[(A, 100)]);
    let peers = vec![peer(A, 1)];
    let resolved = vec![ResolvedOverride { id: key(A), stake: 5, address: Some(ip(77)) }];
    let done = refresh_stake_maps(&snapshot, &peers, &resolved).expect("the total fits");
    assert_eq!(done.nodes.total_stake(), 5);
    assert_eq!(done.nodes.pubkey_stake_map().get(&key(A)), Some(5));
    assert_eq!(done.nodes.ip_stake_map().get(&ip(1)), Some(100));
    assert_eq!(done.nodes.ip_stake_map().get(&ip(77)), Some(5));
}

#[test]
fn overrides_are_applied_in_order() {
    let snapshot = snapshot(&[(A, 100), (B, 50)]);
    let peers = vec![peer(A, 1), peer(B, 2)];
    let resolved = vec![
        ResolvedOverride { id: key(A), stake: 1, address: Some(ip(1)) },
        ResolvedOverride { id: key(C), stake: 9, address: None },
        ResolvedOverride { id: key(A), stake: 2, address: Some(ip(1)) },
        ResolvedOverride { id: key(D), stake: 8, address: None },
    ];
    let done = refresh_stake_maps(&snapshot, &peers, &resolved).expect("the total fits");
    assert_eq!(done.nodes.total_stake(), 52);
    assert_eq!(done.nodes.pubkey_stake_map().get(&key(A)), Some(2));
    assert_eq!(done.nodes.ip_stake_map().get(&ip(1)), Some(2));
    assert_eq!(
        done.skipped,
        vec![SkippedOverride { id: key(C), stake: 9 }, SkippedOverride { id: key(D), stake: 8 }]
    );
}

#[test]
fn reconciling_twice_gives_the_same_view() {
    let snapshot = snapshot(&[(A, 100), (B, 50), (D, 30)]);
    let peers = vec![peer(A, 1), peer(B, 2), peer(C, 2)];
    let resolved = overrides(&[(A, 200), (C, 10), (D, 1)]).resolve(&peers);
    let first = refresh_stake_maps(&snapshot, &peers, &resolved).expect("the total fits");
    let second = refresh_stake_maps(&snapshot, &peers, &resolved).expect("the total fits");
    assert_eq!(first.nodes.total_stake(), 290);
    assert_eq!(second.nodes.total_stake(), 290);
    assert_eq!(first.skipped, second.skipped);
    let again = second.nodes.apply_overrides(&resolved).expect("the total fits");
    assert_eq!(again.nodes.total_stake(), 290);
    assert_eq!(again.skipped, first.skipped);
    for i in 0..first.nodes.pubkey_stake_map().len() {
        let (id, stake) = first.nodes.pubkey_stake_map().entry(i).expect("an entry");
        assert_eq!(again.nodes.pubkey_stake_map().get(&id), Some(stake));
    }
    assert_eq!(
        again.nodes.pubkey_stake_map().len(),
        first.nodes.pubkey_stake_map().len()
    );
    for i in 0..first.nodes.ip_stake_map().len() {
        let (address, stake) = first.nodes.ip_stake_map().entry(i).expect("an entry");
        assert_eq!(again.nodes.ip_stake_map().get(&address), Some(stake));
    }
    assert_eq!(again.nodes.ip_stake_map().len(), first.nodes.ip_stake_map().len());
    assert_eq!(again.nodes.ip_stake_map().get(&ip(2)), Some(10));
}

#[test]
fn apply_override_replaces_the_stake_once() {
    let snapshot = snapshot(&[(A, 100), (B, 50)]);
    let peers = vec![peer(A, 1), peer(B, 2)];
    let mut nodes = build_stake_maps(&snapshot, &peers);
    let o = ResolvedOverride { id: key(B), stake: 75, address: Some(ip(2)) };
    assert!(nodes.fits(&o));
    assert_eq!(nodes.apply_override(&o), None);
    assert_eq!(nodes.total_stake(), 175);
    assert_eq!(nodes.pubkey_stake_map().get(&key(B)), Some(75));
    assert_eq!(nodes.pubkey_stake_map().get(&key(A)), Some(100));
    assert_eq!(nodes.ip_stake_map().get(&ip(2)), Some(75));
    let skipped = ResolvedOverride { id: key(C), stake: 1, address: None };
    assert!(nodes.fits(&skipped));
    assert_eq!(nodes.apply_override(&skipped), Some(SkippedOverride { id: key(C), stake: 1 }));
    assert_eq!(nodes.total_stake(), 175);
    assert_eq!(nodes.pubkey_stake_map().len(), 2);
    assert_eq!(nodes.ip_stake_map().len(), 2);
}

#[test]
fn override_that_overflows_the_total_is_refused() {
    let snapshot = snapshot(&[(A, 100), (B, 50)]);
    let peers = vec![peer(A, 1), peer(B, 2)];
    let nodes = build_stake_maps(&snapshot, &peers);
    let at_limit = ResolvedOverride { id: key(A), stake: u64::MAX - 50, address: Some(ip(1)) };
    let beyond = ResolvedOverride { id: key(A), stake: u64::MAX - 49, address: Some(ip(1)) };
    let unknown = ResolvedOverride { id: key(C), stake: u64::MAX, address: None };
    assert!(nodes.fits(&at_limit));
    assert!(!nodes.fits(&beyond));
    assert!(nodes.fits(&unknown));
    assert!(refresh_stake_maps(&snapshot, &peers, &vec![beyond]).is_none());
    assert!(refresh_stake_maps(&snapshot, &peers, &vec![at_limit, beyond]).is_none());
    let done = refresh_stake_maps(&snapshot, &peers, &vec![unknown, at_limit])
        .expect("the total fits");
    assert_eq!(done.nodes.total_stake(), u64::MAX);
    assert_eq!(done.skipped, vec![SkippedOverride { id: key(C), stake: u64::MAX }]);
}

#[test]
fn snapshot_total_is_the_sum_or_none() {
    let whole = snapshot(&[(A, 100), (B, 50), (D, 30)]);
    assert_eq!(whole.total_stake(), 180);
    assert_eq!(whole.stake_of(&key(D)), Some(30));
    assert_eq!(whole.stake_of(&key(C)), None);
    assert_eq!(whole.stakes().len(), 3);
    assert!(StakeSnapshot::new(stakes(&[(A, u64::MAX), (B, 1)])).is_none());
    let full = StakeSnapshot::new(stakes(&[(A, u64::MAX - 1), (B, 1)])).expect("the total fits");
    assert_eq!(full.total_stake(), u64::MAX);
}

#[test]
fn find_peer_address_takes_the_first_record() {
    let peers = vec![peer(A, 1), peer(B, 2), peer(A, 3)];
    assert_eq!(find_peer_address(&peers, &key(A)), Some(ip(1)));
    assert_eq!(find_peer_address(&peers, &key(B)), Some(ip(2)));
    assert_eq!(find_peer_address(&peers, &key(C)), None);
    assert_eq!(find_peer_address(&Vec::new(), &key(A)), None);
}

#[test]
fn publish_replaces_the_whole_view() {
    let mut shared = StakedNodes::default();
    assert_eq!(shared.total_stake(), 0);
    assert_eq!(shared.pubkey_stake_map().len(), 0);
    assert_eq!(shared.ip_stake_map().len(), 0);
    let first = build_stake_maps(&snapshot(&[(A, 100), (B, 50)]), &vec![peer(A, 1), peer(B, 2)]);
    shared.publish(first);
    assert_eq!(shared.total_stake(), 150);
    assert_eq!(shared.pubkey_stake_map().len(), 2);
    let second = build_stake_maps(&snapshot(&[(C, 7)]), &vec![peer(C, 3)]);
    shared.publish(second);
    assert_eq!(shared.total_stake(), 7);
    assert_eq!(shared.pubkey_stake_map().len(), 1);
    assert_eq!(shared.pubkey_stake_map().get(&key(A)), None);
    assert_eq!(shared.pubkey_stake_map().get(&key(C)), Some(7));
    assert_eq!(shared.ip_stake_map().len(), 1);
    assert_eq!(shared.ip_stake_map().get(&ip(1)), None);
    assert_eq!(shared.ip_stake_map().get(&ip(3)), Some(7));
}
