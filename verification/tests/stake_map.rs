use staked_nodes_updater::address::IpAddress;
use staked_nodes_updater::pubkey::Pubkey;
use staked_nodes_updater::stake_map::{StakeKey, StakeMap};

#[test]
fn new_map_is_empty() {
    let map: StakeMap<IpAddress> = StakeMap::new();
    assert_eq!(map.len(), 0);
    assert_eq!(map.entry(0), None);
    assert_eq!(map.get(&IpAddress::V4(1)), None);
    assert!(!map.contains_key(&IpAddress::V4(1)));
}

#[test]
fn insert_returns_the_previous_stake() {
    let mut map: StakeMap<IpAddress> = StakeMap::new();
    assert_eq!(map.insert(IpAddress::V4(1), 10), None);
    assert_eq!(map.insert(IpAddress::V6(1), 20), None);
    assert_eq!(map.insert(IpAddress::V4(1), 30), Some(10));
    assert_eq!(map.len(), 2);
    assert_eq!(map.get(&IpAddress::V4(1)), Some(30));
    assert_eq!(map.get(&IpAddress::V6(1)), Some(20));
    assert!(map.contains_key(&IpAddress::V6(1)));
    assert!(!map.contains_key(&IpAddress::V6(2)));
}

#[test]
fn entries_keep_the_order_of_first_insertion() {
    let mut map: StakeMap<IpAddress> = StakeMap::new();
    map.insert(IpAddress::V4(3), 1);
    map.insert(IpAddress::V4(1), 2);
    map.insert(IpAddress::V4(2), 3);
    map.insert(IpAddress::V4(1), 4);
    assert_eq!(map.entry(0), Some((IpAddress::V4(3), 1)));
    assert_eq!(map.entry(1), Some((IpAddress::V4(1), 4)));
    assert_eq!(map.entry(2), Some((IpAddress::V4(2), 3)));
    assert_eq!(map.entry(3), None);
}

#[test]
fn clone_holds_the_same_entries() {
    let mut map: StakeMap<Pubkey> = StakeMap::new();
    map.insert(Pubkey::new_from_array([1; 32]), 5);
    map.insert(Pubkey::new_from_array([2; 32]), 6);
    let mut copy = map.clone();
    assert_eq!(copy.len(), 2);
    assert_eq!(copy.entry(0), Some((Pubkey::new_from_array([1; 32]), 5)));
    assert_eq!(copy.entry(1), Some((Pubkey::new_from_array([2; 32]), 6)));
    copy.insert(Pubkey::new_from_array([1; 32]), 7);
    assert_eq!(map.get(&Pubkey::new_from_array([1; 32])), Some(5));
    assert_eq!(copy.get(&Pubkey::new_from_array([1; 32])), Some(7));
}

#[test]
fn keys_compare_by_value() {
    let mut bytes = [7u8; 32];
    let a = Pubkey::new_from_array(bytes);
    bytes[31] = 8;
    let b = Pubkey::new_from_array(bytes);
    assert!(a.same(&a));
    assert!(!a.same(&b));
    assert!(a.same_key(&Pubkey::new_from_array([7u8; 32])));
    assert!(!b.same_key(&a));
    assert_eq!(b.to_bytes()[31], 8);
    assert!(IpAddress::V4(1).same_key(&IpAddress::V4(1)));
    assert!(!IpAddress::V4(1).same_key(&IpAddress::V6(1)));
    assert!(!IpAddress::V6(1).same_key(&IpAddress::V6(2)));
}
