use arcade_hub::ordered_map::OrderedKey;
use arcade_hub::{AccountOwner, ChainId, OrderedMap};

#[test]
fn an_empty_map_holds_nothing() {
    let m: OrderedMap<u64, u32> = OrderedMap::new();
    assert_eq!(m.len(), 0);
    assert_eq!(m.get(&3), None);
    assert!(!m.contains_key(&3));
    assert_eq!(m.position(&3), None);
}

#[test]
fn keys_are_kept_in_ascending_order() {
    let mut m: OrderedMap<u64, u32> = OrderedMap::new();
    m.insert(30, 3);
    m.insert(10, 1);
    m.insert(20, 2);
    m.insert(40, 4);
    m.insert(0, 0);
    assert_eq!(m.len(), 5);
    for i in 0..5 {
        assert_eq!(*m.key_at(i), (i as u64) * 10);
        assert_eq!(*m.value_at(i), i as u32);
    }
    assert_eq!(m.position(&20), Some(2));
    assert_eq!(m.position(&25), None);
    assert_eq!(m.get(&40), Some(&4));
    assert!(m.contains_key(&0));
    assert!(!m.contains_key(&5));
}

#[test]
fn inserting_a_held_key_replaces_its_value() {
    let mut m: OrderedMap<u64, u32> = OrderedMap::new();
    m.insert(7, 1);
    m.insert(9, 2);
    m.insert(7, 3);
    assert_eq!(m.len(), 2);
    assert_eq!(m.get(&7), Some(&3));
    assert_eq!(m.get(&9), Some(&2));
    assert_eq!(*m.key_at(0), 7);
}

#[test]
fn many_keys_in_any_order() {
    let mut m: OrderedMap<u64, u64> = OrderedMap::new();
    let mut k: u64 = 1;
    for _ in 0..500 {
        k = (k * 7919 + 13) % 1009;
        m.insert(k, k + 1);
    }
    for i in 1..m.len() {
        assert!(*m.key_at(i - 1) < *m.key_at(i));
    }
    for i in 0..m.len() {
        let key = *m.key_at(i);
        assert_eq!(m.get(&key), Some(&(key + 1)));
        assert_eq!(m.position(&key), Some(i));
    }
}

#[test]
fn owners_are_ordered_by_variant_then_bytes() {
    let reserved_low = AccountOwner::Reserved(1);
    let reserved_high = AccountOwner::Reserved(200);
    let long_low = AccountOwner::Address32([0; 32]);
    let long_high = AccountOwner::Address32([255; 32]);
    let short_low = AccountOwner::Address20([0; 20]);
    let mut short_mid_bytes = [0u8; 20];
    short_mid_bytes[19] = 1;
    let short_mid = AccountOwner::Address20(short_mid_bytes);
    let mut short_high_bytes = [0u8; 20];
    short_high_bytes[0] = 1;
    let short_high = AccountOwner::Address20(short_high_bytes);
    let ascending = [
        reserved_low,
        reserved_high,
        long_low,
        long_high,
        short_low,
        short_mid,
        short_high,
    ];
    for i in 0..ascending.len() {
        for j in 0..ascending.len() {
            assert_eq!(ascending[i].precedes(&ascending[j]), i < j);
            assert_eq!(ascending[i].same(&ascending[j]), i == j);
            assert_eq!(ascending[i] == ascending[j], i == j);
        }
    }
}

#[test]
fn numbers_are_ordered_by_value() {
    assert!(3u64.precedes(&4));
    assert!(!4u64.precedes(&4));
    assert!(!5u64.precedes(&4));
    assert!(4u64.same(&4));
    assert!(!4u64.same(&5));
}

#[test]
fn chains_are_compared_by_their_bytes() {
    let a = ChainId([7; 32]);
    let mut other = [7u8; 32];
    other[31] = 8;
    let b = ChainId(other);
    assert!(a.same(&a));
    assert!(!a.same(&b));
    assert!(a.same(&ChainId([7; 32])));
}

#[test]
fn a_map_by_owner_scans_in_owner_order() {
    let mut m: OrderedMap<AccountOwner, u8> = OrderedMap::new();
    m.insert(AccountOwner::Address20([9; 20]), 4);
    m.insert(AccountOwner::Address32([1; 32]), 3);
    m.insert(AccountOwner::Reserved(9), 1);
    m.insert(AccountOwner::Address20([2; 20]), 5);
    m.insert(AccountOwner::Reserved(10), 2);
    m.insert(AccountOwner::Address20([2; 20]), 6);
    assert_eq!(m.len(), 5);
    assert_eq!(*m.key_at(0), AccountOwner::Reserved(9));
    assert_eq!(*m.key_at(1), AccountOwner::Reserved(10));
    assert_eq!(*m.key_at(2), AccountOwner::Address32([1; 32]));
    assert_eq!(*m.key_at(3), AccountOwner::Address20([2; 20]));
    assert_eq!(*m.key_at(4), AccountOwner::Address20([9; 20]));
    assert_eq!(*m.value_at(3), 6);
}
