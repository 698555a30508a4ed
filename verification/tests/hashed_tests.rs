use rtils::hashed::{HashedMap, HashedSet};
use std::hash::Hasher;

#[test]
fn map_insert_get_remove() {
    let mut m: HashedMap<&str> = HashedMap::new();
    assert_eq!(m.insert(3, "three"), None);
    assert_eq!(m.insert(70, "seventy"), None);
    assert_eq!(m.get(&3), Some(&"three"));
    assert!(m.contains(&70));
    assert!(!m.contains(&4));
    assert_eq!(m.insert(3, "tres"), Some("three"));
    assert_eq!(m.get(&3), Some(&"tres"));
    if let Some(v) = m.get_mut(&70) {
        *v = "setenta";
    }
    assert_eq!(m.get(&70), Some(&"setenta"));
    assert!(m.get_mut(&5).is_none());
    assert_eq!(m.remove(&3), Some((3, "tres")));
    assert_eq!(m.remove(&3), None);
    assert_eq!(m.get(&3), None);
    assert_eq!(m.get_iter().len(), 1);
}

#[test]
fn map_grows_and_keeps_entries() {
    let mut m: HashedMap<u64> = HashedMap::with_capacity(0);
    for k in 0..200u64 {
        assert_eq!(m.insert(k, k * 2), None);
    }
    for k in 0..200u64 {
        assert_eq!(m.get(&k), Some(&(k * 2)));
    }
    let mut keys: Vec<u64> = m.get_iter().iter().map(|e| e.0).collect();
    keys.sort();
    assert_eq!(keys, (0..200).collect::<Vec<u64>>());
    m.resize(3);
    for k in 0..200u64 {
        assert_eq!(m.get(&k), Some(&(k * 2)));
    }
    assert_eq!(m.get_iter().len(), 200);
}

#[test]
fn set_members() {
    let mut s = HashedSet::new();
    s.insert(5);
    s.insert(9);
    s.insert(5);
    assert!(s.contains(&5));
    assert!(!s.contains(&6));
    let mut all = s.get_iter();
    all.sort();
    assert_eq!(all, vec![5, 9]);
    assert_eq!(s.remove(&5), Some(5));
    assert_eq!(s.remove(&5), None);
    s.resize(1);
    assert!(s.contains(&9));
    let t = HashedSet::with_capacity(4);
    assert!(t.get_iter().is_empty());
}

fn std_bin(k: u64, bins: usize) -> usize {
    let mut hs = std::collections::hash_map::DefaultHasher::new();
    hs.write(&k.to_le_bytes());
    (hs.finish() as usize) % bins
}

#[test]
fn entries_lie_in_the_bins_that_default_hasher_picks() {
    let mut m: HashedMap<u64> = HashedMap::new();
    for k in 0..40u64 {
        m.insert(k, k);
    }
    let mut expected: Vec<(usize, i64)> = (0..40u64).map(|k| (std_bin(k, 65), -(k as i64))).collect();
    expected.sort();
    let expected_keys: Vec<u64> = expected.into_iter().map(|(_, k)| (-k) as u64).collect();
    let keys: Vec<u64> = m.get_iter().iter().map(|e| e.0).collect();
    assert_eq!(keys, expected_keys);
}

#[test]
fn only_the_newest_entry_of_a_bin_is_unlinked() {
    let mut m: HashedMap<u32> = HashedMap::with_capacity(0);
    m.insert(1, 10);
    m.insert(2, 20);
    assert_eq!(m.remove(&1), Some((1, 10)));
    assert_eq!(m.get(&1), Some(&10));
    assert_eq!(m.remove(&2), Some((2, 20)));
    assert_eq!(m.get(&2), None);
    assert_eq!(m.remove(&1), Some((1, 10)));
    assert_eq!(m.get(&1), None);
    assert_eq!(m.remove(&1), None);
    let mut s = HashedSet::with_capacity(0);
    s.insert(7);
    s.insert(8);
    assert_eq!(s.remove(&7), Some(7));
    assert!(s.contains(&7));
    assert_eq!(s.remove(&8), Some(8));
    assert!(!s.contains(&8));
}
