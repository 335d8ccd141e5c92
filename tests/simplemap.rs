use rand::Rng;
use simplemap::{FnvBuildHasher, SimpleMap, ref_to_tuple_to_tuple_of_refs, tuple_of_refs_to_tuple};

#[test]
fn default() {
    let map: SimpleMap<u32, u32> = SimpleMap::new_with_default(5u32);
    assert_eq!(*map.get(1u32), 5u32);
}

#[test]
fn iter() {
    let mut map = SimpleMap::new();

    *map.set(0u32) = 3i32; // counts
    *map.set(1u32) = 0i32; // default, doesn't count
    *map.set(2u32) = 2i32; // counts
    *map.set(0u32) = 2i32; // replaces the existing one
    let _ = *map.get(0u32); // shouldn't change anything

    map.compact();
    assert_eq!(map.iter().len(), 2);
}

#[test]
fn random() {
    let mut bmap: fnv::FnvHashMap<i32, u32> = Default::default();
    let mut smap = SimpleMap::new();

    let mut rng = rand::thread_rng();

    for val in 0u32..10000 {
        let idx = rng.gen_range(-5i32..5);
        let bval = *bmap.get(&idx).unwrap_or(&Default::default());
        let sval = *smap.get(idx);
        assert_eq!(bval, sval);
        bmap.insert(idx, val);
        *smap.set(idx) = val;
    }
}

#[test]
fn strings() {
    let mut smap = SimpleMap::new();

    *smap.set("one") = 1u32;
    *smap.set("two") = 2u32;

    assert_eq!(*smap.get("zero"), 0u32);
}

#[test]
fn scenario_reads_latest_value_at_every_point() {
    let mut map: SimpleMap<u32, i32> = SimpleMap::new();
    *map.set(0) = 3;
    assert_eq!(*map.get(0), 3);
    *map.set(1) = 0;
    assert_eq!(*map.get(0), 3);
    *map.set(2) = 2;
    assert_eq!(*map.get(0), 3);
    *map.set(0) = 2;
    assert_eq!(*map.get(0), 2);
    assert_eq!(*map.get(1), 0);
    assert_eq!(*map.get(2), 2);
    map.compact();
    assert_eq!(*map.get(0), 2);
    let mut keys: Vec<u32> = map.iter().iter().map(|p| *p.0).collect();
    keys.sort();
    assert_eq!(keys, vec![0, 2]);
}

#[test]
fn unwritten_keys_read_default() {
    let mut map: SimpleMap<i32, u64> = SimpleMap::new_with_default(9);
    for k in 0..20 {
        *map.set(k) = (k as u64) * 10 + 1;
    }
    assert_eq!(*map.get(-1), 9);
    assert_eq!(*map.get(20), 9);
    assert_eq!(*map.get(1000), 9);
    map.compact();
    assert_eq!(*map.get(-1), 9);
}

#[test]
fn write_then_read_stored_value() {
    let mut map: SimpleMap<u32, u32> = SimpleMap::new();
    *map.set(4) = 44;
    assert_eq!(*map.get(4), 44);
    *map.set(5) = 55;
    // key 4 is now reconciled into the store and read from there
    assert_eq!(*map.get(4), 44);
    assert_eq!(*map.get(5), 55);
}

#[test]
fn set_seeds_handle_with_current_value() {
    let mut map: SimpleMap<u32, u32> = SimpleMap::new_with_default(7);
    assert_eq!(*map.set(1), 7);
    *map.set(1) = 10;
    *map.set(2) = 20;
    let h = map.set(1);
    assert_eq!(*h, 10);
    *h += 5;
    assert_eq!(*map.get(1), 15);
}

#[test]
fn reset_to_default_removes_key() {
    let mut map: SimpleMap<u32, u32> = SimpleMap::new();
    *map.set(3) = 30;
    *map.set(8) = 80;
    *map.set(3) = 0;
    assert_eq!(*map.get(3), 0);
    map.compact();
    assert_eq!(*map.get(3), 0);
    let entries = map.iter();
    assert_eq!(entries.len(), 1);
    assert_eq!((*entries[0].0, *entries[0].1), (8, 80));
}

#[test]
fn compact_twice_is_compact_once() {
    let mut map: SimpleMap<u32, u32> = SimpleMap::new();
    *map.set(1) = 1;
    *map.set(2) = 0;
    *map.set(3) = 3;
    map.compact();
    let mut once = map.iter_cloned();
    map.compact();
    let mut twice = map.iter_cloned();
    once.sort();
    twice.sort();
    assert_eq!(once, twice);
    assert_eq!(once, vec![(1, 1), (3, 3)]);
}

#[test]
fn count_after_compaction() {
    let mut map: SimpleMap<u32, u32> = SimpleMap::new();
    for k in 0..10u32 {
        *map.set(k) = k + 1;
    }
    for k in 0..10u32 {
        if k % 3 == 0 {
            *map.set(k) = 0;
        }
    }
    map.compact();
    assert_eq!(map.iter().len(), 6);
}

#[test]
fn iter_before_compaction_lists_pending_last() {
    let mut map: SimpleMap<u32, u32> = SimpleMap::new();
    *map.set(1) = 10;
    *map.set(2) = 20;
    *map.set(1) = 0;
    let entries = map.iter_cloned();
    // the store still holds 1 and 2; the pending write of the default to 1 comes last
    assert_eq!(entries.len(), 3);
    assert_eq!(entries[2], (1, 0));
    map.compact();
    assert_eq!(map.iter_cloned(), vec![(2, 20)]);
}

#[test]
fn empty_map_iterates_nothing() {
    let map: SimpleMap<u32, u32> = SimpleMap::new();
    assert!(map.iter().is_empty());
    assert!(map.iter_cloned().is_empty());
}

#[test]
fn default_trait_gives_empty_map() {
    let map: SimpleMap<u8, i64> = Default::default();
    assert_eq!(*map.get(200), 0);
    assert!(map.iter().is_empty());
}

#[test]
fn hash_state_constructors() {
    let mut a: SimpleMap<u32, u32> = SimpleMap::with_hash_state(FnvBuildHasher::default());
    *a.set(1) = 2;
    assert_eq!(*a.get(1), 2);
    assert_eq!(*a.get(2), 0);
    let mut b: SimpleMap<u32, u32> =
        SimpleMap::with_default_with_hash_state(3, FnvBuildHasher::default());
    assert_eq!(*b.get(1), 3);
    *b.set(1) = 4;
    b.compact();
    assert_eq!(b.iter_cloned(), vec![(1, 4)]);
}

#[test]
fn from_pairs_keeps_last_and_default_values() {
    let map: SimpleMap<u32, u32> = SimpleMap::from_pairs(vec![(1, 5), (2, 0), (1, 6)]);
    assert_eq!(*map.get(1), 6);
    assert_eq!(*map.get(2), 0);
    let mut entries = map.iter_cloned();
    entries.sort();
    assert_eq!(entries, vec![(1, 6), (2, 0)]);
}

#[test]
fn string_keys_and_values() {
    let mut map: SimpleMap<String, String> = SimpleMap::new_with_default(String::new());
    *map.set("a".to_string()) = "x".to_string();
    map.set("a".to_string()).push('y');
    assert_eq!(map.get("a".to_string()), "xy");
    assert_eq!(map.get("b".to_string()), "");
}

#[test]
fn pair_helpers() {
    let p = (3u32, 'c');
    let r = ref_to_tuple_to_tuple_of_refs(&p);
    assert_eq!((*r.0, *r.1), (3, 'c'));
    let owned = tuple_of_refs_to_tuple((&7u8, &String::from("s")));
    assert_eq!(owned, (7u8, String::from("s")));
}

#[test]
fn clone_is_independent() {
    let mut a: SimpleMap<u32, u32> = SimpleMap::new();
    *a.set(1) = 10;
    let b = a.clone();
    *a.set(1) = 11;
    assert_eq!(*b.get(1), 10);
    assert_eq!(*a.get(1), 11);
}

#[test]
fn interleaved_compaction_matches_reference() {
    let mut reference: std::collections::BTreeMap<i32, u32> = std::collections::BTreeMap::new();
    let mut smap: SimpleMap<i32, u32> = SimpleMap::new_with_default(3);
    let mut rng = rand::thread_rng();

    for step in 0u32..5000 {
        let idx = rng.gen_range(-8i32..8);
        let expected = *reference.get(&idx).unwrap_or(&3);
        assert_eq!(*smap.get(idx), expected);
        match rng.gen_range(0u32..3) {
            0 => smap.compact(),
            1 => {
                reference.insert(idx, 3);
                *smap.set(idx) = 3;
            }
            _ => {
                reference.insert(idx, step % 5);
                *smap.set(idx) = step % 5;
            }
        }
    }
    smap.compact();
    let live = reference.values().filter(|v| **v != 3).count();
    assert_eq!(smap.iter().len(), live);
    assert!(smap.iter().iter().all(|p| *p.1 != 3));
}
