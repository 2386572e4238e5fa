use caelib::cache::{Tile, TileCache, TileKey};

fn key(n: i32) -> TileKey {
    TileKey { rule: 30, initial_state_hash: 0, tile_x: n, tile_y: 0 }
}

fn tile(v: u32) -> Tile {
    Tile { cells: vec![v], simulated_width: 1, padding_left: 0 }
}

/// Filling a cache of capacity C with C + 1 distinct keys evicts exactly
/// one entry: the first inserted. A hit then protects its key, so the
/// next insert evicts the third-inserted key.
#[test]
fn lru_eviction_order() {
    let capacity = 3;
    let mut cache = TileCache::new(capacity, 64);
    for n in 0..capacity as i32 + 1 {
        cache.insert(key(n), tile(n as u32));
    }
    assert_eq!(cache.len(), capacity);
    // Exactly one eviction: the first-inserted key is gone.
    assert!(cache.get(&key(0)).is_none());
    for n in 1..capacity as i32 + 1 {
        assert!(cache.get(&key(n)).is_some());
    }

    // Touch the second-inserted key, insert a fresh one: the
    // third-inserted key is the victim.
    assert!(cache.get(&key(1)).is_some());
    cache.insert(key(100), tile(100));
    assert!(cache.get(&key(2)).is_none());
    assert!(cache.get(&key(1)).is_some());
    assert!(cache.get(&key(3)).is_some());
    assert!(cache.get(&key(100)).is_some());
}

/// Over any sequence of operations, hits + misses equals the number of
/// lookups, and the entry count never exceeds the capacity.
#[test]
fn hit_miss_accounting() {
    let mut cache = TileCache::new(2, 64);
    let mut gets = 0u64;
    assert!(cache.get(&key(5)).is_none());
    gets += 1;
    cache.insert(key(5), tile(5));
    assert!(cache.get(&key(5)).is_some());
    gets += 1;
    cache.insert(key(6), tile(6));
    cache.insert(key(7), tile(7));
    assert!(cache.get(&key(5)).is_none());
    gets += 1;
    assert!(cache.get(&key(7)).is_some());
    gets += 1;
    assert!(cache.get(&key(6)).is_some());
    gets += 1;
    assert_eq!(cache.hits + cache.misses, gets);
    assert_eq!(cache.hits, 3);
    assert_eq!(cache.misses, 2);
    assert!(cache.len() <= 2);
}

/// A repeated insert under the same key replaces the entry without
/// growing the cache.
#[test]
fn insert_replaces_same_key() {
    let mut cache = TileCache::new(4, 64);
    cache.insert(key(1), tile(1));
    cache.insert(key(1), tile(2));
    assert_eq!(cache.len(), 1);
    let got = cache.get(&key(1)).unwrap();
    assert_eq!(got.cells, vec![2]);
}

/// Capacity 0 disables caching: inserts are no-ops and every lookup
/// misses.
#[test]
fn zero_capacity_never_stores() {
    let mut cache = TileCache::new(0, 64);
    cache.insert(key(1), tile(1));
    assert_eq!(cache.len(), 0);
    assert!(cache.get(&key(1)).is_none());
    assert_eq!(cache.misses, 1);
}

/// A zero tile size falls back to the default.
#[test]
fn zero_tile_size_defaults() {
    let cache = TileCache::new(4, 0);
    assert_eq!(cache.tile_size, 256);
}

/// Clearing drops every entry and zeroes the counters.
#[test]
fn clear_resets() {
    let mut cache = TileCache::new(4, 64);
    cache.insert(key(1), tile(1));
    let _ = cache.get(&key(1));
    let _ = cache.get(&key(9));
    cache.clear();
    assert_eq!(cache.len(), 0);
    assert_eq!(cache.hits, 0);
    assert_eq!(cache.misses, 0);
}

/// The default and any explicit initial state hash to different digests,
/// and equal states hash alike.
#[test]
fn initial_state_digests() {
    let none = TileKey::hash_initial_state(&None);
    let empty = TileKey::hash_initial_state(&Some(String::new()));
    let ones = TileKey::hash_initial_state(&Some("101".to_string()));
    let ones2 = TileKey::hash_initial_state(&Some("101".to_string()));
    assert_ne!(none, empty);
    assert_ne!(none, ones);
    assert_ne!(empty, ones);
    assert_eq!(ones, ones2);

    let k = TileKey::new(30, &Some("101".to_string()), 2, 3);
    assert_eq!(k.rule, 30);
    assert_eq!(k.initial_state_hash, ones);
    assert_eq!(k.tile_x, 2);
    assert_eq!(k.tile_y, 3);
}
