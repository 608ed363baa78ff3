use decoupled_ai::stream_cache::{CacheStats, Lru, DEFAULT_MAX_RESIDENT_STREAMING};

#[test]
fn stats_serialize_is_valid_object() {
    let s = CacheStats::default();
    let json = s.to_json();
    assert!(json.starts_with('{') && json.ends_with('}'));
    assert!(json.contains("\"max_resident_bytes\":0"));
}

#[test]
fn stats_json_lists_every_counter() {
    let s = CacheStats {
        max_resident_bytes: 1024,
        current_resident_bytes: 512,
        resident_shard_count: 2,
        total_bytes_pulled: 4096,
        evictions: 3,
        prefetch_hits: 7,
    };
    assert_eq!(
        s.to_json(),
        "{\"max_resident_bytes\":1024,\"current_resident_bytes\":512,\"resident_shard_count\":2,\"total_bytes_pulled\":4096,\"evictions\":3,\"prefetch_hits\":7}"
    );
}

#[test]
fn lru_evicts_coldest_unpinned() {
    let mut lru = Lru::new();
    lru.record_mapped(1, 100);
    lru.record_mapped(2, 100);
    lru.record_mapped(3, 100);
    assert_eq!(lru.total_resident, 300);
    lru.touch(1);
    assert_eq!(lru.coldest_unpinned(), Some(1));
    lru.pin(2);
    let evicted = lru.make_room(100, 300);
    assert_eq!(evicted, vec![3]);
    assert_eq!(lru.total_resident, 200);
    lru.unpin(2);
    let evicted = lru.make_room(250, 300);
    assert_eq!(evicted, vec![2, 1]);
    assert_eq!(lru.total_resident, 0);
    assert!(DEFAULT_MAX_RESIDENT_STREAMING > 0);
}

#[test]
fn lru_keeps_pinned_shards() {
    let mut lru = Lru::new();
    lru.record_mapped(4, 200);
    lru.pin(4);
    let evicted = lru.make_room(200, 300);
    assert!(evicted.is_empty());
    assert_eq!(lru.total_resident, 200);
    assert_eq!(lru.coldest_unpinned(), None);
}

#[test]
fn stats_bookkeeping() {
    let mut s = CacheStats::default();
    s.record_mapping(100);
    s.record_mapping(50);
    assert_eq!((s.current_resident_bytes, s.resident_shard_count, s.total_bytes_pulled), (150, 2, 150));
    s.record_eviction(100);
    assert_eq!((s.current_resident_bytes, s.resident_shard_count, s.evictions), (50, 1, 1));
    s.record_eviction(500);
    assert_eq!((s.current_resident_bytes, s.resident_shard_count), (0, 0));
    s.record_pull(7);
    assert_eq!(s.total_bytes_pulled, 157);
}

#[test]
fn unpin_undoes_pin() {
    let mut lru = Lru::new();
    lru.record_mapped(1, 10);
    lru.record_mapped(2, 20);
    let before: Vec<u32> = lru.entries.iter().map(|e| e.pin_count).collect();
    lru.pin(2);
    assert_eq!(lru.entries[1].pin_count, 1);
    lru.unpin(2);
    let after: Vec<u32> = lru.entries.iter().map(|e| e.pin_count).collect();
    assert_eq!(before, after);
}

#[test]
fn lru_stops_evicting_once_the_shard_fits() {
    let mut lru = Lru::new();
    for id in 1..=4u16 {
        lru.record_mapped(id, 100);
    }
    lru.touch(2);
    lru.touch(1);
    // Cold to hot: 3, 4, 2, 1. A 150-byte shard under a 400-byte cap needs
    // two of them gone.
    let evicted = lru.make_room(150, 400);
    assert_eq!(evicted, vec![3, 4]);
    assert_eq!(lru.total_resident, 200);
    let ids: Vec<u16> = lru.entries.iter().map(|e| e.shard_id).collect();
    assert_eq!(ids, vec![1, 2]);
    // A shard that fits already evicts nothing; one as large as the cap
    // evicts nothing either.
    assert!(lru.make_room(200, 400).is_empty());
    assert!(lru.make_room(400, 400).is_empty());
    assert_eq!(lru.entries.len(), 2);
}
