use raf_render::mesh_cache::{mesh_batch_mode, MeshBatchMode, MeshBufferCache};

#[test]
fn only_cacheable_batches_of_two_or_more_are_instanced() {
    assert_eq!(mesh_batch_mode(0, true, 8), MeshBatchMode::PerInstance);
    assert_eq!(mesh_batch_mode(1, true, 8), MeshBatchMode::PerInstance);
    assert_eq!(mesh_batch_mode(2, true, 8), MeshBatchMode::Instanced);
    assert_eq!(mesh_batch_mode(64, true, 1), MeshBatchMode::Instanced);
    assert_eq!(mesh_batch_mode(5, false, 8), MeshBatchMode::PerInstance);
    assert_eq!(mesh_batch_mode(5, true, 0), MeshBatchMode::PerInstance);
}

#[test]
fn stored_mesh_buffers_are_found_again() {
    let mut cache: MeshBufferCache<&'static str> = MeshBufferCache::new(1024);
    assert!(cache.insert_buffers(7, "cube", 96, 1));
    assert_eq!(cache.len(), 1);
    assert_eq!(cache.lookup(7, 2), Some(&"cube"));
    let metrics = cache.registry().metrics();
    assert_eq!(metrics.cache_hits, 1);
    assert_eq!(metrics.resident_bytes, 96);
    assert_eq!(metrics.admissions, 1);
}

#[test]
fn an_unknown_mesh_is_a_miss_that_leaves_the_arena_alone() {
    let mut cache: MeshBufferCache<&'static str> = MeshBufferCache::new(1024);
    assert_eq!(cache.lookup(3, 0), None);
    let metrics = cache.registry().metrics();
    assert_eq!(metrics.cache_hits, 0);
    assert_eq!(metrics.stale_handle_misses, 0);
}

#[test]
fn refused_buffers_leave_the_mesh_unmapped() {
    let mut cache: MeshBufferCache<&'static str> = MeshBufferCache::new(64);
    assert!(!cache.insert_buffers(1, "huge", 65, 0));
    assert_eq!(cache.len(), 0);
    assert_eq!(cache.registry().metrics().rejected_admissions, 1);
    assert_eq!(cache.lookup(1, 0), None);
}

#[test]
fn evicted_buffers_turn_into_a_stale_miss_and_are_unmapped() {
    let mut cache: MeshBufferCache<&'static str> = MeshBufferCache::new(100);
    assert!(cache.insert_buffers(1, "first", 60, 0));
    assert!(cache.insert_buffers(2, "second", 60, 1));
    assert_eq!(cache.registry().metrics().evictions, 1);
    assert_eq!(cache.len(), 2);
    assert_eq!(cache.lookup(1, 2), None);
    assert_eq!(cache.len(), 1);
    assert_eq!(cache.registry().metrics().stale_handle_misses, 1);
    assert_eq!(cache.lookup(2, 2), Some(&"second"));
}

#[test]
fn storing_a_mesh_again_replaces_its_mapping() {
    let mut cache: MeshBufferCache<&'static str> = MeshBufferCache::new(1024);
    assert!(cache.insert_buffers(4, "old", 10, 0));
    assert!(cache.insert_buffers(4, "new", 10, 1));
    assert_eq!(cache.len(), 1);
    assert_eq!(cache.lookup(4, 2), Some(&"new"));
}

#[test]
fn making_room_drops_stale_mappings_below_the_limit() {
    let mut cache: MeshBufferCache<&'static str> = MeshBufferCache::new(100);
    assert!(cache.insert_buffers(1, "first", 60, 0));
    assert!(cache.insert_buffers(2, "second", 60, 1));
    cache.make_room(8);
    assert_eq!(cache.len(), 1);
    assert_eq!(cache.registry().metrics().resident_entries, 1);
    assert_eq!(cache.registry().metrics().stale_handle_misses, 0);
    assert_eq!(cache.lookup(2, 2), Some(&"second"));
}

#[test]
fn making_room_at_the_limit_clears_the_cache() {
    let mut cache: MeshBufferCache<&'static str> = MeshBufferCache::new(1024);
    assert!(cache.insert_buffers(1, "a", 10, 0));
    assert!(cache.insert_buffers(2, "b", 20, 0));
    cache.make_room(2);
    assert_eq!(cache.len(), 0);
    let metrics = cache.registry().metrics();
    assert_eq!(metrics.resident_bytes, 0);
    assert_eq!(metrics.evictions, 2);
    assert_eq!(cache.lookup(1, 1), None);
}
