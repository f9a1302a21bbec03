use raf_render::handles::{MeshHandle, TextureHandle};
use raf_render::resource_registry::{
    MeshRegistry, ResourceAdmission, ResourceArena, ResourceBudgetError, TextureRegistry,
};

#[test]
fn inserted_resources_are_found_by_their_handle() {
    let mut arena: TextureRegistry<&'static str> = ResourceArena::new(100);
    let handle = arena.insert("albedo", ResourceAdmission::cached(40, 1)).unwrap();
    assert!(handle.is_valid());
    assert!(arena.contains(handle));
    assert_eq!(arena.get(handle, 2), Some(&"albedo"));
    let metrics = arena.metrics();
    assert_eq!(metrics.resident_bytes, 40);
    assert_eq!(metrics.resident_entries, 1);
    assert_eq!(metrics.peak_resident_bytes, 40);
    assert_eq!(metrics.admissions, 1);
    assert_eq!(metrics.cache_hits, 1);
}

#[test]
fn removed_handles_go_stale_even_when_the_slot_is_reused() {
    let mut arena: MeshRegistry<u32> = ResourceArena::new(100);
    let first = arena.insert(1, ResourceAdmission::cached(10, 1)).unwrap();
    assert_eq!(arena.remove(first), Some(1));
    assert_eq!(arena.remove(first), None);
    let second = arena.insert(2, ResourceAdmission::cached(10, 2)).unwrap();
    assert_eq!(second.index(), first.index());
    assert_ne!(second.generation(), first.generation());
    assert!(!arena.contains(first));
    assert_eq!(arena.get(first, 3), None);
    assert_eq!(arena.get(second, 3), Some(&2));
    let metrics = arena.metrics();
    assert_eq!(metrics.removals, 1);
    assert_eq!(metrics.stale_handle_misses, 1);
    assert_eq!(metrics.resident_bytes, 10);
}

#[test]
fn admissions_larger_than_the_budget_are_refused() {
    let mut arena: MeshRegistry<u32> = ResourceArena::new(50);
    arena.insert(1, ResourceAdmission::cached(20, 1)).unwrap();
    let error = arena.insert(2, ResourceAdmission::cached(51, 1)).unwrap_err();
    assert_eq!(
        error,
        ResourceBudgetError { requested_bytes: 51, resident_bytes: 20, budget_bytes: 50 }
    );
    assert_eq!(arena.metrics().rejected_admissions, 1);
    assert_eq!(arena.metrics().resident_entries, 1);
}

#[test]
fn least_recently_used_unpinned_resources_are_evicted_first() {
    let mut arena: MeshRegistry<u32> = ResourceArena::new(100);
    let old = arena.insert(1, ResourceAdmission::cached(40, 1)).unwrap();
    let recent = arena.insert(2, ResourceAdmission::cached(40, 5)).unwrap();
    // Touch the first resource so that the second becomes the oldest.
    assert_eq!(arena.get(old, 9), Some(&1));
    let third = arena.insert(3, ResourceAdmission::cached(40, 10)).unwrap();
    assert!(arena.contains(old));
    assert!(!arena.contains(recent));
    assert!(arena.contains(third));
    assert_eq!(third.index(), recent.index());
    let metrics = arena.metrics();
    assert_eq!(metrics.evictions, 1);
    assert_eq!(metrics.resident_bytes, 80);
}

#[test]
fn pinned_resources_are_never_evicted() {
    let mut arena: MeshRegistry<u32> = ResourceArena::new(100);
    let pinned = arena.insert(1, ResourceAdmission::pinned(60, 1)).unwrap();
    let cached = arena.insert(2, ResourceAdmission::cached(30, 2)).unwrap();
    // 60 pinned bytes + 50 cannot fit even after evicting everything else.
    let error = arena.insert(3, ResourceAdmission::cached(50, 3)).unwrap_err();
    assert_eq!(error.resident_bytes, 60);
    assert!(arena.contains(pinned));
    assert!(!arena.contains(cached));
    assert_eq!(arena.metrics().evictions, 1);
    assert_eq!(arena.metrics().rejected_admissions, 1);
}

#[test]
fn unpinning_makes_a_resource_evictable() {
    let mut arena: MeshRegistry<u32> = ResourceArena::new(100);
    let handle = arena.insert(1, ResourceAdmission::pinned(60, 1)).unwrap();
    assert!(arena.pin(handle, false));
    arena.insert(2, ResourceAdmission::cached(60, 2)).unwrap();
    assert!(!arena.contains(handle));
    assert!(!arena.pin(handle, true));
}

#[test]
fn lowering_the_budget_evicts_until_it_fits() {
    let mut arena: MeshRegistry<u32> = ResourceArena::new(100);
    let a = arena.insert(1, ResourceAdmission::cached(30, 1)).unwrap();
    let b = arena.insert(2, ResourceAdmission::cached(30, 2)).unwrap();
    let c = arena.insert(3, ResourceAdmission::cached(30, 3)).unwrap();
    arena.set_budget_bytes(40);
    assert_eq!(arena.budget_bytes(), 40);
    assert!(!arena.contains(a));
    assert!(!arena.contains(b));
    assert!(arena.contains(c));
    assert_eq!(arena.metrics().resident_bytes, 30);
    assert_eq!(arena.metrics().peak_resident_bytes, 90);
}

#[test]
fn clearing_keeps_only_pinned_resources() {
    let mut arena: MeshRegistry<u32> = ResourceArena::new(100);
    let pinned = arena.insert(1, ResourceAdmission::pinned(10, 1)).unwrap();
    let a = arena.insert(2, ResourceAdmission::cached(20, 1)).unwrap();
    let b = arena.insert(3, ResourceAdmission::cached(30, 1)).unwrap();
    arena.clear_unpinned();
    assert!(arena.contains(pinned));
    assert!(!arena.contains(a));
    assert!(!arena.contains(b));
    let metrics = arena.metrics();
    assert_eq!(metrics.resident_bytes, 10);
    assert_eq!(metrics.resident_entries, 1);
    assert_eq!(metrics.evictions, 2);
}

#[test]
fn mutable_access_changes_the_stored_value() {
    let mut arena: MeshRegistry<Vec<u8>> = ResourceArena::new(100);
    let handle = arena.insert(vec![1], ResourceAdmission::cached(1, 1)).unwrap();
    arena.get_mut(handle, 2).unwrap().push(2);
    assert_eq!(arena.get(handle, 3), Some(&vec![1, 2]));
    assert_eq!(arena.get_mut(MeshHandle::new(5, 1), 3), None);
}

#[test]
fn freed_slots_are_reused_before_new_ones() {
    let mut arena: TextureRegistry<u8> = ResourceArena::new(1000);
    let a = arena.insert(1, ResourceAdmission::cached(1, 1)).unwrap();
    let b = arena.insert(2, ResourceAdmission::cached(1, 1)).unwrap();
    assert_eq!(a.index(), 0);
    assert_eq!(b.index(), 1);
    arena.remove(a);
    let c = arena.insert(3, ResourceAdmission::cached(1, 1)).unwrap();
    assert_eq!(c.index(), 0);
    assert_eq!(c.generation(), 2);
    let d = arena.insert(4, ResourceAdmission::cached(1, 1)).unwrap();
    assert_eq!(d.index(), 2);
    assert_eq!(TextureHandle::new(0, 1), a);
}

#[test]
fn along_a_history_only_issued_and_kept_handles_are_held() {
    let mut arena: MeshRegistry<u8> = ResourceArena::new(100);
    let first = arena.insert(1, ResourceAdmission::cached(40, 0)).unwrap();
    assert!(arena.insert(2, ResourceAdmission::cached(101, 0)).is_err());
    let second = arena.insert(3, ResourceAdmission::pinned(30, 1)).unwrap();
    assert_eq!(arena.remove(first), Some(1));
    let third = arena.insert(4, ResourceAdmission::cached(50, 2)).unwrap();
    assert!(arena.insert(5, ResourceAdmission::cached(150, 3)).is_err());
    assert!(!arena.contains(first));
    assert!(arena.contains(second));
    assert!(arena.contains(third));
    assert!(!arena.contains(MeshHandle::invalid()));
    let metrics = arena.metrics();
    assert_eq!(metrics.rejected_admissions, 2);
    assert_eq!(metrics.resident_entries, 2);
    assert_eq!(metrics.admissions, metrics.removals + metrics.evictions + metrics.resident_entries as u64);
    assert!(metrics.peak_resident_bytes >= metrics.resident_bytes);
}
