use raf_render::ui_surface::gpu_renderer::UiSurfaceGpuMetrics;
use raf_render::ui_surface::image_textures::UiImageTextureCache;
use raf_render::ui_surface::images::UiSurfaceImageData;

fn image(size: [u32; 2], revision: u64) -> UiSurfaceImageData {
    UiSurfaceImageData {
        size,
        pixels: vec![0; (size[0].max(1) * size[1].max(1) * 4) as usize],
        revision,
    }
}

fn metrics() -> UiSurfaceGpuMetrics {
    UiSurfaceGpuMetrics::default()
}

#[test]
fn texture_cache_budget_follows_the_memory_budget() {
    let cache = UiImageTextureCache::new(256 * 1024 * 1024, 512);
    assert_eq!(cache.budget_bytes(), 16 * 1024 * 1024);
    let small = UiImageTextureCache::new(1024, 0);
    assert_eq!(small.budget_bytes(), 4 * 1024 * 1024);
    assert_eq!(small.len(), 0);
    assert_eq!(small.resident_bytes(), 0);
}

#[test]
fn synced_images_upload_once_per_revision() {
    let mut cache = UiImageTextureCache::new(0, 8);
    let mut m = metrics();
    cache.begin_frame();
    let first = image([2, 2], 1);
    assert_eq!(cache.sync_image("a", Some(&first), &mut m), (true, vec![]));
    assert_eq!(cache.resident_bytes(), 20);
    assert_eq!(m.image_upload_bytes, 20);
    assert_eq!(cache.sync_image("a", Some(&first), &mut m), (false, vec![]));
    let second = image([1, 1], 2);
    assert_eq!(cache.sync_image("a", Some(&second), &mut m), (true, vec![]));
    assert_eq!(cache.resident_bytes(), 4);
    assert_eq!(cache.info("a").unwrap().revision, 2);
    assert_eq!(cache.sync_image("a", None, &mut m), (false, vec![]));
    assert_eq!(cache.len(), 0);
    assert_eq!(cache.resident_bytes(), 0);
}

#[test]
fn entry_budget_evicts_the_least_recently_used_texture() {
    let mut cache = UiImageTextureCache::new(0, 2);
    let mut m = metrics();
    cache.begin_frame();
    cache.sync_image("old", Some(&image([1, 1], 1)), &mut m);
    cache.begin_frame();
    cache.sync_image("newer", Some(&image([1, 1], 2)), &mut m);
    cache.begin_frame();
    let (uploaded, evicted) = cache.sync_image("fresh", Some(&image([1, 1], 3)), &mut m);
    assert!(uploaded);
    assert_eq!(evicted, vec!["old".to_string()]);
    assert_eq!(m.image_evictions, 1);
    assert!(cache.info("old").is_none());
    assert!(cache.info("newer").is_some());
    assert_eq!(cache.frame_index(), 3);
}

#[test]
fn textures_of_the_current_frame_are_never_evicted() {
    let mut cache = UiImageTextureCache::new(0, 1);
    let mut m = metrics();
    cache.begin_frame();
    cache.sync_image("a", Some(&image([1, 1], 1)), &mut m);
    let (uploaded, evicted) = cache.sync_image("b", Some(&image([1, 1], 2)), &mut m);
    assert!(uploaded);
    assert!(evicted.is_empty());
    assert_eq!(cache.len(), 2);
    assert!(!cache.budget_exceeded());
}
