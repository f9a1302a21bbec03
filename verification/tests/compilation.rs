use raf_render::ui_surface::compilation::UiSurfaceCompilationCache;

#[test]
fn an_unchanged_surface_reuses_layout_and_paint() {
    let mut cache = UiSurfaceCompilationCache::new();
    assert!(cache.begin_layout(false));
    let texts = vec!["label".to_string()];
    assert!(!cache.paint_hit(0, &texts));
    cache.store_paint(0, texts.clone());

    assert!(!cache.begin_layout(true));
    assert!(cache.paint_hit(0, &texts));
    let metrics = cache.metrics();
    assert!(metrics.layout_cache_hit);
    assert!(metrics.paint_cache_hit);
    assert_eq!(metrics.layout_builds, 1);
    assert_eq!(metrics.paint_builds, 1);
}

#[test]
fn a_changed_layout_key_rebuilds_the_layout_and_its_paint() {
    let mut cache = UiSurfaceCompilationCache::new();
    assert!(cache.begin_layout(false));
    let texts = vec!["title".to_string()];
    cache.store_paint(3, texts.clone());
    assert!(cache.begin_layout(false));
    assert!(!cache.metrics().layout_cache_hit);
    assert!(!cache.paint_hit(3, &texts));
    assert_eq!(cache.metrics().layout_builds, 2);
}

#[test]
fn a_new_atlas_revision_or_new_text_rebuilds_the_paint() {
    let mut cache = UiSurfaceCompilationCache::new();
    assert!(cache.begin_layout(false));
    cache.store_paint(1, vec!["a".to_string(), "b".to_string()]);
    assert!(!cache.begin_layout(true));
    assert!(!cache.paint_hit(2, &["a".to_string(), "b".to_string()]));
    assert!(!cache.paint_hit(1, &["a".to_string(), "c".to_string()]));
    assert!(!cache.paint_hit(1, &["a".to_string()]));
    assert!(cache.paint_hit(1, &["a".to_string(), "b".to_string()]));
    assert!(cache.metrics().paint_cache_hit);
}

#[test]
fn invalidation_rebuilds_even_when_the_key_matches() {
    let mut cache = UiSurfaceCompilationCache::new();
    assert!(cache.begin_layout(false));
    cache.store_paint(0, Vec::new());
    cache.invalidate();
    assert!(cache.begin_layout(true));
    assert!(!cache.paint_hit(0, &[]));
    assert_eq!(cache.metrics().layout_builds, 2);
}
