use raf_render::ui_surface::compilation::UiSurfaceCompileMetrics;
use raf_render::ui_surface::cpu_renderer::{UiSurfaceCpuMetrics, UiSurfaceCpuRenderer};
use raf_render::ui_surface::diagnostics::UiSurfaceDiagnostics;
use raf_render::ui_surface::native_window::NativePresentMode;
use raf_render::ui_surface::quality::stable_pixel_hash;

#[test]
fn cpu_renderer_starts_empty_and_clears_to_the_requested_color() {
    let mut renderer = UiSurfaceCpuRenderer::new();
    assert_eq!(renderer.size(), [0, 0]);
    assert!(renderer.pixels().is_empty());
    renderer.clear([3, 0], [1, 2, 3, 4]);
    assert_eq!(renderer.size(), [3, 1]);
    assert_eq!(renderer.pixels(), &[1, 2, 3, 4, 1, 2, 3, 4, 1, 2, 3, 4]);
    renderer.clear([1, 1], [9, 9, 9, 255]);
    assert_eq!(renderer.pixels(), &[9, 9, 9, 255]);
    assert_eq!(UiSurfaceCpuMetrics::default().solid_pixels, 0);
}

#[test]
fn diagnostics_warn_only_for_zero_sized_boxes() {
    let mut diagnostics = UiSurfaceDiagnostics::default();
    diagnostics.layout_boxes = 2;
    diagnostics.interactive_regions = 1;
    assert!(!diagnostics.has_layout_warnings());
    diagnostics.zero_sized_boxes = 1;
    assert!(diagnostics.has_layout_warnings());
}

#[test]
fn pixel_hash_is_fnv1a() {
    assert_eq!(stable_pixel_hash(&[]), 0xcbf2_9ce4_8422_2325);
    assert_eq!(stable_pixel_hash(b"a"), 0xaf63_dc4c_8601_ec8c);
    assert_ne!(stable_pixel_hash(&[0, 0, 0, 255]), stable_pixel_hash(&[0, 0, 0, 254]));
}

#[test]
fn present_modes_have_diagnostic_labels() {
    assert_eq!(NativePresentMode::Vsync.label(), "VSync");
    assert_eq!(NativePresentMode::Immediate.label(), "Immediate");
    assert_eq!(NativePresentMode::Mailbox.label(), "Mailbox");
    assert_eq!(NativePresentMode::Other.label(), "Present");
    let metrics = UiSurfaceCompileMetrics::default();
    assert!(!metrics.layout_cache_hit && !metrics.paint_cache_hit);
    assert_eq!(metrics.layout_builds + metrics.paint_builds, 0);
}
