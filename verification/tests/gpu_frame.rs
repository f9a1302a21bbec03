use raf_render::ui_surface::gpu_renderer::{
    geometry_needs_rebuild, image_keys_to_sync, plan_paint_pass, UiPaintPassStep,
    UiSurfaceGpuGeometryKey, UiSurfacePaintKind, UiSurfacePaintRun,
};

#[test]
fn each_image_key_is_synced_once_per_frame() {
    let keys: Vec<String> = ["a", "b", "a", "c", "b"].iter().map(|k| k.to_string()).collect();
    assert_eq!(image_keys_to_sync(&keys), vec!["a", "b", "c"]);
    assert!(image_keys_to_sync(&[]).is_empty());
}

#[test]
fn geometry_is_reused_only_for_an_unchanged_key() {
    let key = UiSurfaceGpuGeometryKey::new(0x1000, 7, [160, 80], [320, 160]);
    assert_eq!(key.draw_list_identity, 0);
    let unrevised = UiSurfaceGpuGeometryKey::new(0x1000, 0, [160, 80], [320, 160]);
    assert_eq!(unrevised.draw_list_identity, 0x1000);
    assert!(geometry_needs_rebuild(None, key));
    assert!(!geometry_needs_rebuild(Some(key), key));
    assert!(geometry_needs_rebuild(Some(key), UiSurfaceGpuGeometryKey::new(0, 8, [160, 80], [320, 160])));
    assert!(geometry_needs_rebuild(Some(key), UiSurfaceGpuGeometryKey::new(0, 7, [160, 80], [321, 160])));
}

fn run(kind: UiSurfacePaintKind, start: u32, end: u32, scissor: (u32, u32, u32, u32)) -> UiSurfacePaintRun {
    UiSurfacePaintRun { kind, range: start..end, scissor }
}

#[test]
fn render_pass_sets_state_only_when_a_run_changes_it() {
    let full = (0, 0, 100, 50);
    let runs = vec![
        run(UiSurfacePaintKind::Solid, 0, 6, full),
        run(UiSurfacePaintKind::Image("x".to_string()), 0, 6, full),
        run(UiSurfacePaintKind::Image("x".to_string()), 6, 12, (10, 10, 5, 5)),
        run(UiSurfacePaintKind::Text, 0, 6, (10, 10, 5, 5)),
        run(UiSurfacePaintKind::Text, 6, 12, (10, 10, 5, 5)),
    ];
    let steps = plan_paint_pass(&runs, &[true, true, true, false, true], [4, 2]);
    assert_eq!(
        steps,
        vec![
            UiPaintPassStep::SetPipeline(0),
            UiPaintPassStep::SetScissor(4, 2, 100, 50),
            UiPaintPassStep::Draw(0),
            UiPaintPassStep::SetPipeline(1),
            UiPaintPassStep::Draw(1),
            UiPaintPassStep::SetScissor(14, 12, 5, 5),
            UiPaintPassStep::Draw(2),
            UiPaintPassStep::SetPipeline(4),
            UiPaintPassStep::Draw(4),
        ]
    );
}
