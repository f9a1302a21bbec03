use raf_render::ui_surface::gpu_renderer::{
    coalesce_paint_runs, push_paint_run, UiSurfacePaintKind, UiSurfacePaintRun,
};

fn run(kind: UiSurfacePaintKind, start: u32, end: u32, scissor: (u32, u32, u32, u32)) -> UiSurfacePaintRun {
    UiSurfacePaintRun { kind, range: start..end, scissor }
}

fn shape(runs: &[UiSurfacePaintRun]) -> Vec<(u32, u32, (u32, u32, u32, u32))> {
    runs.iter().map(|r| (r.range.start, r.range.end, r.scissor)).collect()
}

#[test]
fn adjacent_runs_with_one_pipeline_and_scissor_merge() {
    let full = (0, 0, 100, 100);
    let runs = coalesce_paint_runs(vec![
        run(UiSurfacePaintKind::Solid, 0, 6, full),
        run(UiSurfacePaintKind::Solid, 6, 12, full),
        run(UiSurfacePaintKind::Text, 0, 6, full),
        run(UiSurfacePaintKind::Text, 6, 12, (0, 0, 50, 50)),
        run(UiSurfacePaintKind::Solid, 12, 18, full),
    ]);
    assert_eq!(
        shape(&runs),
        vec![(0, 12, full), (0, 6, full), (6, 12, (0, 0, 50, 50)), (12, 18, full)]
    );
    assert!(matches!(runs[0].kind, UiSurfacePaintKind::Solid));
    assert!(matches!(runs[1].kind, UiSurfacePaintKind::Text));
    // The vertex total is kept: 12 + 6 + 6 + 6 == 30.
    let total: u32 = runs.iter().map(|r| r.range.end - r.range.start).sum();
    assert_eq!(total, 30);
}

#[test]
fn empty_and_non_contiguous_runs_do_not_merge() {
    let full = (0, 0, 8, 8);
    let runs = coalesce_paint_runs(vec![
        run(UiSurfacePaintKind::Stroke, 0, 6, full),
        run(UiSurfacePaintKind::Stroke, 6, 6, full),
        run(UiSurfacePaintKind::Stroke, 7, 9, full),
    ]);
    assert_eq!(shape(&runs), vec![(0, 6, full), (7, 9, full)]);
}

#[test]
fn image_runs_merge_only_for_the_same_texture() {
    let full = (0, 0, 8, 8);
    let mut runs = Vec::new();
    push_paint_run(&mut runs, run(UiSurfacePaintKind::Image("a".to_string()), 0, 6, full));
    push_paint_run(&mut runs, run(UiSurfacePaintKind::Image("a".to_string()), 6, 12, full));
    push_paint_run(&mut runs, run(UiSurfacePaintKind::Image("b".to_string()), 12, 18, full));
    assert_eq!(shape(&runs), vec![(0, 12, full), (12, 18, full)]);
    assert!(matches!(&runs[1].kind, UiSurfacePaintKind::Image(key) if key == "b"));
    assert!(UiSurfacePaintKind::Image("a".to_string()).same_pipeline(&UiSurfacePaintKind::Image("a".to_string())));
    assert!(!UiSurfacePaintKind::Image("a".to_string()).same_pipeline(&UiSurfacePaintKind::Solid));
}

#[test]
fn adjacent_compatible_paint_commands_merge_into_one_gpu_draw() {
    // Two solid quads of six vertices each under the full 160 × 80 target.
    let target = (0, 0, 160, 80);
    let runs = coalesce_paint_runs(vec![
        run(UiSurfacePaintKind::Solid, 0, 6, target),
        run(UiSurfacePaintKind::Solid, 6, 12, target),
    ]);
    assert_eq!(runs.len(), 1);
    assert_eq!(runs[0].range, 0..12);
}
