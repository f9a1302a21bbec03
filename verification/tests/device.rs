use raf_render::canvas_presenter::{CanvasTargetRect, EditorCompositorMetrics};
use raf_render::capabilities::{GraphicsAdapterPreference, GraphicsBackendId, GraphicsCapabilities};
use raf_render::device::{
    capture_cpu_scene, scene_readback_layout, unpad_scene_readback, BasicBackendType,
    SceneReadbackLayout,
};
use raf_render::pipeline::BasicPipelineKind;

#[test]
fn cpu_capabilities_are_gpu_neutral() {
    let cpu = GraphicsCapabilities::cpu();
    assert_eq!(cpu.backend, GraphicsBackendId::CpuSoftware);
    assert!(!cpu.gpu_hardware);
    assert_eq!(cpu.max_texture_dimension, 16_384);
    let gpu = GraphicsCapabilities::wgpu(8192, 1 << 30);
    assert_eq!(gpu.backend, GraphicsBackendId::Wgpu);
    assert!(gpu.compute && gpu.indirect_draw && !gpu.timestamp_queries);
    assert_eq!(gpu.max_buffer_size, 1 << 30);
    assert_eq!(GraphicsAdapterPreference::default(), GraphicsAdapterPreference::LowPower);
}

#[test]
fn backend_types_report_their_ids() {
    assert_eq!(BasicBackendType::GpuHardware.id(), GraphicsBackendId::Wgpu);
    assert_eq!(BasicBackendType::CpuSoftware.id(), GraphicsBackendId::CpuSoftware);
    assert_eq!(BasicPipelineKind::default(), BasicPipelineKind::FlatColor);
}

#[test]
fn canvas_rects_are_clipped_to_the_target() {
    let full = CanvasTargetRect::full([800, 600]);
    assert_eq!(full, CanvasTargetRect::new(0, 0, 800, 600));
    assert_eq!(full.clipped([800, 600]), full);
    assert_eq!(
        CanvasTargetRect::new(700, 500, 300, 300).clipped([800, 600]),
        CanvasTargetRect::new(700, 500, 100, 100)
    );
    assert_eq!(
        CanvasTargetRect::new(900, 10, 50, 50).clipped([800, 600]),
        CanvasTargetRect::new(800, 10, 0, 50)
    );
    assert_eq!(EditorCompositorMetrics::default().presents, 0);
}

#[test]
fn scene_readback_rows_are_padded_to_256_bytes() {
    assert_eq!(
        scene_readback_layout(3, 2),
        Ok(SceneReadbackLayout { unpadded_row: 12, padded_row: 256, buffer_size: 512 })
    );
    assert_eq!(
        scene_readback_layout(64, 1),
        Ok(SceneReadbackLayout { unpadded_row: 256, padded_row: 256, buffer_size: 256 })
    );
    assert_eq!(
        scene_readback_layout(0, 2),
        Err("The GPU scene target has no rendered pixels.".to_string())
    );
    assert_eq!(
        scene_readback_layout(u32::MAX / 4 + 1, 1),
        Err("The GPU scene row size overflowed.".to_string())
    );
    assert_eq!(
        scene_readback_layout(u32::MAX / 4, 1),
        Err("The GPU scene row alignment overflowed.".to_string())
    );
}

#[test]
fn scene_readback_drops_row_padding() {
    let layout = scene_readback_layout(2, 2).unwrap();
    let mut mapped = vec![0u8; 512];
    for i in 0..8 {
        mapped[i] = i as u8 + 1;
        mapped[256 + i] = i as u8 + 11;
    }
    let capture = unpad_scene_readback(&mapped, layout, 2, 2).unwrap();
    assert_eq!((capture.width, capture.height), (2, 2));
    assert_eq!(capture.rgba8, vec![1, 2, 3, 4, 5, 6, 7, 8, 11, 12, 13, 14, 15, 16, 17, 18]);
    assert_eq!(
        unpad_scene_readback(&mapped[..300], layout, 2, 2),
        Err("The GPU scene readback returned an invalid RGBA8 length.".to_string())
    );
}

#[test]
fn cpu_scene_capture_checks_the_framebuffer_length() {
    let capture = capture_cpu_scene(1, 2, vec![9; 8]).unwrap();
    assert_eq!(capture.rgba8, vec![9; 8]);
    assert_eq!(
        capture_cpu_scene(0, 2, Vec::new()),
        Err("The CPU scene framebuffer has no rendered pixels.".to_string())
    );
    assert_eq!(
        capture_cpu_scene(2, 2, vec![0; 15]),
        Err("The CPU scene framebuffer has an invalid RGBA8 length.".to_string())
    );
}

#[test]
fn cpu_scene_capture_returns_the_rendered_rgba_pixels() {
    // A 2 × 1 frame cleared to [12, 34, 56, 255], as the CPU backend renders it.
    let pixels = vec![12, 34, 56, 255, 12, 34, 56, 255];
    let capture = capture_cpu_scene(2, 1, pixels.clone())
        .expect("rendered CPU frame should be capturable");
    assert_eq!((capture.width, capture.height), (2, 1));
    assert_eq!(capture.rgba8, pixels);
    assert_eq!(capture.rgba8.len(), 8);
    assert_eq!(&capture.rgba8[..4], &[12, 34, 56, 255]);
}
