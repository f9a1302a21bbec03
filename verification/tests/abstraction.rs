use raf_render::abstraction::{ActiveBackend, RenderCapability, RenderError};

#[test]
fn default_is_cpu() {
    assert_eq!(ActiveBackend::default(), ActiveBackend::CpuPainter);
    assert!(!ActiveBackend::CpuPainter.requires_gpu());
}

#[test]
fn gpu_backends_require_gpu() {
    assert!(ActiveBackend::Wgpu.requires_gpu());
    assert!(ActiveBackend::HardwareRT.requires_gpu());
}

#[test]
fn every_backend_but_the_cpu_painter_requires_a_gpu() {
    let all = ActiveBackend::all();
    assert_eq!(all.len(), 4);
    assert_eq!(all[0], ActiveBackend::CpuPainter);
    assert_eq!(all[3], ActiveBackend::HardwareRT);
    for backend in all {
        assert_eq!(backend.requires_gpu(), *backend != ActiveBackend::CpuPainter);
    }
}

#[test]
fn backends_have_english_and_spanish_labels() {
    assert_eq!(ActiveBackend::CpuPainter.label(), "CPU Painter (Lightweight)");
    assert_eq!(ActiveBackend::CpuPainter.label_es(), "CPU Painter (Ligero)");
    assert_eq!(ActiveBackend::Wgpu.label(), "GPU (wgpu)");
    assert_eq!(ActiveBackend::Wgpu.label_es(), "GPU (wgpu)");
    assert_eq!(ActiveBackend::SoftwareRT.label(), "Software Ray Tracing");
    assert_eq!(ActiveBackend::HardwareRT.label_es(), "Trazado de rayos por hardware (RTX)");
}

#[test]
fn render_errors_describe_themselves() {
    assert_eq!(
        RenderError::GpuNotAvailable("no adapter".to_string()).message(),
        "GPU not available: no adapter"
    );
    assert_eq!(RenderError::ShaderError("line 3".to_string()).message(), "Shader error: line 3");
    assert_eq!(RenderError::OutOfMemory.message(), "Out of GPU memory");
    assert_eq!(RenderError::BackendError("lost".to_string()).message(), "Backend error: lost");
    assert_eq!(
        RenderError::Unsupported(RenderCapability::HardwareRayTracing).message(),
        "Unsupported capability: HardwareRayTracing"
    );
    assert_eq!(
        RenderCapability::Resolution4K.name(),
        format!("{:?}", RenderCapability::Resolution4K)
    );
}
