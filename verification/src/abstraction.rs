//! Render abstraction layer: which backend renders, what a backend can do,
//! and how it fails.

use vstd::prelude::*;

verus! {

/// Capabilities that a render backend may or may not support.
#[derive(Debug, Clone, Copy, PartialEq, Eq, Structural, Hash)]
pub enum RenderCapability {
    /// Basic filled mesh rendering.
    FilledMeshes,
    /// Wireframe overlay.
    Wireframe,
    /// Flat shading with directional light.
    FlatShading,
    /// Per-pixel (smooth) shading.
    SmoothShading,
    /// PBR materials (metallic/roughness).
    PbrMaterials,
    /// Normal mapping.
    NormalMaps,
    /// Texture mapping (UV coordinates).
    TextureMapping,
    /// Shadow mapping (directional/point lights).
    ShadowMapping,
    /// Shadow cascades (for large worlds).
    ShadowCascades,
    /// Screen-space ambient occlusion.
    Ssao,
    /// Bloom post-processing.
    Bloom,
    /// Anti-aliasing (FXAA).
    Fxaa,
    /// Anti-aliasing (MSAA).
    Msaa,
    /// GPU-based vertex deformation (cloth, hair, vegetation).
    GpuDeformation,
    /// Compute shaders.
    ComputeShaders,
    /// Software ray tracing (CPU or compute shader).
    SoftwareRayTracing,
    /// Hardware ray tracing (RTX/DXR).
    HardwareRayTracing,
    /// Global illumination (any method).
    GlobalIllumination,
    /// HDR rendering.
    Hdr,
    /// 4K resolution support.
    Resolution4K,
    /// Instanced rendering (draw many copies efficiently).
    Instancing,
    /// Indirect draw (GPU-driven rendering).
    IndirectDraw,
}

impl RenderCapability {
    pub open spec fn name_spec(self) -> Seq<char> {
        match self {
            RenderCapability::FilledMeshes => "FilledMeshes"@,
            RenderCapability::Wireframe => "Wireframe"@,
            RenderCapability::FlatShading => "FlatShading"@,
            RenderCapability::SmoothShading => "SmoothShading"@,
            RenderCapability::PbrMaterials => "PbrMaterials"@,
            RenderCapability::NormalMaps => "NormalMaps"@,
            RenderCapability::TextureMapping => "TextureMapping"@,
            RenderCapability::ShadowMapping => "ShadowMapping"@,
            RenderCapability::ShadowCascades => "ShadowCascades"@,
            RenderCapability::Ssao => "Ssao"@,
            RenderCapability::Bloom => "Bloom"@,
            RenderCapability::Fxaa => "Fxaa"@,
            RenderCapability::Msaa => "Msaa"@,
            RenderCapability::GpuDeformation => "GpuDeformation"@,
            RenderCapability::ComputeShaders => "ComputeShaders"@,
            RenderCapability::SoftwareRayTracing => "SoftwareRayTracing"@,
            RenderCapability::HardwareRayTracing => "HardwareRayTracing"@,
            RenderCapability::GlobalIllumination => "GlobalIllumination"@,
            RenderCapability::Hdr => "Hdr"@,
            RenderCapability::Resolution4K => "Resolution4K"@,
            RenderCapability::Instancing => "Instancing"@,
            RenderCapability::IndirectDraw => "IndirectDraw"@,
        }
    }

    /// The variant's name, as its debug form prints it.
    pub fn name(self) -> (name: &'static str)
        ensures
            name@ == self.name_spec(),
    {
        match self {
            RenderCapability::FilledMeshes => "FilledMeshes",
            RenderCapability::Wireframe => "Wireframe",
            RenderCapability::FlatShading => "FlatShading",
            RenderCapability::SmoothShading => "SmoothShading",
            RenderCapability::PbrMaterials => "PbrMaterials",
            RenderCapability::NormalMaps => "NormalMaps",
            RenderCapability::TextureMapping => "TextureMapping",
            RenderCapability::ShadowMapping => "ShadowMapping",
            RenderCapability::ShadowCascades => "ShadowCascades",
            RenderCapability::Ssao => "Ssao",
            RenderCapability::Bloom => "Bloom",
            RenderCapability::Fxaa => "Fxaa",
            RenderCapability::Msaa => "Msaa",
            RenderCapability::GpuDeformation => "GpuDeformation",
            RenderCapability::ComputeShaders => "ComputeShaders",
            RenderCapability::SoftwareRayTracing => "SoftwareRayTracing",
            RenderCapability::HardwareRayTracing => "HardwareRayTracing",
            RenderCapability::GlobalIllumination => "GlobalIllumination",
            RenderCapability::Hdr => "Hdr",
            RenderCapability::Resolution4K => "Resolution4K",
            RenderCapability::Instancing => "Instancing",
            RenderCapability::IndirectDraw => "IndirectDraw",
        }
    }
}

/// Errors that can occur during rendering backend operations.
#[derive(Debug, Clone)]
pub enum RenderError {
    /// GPU not available or not supported.
    GpuNotAvailable(String),
    /// Shader compilation failed.
    ShaderError(String),
    /// Out of VRAM.
    OutOfMemory,
    /// Backend-specific error.
    BackendError(String),
    /// Feature not supported by this backend.
    Unsupported(RenderCapability),
}

impl RenderError {
    pub open spec fn message_spec(&self) -> Seq<char> {
        match self {
            RenderError::GpuNotAvailable(msg) => "GPU not available: "@ + msg@,
            RenderError::ShaderError(msg) => "Shader error: "@ + msg@,
            RenderError::OutOfMemory => "Out of GPU memory"@,
            RenderError::BackendError(msg) => "Backend error: "@ + msg@,
            RenderError::Unsupported(cap) => "Unsupported capability: "@ + cap.name_spec(),
        }
    }

    /// The human-readable description of the error.
    pub fn message(&self) -> (message: String)
        ensures
            message@ == self.message_spec(),
    {
        match self {
            RenderError::GpuNotAvailable(msg) => String::from_str("GPU not available: ").concat(msg.as_str()),
            RenderError::ShaderError(msg) => String::from_str("Shader error: ").concat(msg.as_str()),
            RenderError::OutOfMemory => String::from_str("Out of GPU memory"),
            RenderError::BackendError(msg) => String::from_str("Backend error: ").concat(msg.as_str()),
            RenderError::Unsupported(cap) => String::from_str("Unsupported capability: ").concat(cap.name()),
        }
    }
}

/// Which backend implementation to use; the user-facing selector.
#[derive(Debug, Clone, Copy, PartialEq, Eq, Structural)]
pub enum ActiveBackend {
    /// CPU painter (default, zero GPU, potato-friendly).
    CpuPainter,
    /// GPU rendering via wgpu (opt-in, requires GPU).
    Wgpu,
    /// Software ray tracing (CPU-heavy).
    SoftwareRT,
    /// Hardware ray tracing via Vulkan RT / DXR (requires RTX).
    HardwareRT,
}

impl Default for ActiveBackend {
    fn default() -> (backend: Self)
        ensures
            backend == ActiveBackend::CpuPainter,
    {
        ActiveBackend::CpuPainter
    }
}

impl ActiveBackend {
    pub open spec fn label_spec(self) -> Seq<char> {
        match self {
            ActiveBackend::CpuPainter => "CPU Painter (Lightweight)"@,
            ActiveBackend::Wgpu => "GPU (wgpu)"@,
            ActiveBackend::SoftwareRT => "Software Ray Tracing"@,
            ActiveBackend::HardwareRT => "Hardware Ray Tracing (RTX)"@,
        }
    }

    pub open spec fn label_es_spec(self) -> Seq<char> {
        match self {
            ActiveBackend::CpuPainter => "CPU Painter (Ligero)"@,
            ActiveBackend::Wgpu => "GPU (wgpu)"@,
            ActiveBackend::SoftwareRT => "Trazado de rayos por software"@,
            ActiveBackend::HardwareRT => "Trazado de rayos por hardware (RTX)"@,
        }
    }

    /// Display label.
    pub fn label(&self) -> (label: &'static str)
        ensures
            label@ == self.label_spec(),
    {
        match self {
            ActiveBackend::CpuPainter => "CPU Painter (Lightweight)",
            ActiveBackend::Wgpu => "GPU (wgpu)",
            ActiveBackend::SoftwareRT => "Software Ray Tracing",
            ActiveBackend::HardwareRT => "Hardware Ray Tracing (RTX)",
        }
    }

    /// Spanish label.
    pub fn label_es(&self) -> (label: &'static str)
        ensures
            label@ == self.label_es_spec(),
    {
        match self {
            ActiveBackend::CpuPainter => "CPU Painter (Ligero)",
            ActiveBackend::Wgpu => "GPU (wgpu)",
            ActiveBackend::SoftwareRT => "Trazado de rayos por software",
            ActiveBackend::HardwareRT => "Trazado de rayos por hardware (RTX)",
        }
    }

    /// Whether this backend requires a GPU: every backend but the CPU
    /// painter does.
    pub fn requires_gpu(&self) -> (gpu: bool)
        ensures
            gpu == (*self != ActiveBackend::CpuPainter),
    {
        !matches!(self, ActiveBackend::CpuPainter)
    }

    /// All available backends, in selector order.
    pub fn all() -> (backends: &'static [ActiveBackend])
        ensures
            backends@ == seq![
                ActiveBackend::CpuPainter,
                ActiveBackend::Wgpu,
                ActiveBackend::SoftwareRT,
                ActiveBackend::HardwareRT,
            ],
    {
        &[
            ActiveBackend::CpuPainter,
            ActiveBackend::Wgpu,
            ActiveBackend::SoftwareRT,
            ActiveBackend::HardwareRT,
        ]
    }
}

} // verus!
