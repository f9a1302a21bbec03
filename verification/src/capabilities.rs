//! Backend-neutral capabilities.

use vstd::prelude::*;

verus! {

/// Identifies the implementation behind a graphics device.
#[derive(Debug, Clone, Copy, PartialEq, Eq, Structural)]
pub enum GraphicsBackendId {
    Wgpu,
    CpuSoftware,
    DirectX12,
    Vulkan,
    Metal,
}

/// Adapter features exposed without leaking a backend API into upper layers.
#[derive(Debug, Clone, Copy, PartialEq, Eq, Structural)]
pub struct GraphicsCapabilities {
    pub backend: GraphicsBackendId,
    pub gpu_hardware: bool,
    pub compute: bool,
    pub indirect_draw: bool,
    pub timestamp_queries: bool,
    pub max_texture_dimension: u32,
    pub max_buffer_size: u64,
}

impl GraphicsCapabilities {
    /// The software rasterizer: no GPU features, 16384-pixel textures, no GPU
    /// buffers.
    pub fn cpu() -> (capabilities: Self)
        ensures
            capabilities == (GraphicsCapabilities {
                backend: GraphicsBackendId::CpuSoftware,
                gpu_hardware: false,
                compute: false,
                indirect_draw: false,
                timestamp_queries: false,
                max_texture_dimension: 16_384,
                max_buffer_size: 0,
            }),
    {
        GraphicsCapabilities {
            backend: GraphicsBackendId::CpuSoftware,
            gpu_hardware: false,
            compute: false,
            indirect_draw: false,
            timestamp_queries: false,
            max_texture_dimension: 16_384,
            max_buffer_size: 0,
        }
    }

    /// A hardware adapter behind wgpu with the given limits.
    pub fn wgpu(max_texture_dimension: u32, max_buffer_size: u64) -> (capabilities: Self)
        ensures
            capabilities == (GraphicsCapabilities {
                backend: GraphicsBackendId::Wgpu,
                gpu_hardware: true,
                compute: true,
                indirect_draw: true,
                timestamp_queries: false,
                max_texture_dimension,
                max_buffer_size,
            }),
    {
        GraphicsCapabilities {
            backend: GraphicsBackendId::Wgpu,
            gpu_hardware: true,
            compute: true,
            indirect_draw: true,
            timestamp_queries: false,
            max_texture_dimension,
            max_buffer_size,
        }
    }
}

/// Adapter selection policy independent from any one backend API.
#[derive(Debug, Clone, Copy, PartialEq, Eq, Structural)]
pub enum GraphicsAdapterPreference {
    LowPower,
    HighPerformance,
}

impl Default for GraphicsAdapterPreference {
    fn default() -> (preference: Self)
        ensures
            preference == GraphicsAdapterPreference::LowPower,
    {
        GraphicsAdapterPreference::LowPower
    }
}

} // verus!
