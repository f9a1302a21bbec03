//! Records of the headless visual quality matrix.

use vstd::prelude::*;

use crate::ui_surface::diagnostics::UiSurfaceDiagnostics;
use crate::ui_surface::text_atlas::{fnv1a, fnv1a_bytes};

verus! {

/// One density point of the quality matrix: the frame rendered by the
/// software compositor at `scale_percent`, with a stable hash of its pixels.
#[derive(Debug, Clone, Copy, PartialEq, Eq)]
pub struct UiSurfaceQualitySample {
    pub scale_percent: u16,
    pub logical_size: [u32; 2],
    pub physical_size: [u32; 2],
    pub pixel_hash: u64,
    pub pixel_count: usize,
    pub atlas_revision: u64,
    pub diagnostics: UiSurfaceDiagnostics,
}

/// Hash of a framebuffer that is the same on every run and machine
/// (FNV-1a over its bytes).
pub fn stable_pixel_hash(pixels: &[u8]) -> (hash: u64)
    ensures
        hash == fnv1a(pixels@),
{
    fnv1a_bytes(pixels)
}

} // verus!
