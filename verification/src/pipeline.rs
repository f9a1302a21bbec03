//! Pre-configured rendering pipelines.

use vstd::prelude::*;

verus! {

/// Pre-configured rendering pipelines: high-level shader and state setups
/// without low-level pipeline details.
#[derive(Debug, Clone, Copy, PartialEq, Eq, Structural)]
pub enum BasicPipelineKind {
    /// Solid rendering with basic flat shading.
    FlatColor,
    /// Wireframe rendering for grids, outlines, and bounds.
    UnlitWireframe,
    /// PBR rendering with lighting and materials.
    PbrLit,
    /// X-Ray style rendering that bypasses the depth test.
    XRay,
}

impl Default for BasicPipelineKind {
    fn default() -> (kind: Self)
        ensures
            kind == BasicPipelineKind::FlatColor,
    {
        BasicPipelineKind::FlatColor
    }
}

/// Weight of a grid line.
#[derive(Clone, Copy, Debug, PartialEq, Eq, Structural)]
pub enum GridLineKind {
    Minor,
    Major,
    Axis,
}

/// The schematic symbols that have native artwork.
#[derive(Debug, Clone, Copy, PartialEq, Eq, Structural)]
pub enum SchematicSymbolKind {
    Generic,
    Resistor,
    Capacitor,
    Led,
    Battery,
    Ground,
    Magnet,
}

} // verus!
