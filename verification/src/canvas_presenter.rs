//! Placement of presented canvases inside a target.

use vstd::prelude::*;

verus! {

/// A rectangle of target pixels.
#[derive(Debug, Clone, Copy, PartialEq, Eq, Structural)]
pub struct CanvasTargetRect {
    pub x: u32,
    pub y: u32,
    pub width: u32,
    pub height: u32,
}

pub open spec fn min_u32(a: u32, b: u32) -> u32 {
    if a <= b {
        a
    } else {
        b
    }
}

impl CanvasTargetRect {
    pub fn new(x: u32, y: u32, width: u32, height: u32) -> (rect: Self)
        ensures
            rect == (CanvasTargetRect { x, y, width, height }),
    {
        CanvasTargetRect { x, y, width, height }
    }

    /// The whole of a target of the given size.
    pub fn full(size: [u32; 2]) -> (rect: Self)
        ensures
            rect == (CanvasTargetRect { x: 0, y: 0, width: size[0], height: size[1] }),
    {
        Self::new(0, 0, size[0], size[1])
    }

    /// The part of the rectangle that lies inside a target of the given size:
    /// the origin is pulled inside and the extent cut at the target's edge.
    pub fn clipped(self, target_size: [u32; 2]) -> (rect: Self)
        ensures
            rect.x == min_u32(self.x, target_size[0]),
            rect.y == min_u32(self.y, target_size[1]),
            rect.width == min_u32(self.width, (target_size[0] - rect.x) as u32),
            rect.height == min_u32(self.height, (target_size[1] - rect.y) as u32),
            rect.x + rect.width <= target_size[0],
            rect.y + rect.height <= target_size[1],
    {
        let x = self.x.min(target_size[0]);
        let y = self.y.min(target_size[1]);
        CanvasTargetRect {
            x,
            y,
            width: self.width.min(target_size[0].saturating_sub(x)),
            height: self.height.min(target_size[1].saturating_sub(y)),
        }
    }
}

/// Counters of one composed editor frame.
#[derive(Debug, Clone, Copy, PartialEq, Eq, Structural)]
pub struct EditorCompositorMetrics {
    pub command_submits: u32,
    pub canvas_layers: u32,
    pub ui_layers: u32,
    pub presents: u32,
}

impl Default for EditorCompositorMetrics {
    fn default() -> (metrics: Self)
        ensures
            metrics == (EditorCompositorMetrics {
                command_submits: 0,
                canvas_layers: 0,
                ui_layers: 0,
                presents: 0,
            }),
    {
        EditorCompositorMetrics { command_submits: 0, canvas_layers: 0, ui_layers: 0, presents: 0 }
    }
}

} // verus!
