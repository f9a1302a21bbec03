//! Inspectable counts of a retained UI frame.

use vstd::prelude::*;

verus! {

/// Layout and interaction counts of one retained frame.
#[derive(Debug, Clone, Copy, PartialEq, Eq, Structural)]
pub struct UiSurfaceDiagnostics {
    pub layout_boxes: usize,
    pub interactive_regions: usize,
    pub focusable_regions: usize,
    pub text_requests: usize,
    pub image_regions: usize,
    pub overlay_regions: usize,
    pub clipped_boxes: usize,
    pub zero_sized_boxes: usize,
    pub max_z_index: i16,
}

impl UiSurfaceDiagnostics {
    /// Whether the frame holds a box of zero area, which is a layout error.
    pub fn has_layout_warnings(self) -> (warn: bool)
        ensures
            warn == (self.zero_sized_boxes > 0),
    {
        self.zero_sized_boxes > 0
    }
}

impl Default for UiSurfaceDiagnostics {
    fn default() -> (diagnostics: Self)
        ensures
            diagnostics == (UiSurfaceDiagnostics {
                layout_boxes: 0,
                interactive_regions: 0,
                focusable_regions: 0,
                text_requests: 0,
                image_regions: 0,
                overlay_regions: 0,
                clipped_boxes: 0,
                zero_sized_boxes: 0,
                max_z_index: 0,
            }),
    {
        UiSurfaceDiagnostics {
            layout_boxes: 0,
            interactive_regions: 0,
            focusable_regions: 0,
            text_requests: 0,
            image_regions: 0,
            overlay_regions: 0,
            clipped_boxes: 0,
            zero_sized_boxes: 0,
            max_z_index: 0,
        }
    }
}

} // verus!
