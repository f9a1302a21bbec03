//! Software compositor target for retained UI surfaces: the straight-alpha
//! RGBA framebuffer the recovery path paints into, and its counters.

use vstd::prelude::*;

verus! {

/// Pixels written by the software compositor in one frame, by primitive.
#[derive(Debug, Clone, Copy, PartialEq, Eq, Structural)]
pub struct UiSurfaceCpuMetrics {
    pub solid_pixels: u64,
    pub stroke_pixels: u64,
    pub text_pixels: u64,
    pub image_pixels: u64,
    /// Pixels written by translucent solid quads.
    pub translucent_solid_pixels: u64,
}

impl UiSurfaceCpuMetrics {
    pub open spec fn is_zero(self) -> bool {
        &&& self.solid_pixels == 0
        &&& self.stroke_pixels == 0
        &&& self.text_pixels == 0
        &&& self.image_pixels == 0
        &&& self.translucent_solid_pixels == 0
    }
}

impl Default for UiSurfaceCpuMetrics {
    fn default() -> (metrics: Self)
        ensures
            metrics.is_zero(),
    {
        UiSurfaceCpuMetrics {
            solid_pixels: 0,
            stroke_pixels: 0,
            text_pixels: 0,
            image_pixels: 0,
            translucent_solid_pixels: 0,
        }
    }
}

/// Reusable straight-alpha RGBA framebuffer of the software compositor.
#[derive(Debug)]
pub struct UiSurfaceCpuRenderer {
    pixels: Vec<u8>,
    size: [u32; 2],
}

/// `a.max(1)`.
pub open spec fn side(a: u32) -> int {
    if a == 0 {
        1
    } else {
        a as int
    }
}

impl UiSurfaceCpuRenderer {
    pub closed spec fn size_spec(&self) -> [u32; 2] {
        self.size
    }

    pub closed spec fn pixels_spec(&self) -> Seq<u8> {
        self.pixels@
    }

    /// An empty framebuffer of size 0 × 0.
    pub fn new() -> (renderer: Self)
        ensures
            renderer.size_spec() == [0u32, 0u32],
            renderer.pixels_spec() == Seq::<u8>::empty(),
    {
        UiSurfaceCpuRenderer { pixels: Vec::new(), size: [0, 0] }
    }

    /// Size of the last frame, in pixels.
    pub fn size(&self) -> (size: [u32; 2])
        ensures
            size == self.size_spec(),
    {
        self.size
    }

    /// The RGBA bytes of the last frame, row by row.
    pub fn pixels(&self) -> (pixels: &[u8])
        ensures
            pixels@ == self.pixels_spec(),
    {
        self.pixels.as_slice()
    }

    /// Starts a frame: sizes the framebuffer to `size` (a zero side counts
    /// as one) and fills every pixel with `clear_color`.
    pub fn clear(&mut self, size: [u32; 2], clear_color: [u8; 4])
        requires
            side(size[0]) * side(size[1]) * 4 <= usize::MAX,
        ensures
            final(self).size_spec() == [side(size[0]) as u32, side(size[1]) as u32],
            final(self).pixels_spec().len() == side(size[0]) * side(size[1]) * 4,
            forall|i: int|
                0 <= i < final(self).pixels_spec().len() ==> #[trigger] final(self).pixels_spec()[i]
                    == clear_color[i % 4],
    {
        let width: u32 = if size[0] == 0 {
            1
        } else {
            size[0]
        };
        let height: u32 = if size[1] == 0 {
            1
        } else {
            size[1]
        };
        let count: usize = width as usize * height as usize;
        self.size = [width, height];
        self.pixels.clear();
        let mut p: usize = 0;
        while p < count
            invariant
                count == side(size[0]) * side(size[1]),
                count * 4 <= usize::MAX,
                self.size == [width, height],
                width == side(size[0]),
                height == side(size[1]),
                0 <= p <= count,
                self.pixels@.len() == p * 4,
                forall|i: int| 0 <= i < p * 4 ==> #[trigger] self.pixels@[i] == clear_color[i % 4],
            decreases count - p,
        {
            self.pixels.push(clear_color[0]);
            self.pixels.push(clear_color[1]);
            self.pixels.push(clear_color[2]);
            self.pixels.push(clear_color[3]);
            proof {
                assert forall|i: int| 0 <= i < (p + 1) * 4 implies #[trigger] self.pixels@[i]
                    == clear_color[i % 4] by {
                    if i >= p * 4 {
                        assert(i % 4 == i - p * 4) by (nonlinear_arith)
                            requires
                                p * 4 <= i < p * 4 + 4,
                        ;
                    }
                }
            }
            p = p + 1;
        }
    }
}

impl Default for UiSurfaceCpuRenderer {
    fn default() -> (renderer: Self)
        ensures
            renderer.size_spec() == [0u32, 0u32],
            renderer.pixels_spec() == Seq::<u8>::empty(),
    {
        UiSurfaceCpuRenderer::new()
    }
}

} // verus!
