//! Execution backends of a graphics device and captured frames.

use vstd::prelude::*;

use crate::capabilities::GraphicsBackendId;

verus! {

/// Supported execution backends.
#[derive(Debug, Clone, Copy, PartialEq, Eq, Structural)]
pub enum BasicBackendType {
    /// GPU hardware rendering.
    GpuHardware,
    /// CPU recovery/software rendering.
    CpuSoftware,
}

impl BasicBackendType {
    /// The backend identifier this execution backend reports.
    pub fn id(self) -> (id: GraphicsBackendId)
        ensures
            id == (match self {
                BasicBackendType::GpuHardware => GraphicsBackendId::Wgpu,
                BasicBackendType::CpuSoftware => GraphicsBackendId::CpuSoftware,
            }),
    {
        match self {
            BasicBackendType::GpuHardware => GraphicsBackendId::Wgpu,
            BasicBackendType::CpuSoftware => GraphicsBackendId::CpuSoftware,
        }
    }
}

/// A compact RGBA8 snapshot of the last rendered scene frame, whichever
/// backend produced it.
#[derive(Debug, Clone, PartialEq, Eq)]
pub struct SceneFrameCapture {
    pub width: u32,
    pub height: u32,
    pub rgba8: Vec<u8>,
}

/// Row layout of a GPU-to-CPU copy of a scene frame: tight RGBA rows of
/// `unpadded_row` bytes, each stored in `padded_row` bytes (a multiple of
/// 256), `buffer_size` bytes in all.
#[derive(Debug, Clone, Copy, PartialEq, Eq, Structural)]
pub struct SceneReadbackLayout {
    pub unpadded_row: u32,
    pub padded_row: u32,
    pub buffer_size: u64,
}

/// The row layout of a readback of a `width` × `height` frame, when every
/// size fits its type.
pub open spec fn readback_layout(width: u32, height: u32) -> SceneReadbackLayout {
    let unpadded = width * 4;
    let padded = (unpadded + 255) / 256 * 256;
    SceneReadbackLayout {
        unpadded_row: unpadded as u32,
        padded_row: padded as u32,
        buffer_size: (padded * height) as u64,
    }
}

/// Lays out the readback of a rendered `width` × `height` scene frame.
/// An empty frame and row sizes that do not fit in 32 bits are refused.
pub fn scene_readback_layout(width: u32, height: u32) -> (layout: Result<SceneReadbackLayout, String>)
    ensures
        width == 0 || height == 0 ==> (layout matches Err(e) && e@ == "The GPU scene target has no rendered pixels."@),
        width > 0 && height > 0 && width * 4 > u32::MAX ==> (layout matches Err(e) && e@ == "The GPU scene row size overflowed."@),
        width > 0 && height > 0 && width * 4 <= u32::MAX && width * 4 + 255 > u32::MAX
            ==> (layout matches Err(e) && e@ == "The GPU scene row alignment overflowed."@),
        width > 0 && height > 0 && width * 4 + 255 <= u32::MAX ==> layout == Ok::<
            SceneReadbackLayout,
            String,
        >(readback_layout(width, height)),
{
    if width == 0 || height == 0 {
        return Err("The GPU scene target has no rendered pixels.".to_owned());
    }
    let unpadded_row: u32 = match width.checked_mul(4) {
        Some(row) => row,
        None => {
            return Err("The GPU scene row size overflowed.".to_owned());
        },
    };
    let padded_row: u32 = match unpadded_row.checked_add(255) {
        Some(row) => row / 256 * 256,
        None => {
            return Err("The GPU scene row alignment overflowed.".to_owned());
        },
    };
    assert((padded_row as int) * (height as int) <= 0xffff_ffff * 0xffff_ffff) by (nonlinear_arith)
        requires
            padded_row <= 0xffff_ffff,
            height <= 0xffff_ffff,
    ;
    let buffer_size: u64 = (padded_row as u64) * (height as u64);
    Ok(SceneReadbackLayout { unpadded_row, padded_row, buffer_size })
}

/// Byte `i` of the tight frame read back through rows of `padded` bytes,
/// each holding `row` bytes of pixels first.
pub open spec fn unpadded_byte(mapped: Seq<u8>, row: int, padded: int, i: int) -> u8 {
    mapped[(i / row) * padded + i % row]
}

/// Copies the pixel rows out of a mapped readback buffer laid out by
/// `scene_readback_layout`. The buffer must hold every row; otherwise the
/// frame is refused.
pub fn unpad_scene_readback(
    mapped: &[u8],
    layout: SceneReadbackLayout,
    width: u32,
    height: u32,
) -> (capture: Result<SceneFrameCapture, String>)
    requires
        width > 0,
        height > 0,
        width * 4 + 255 <= u32::MAX,
        layout == readback_layout(width, height),
    ensures
        layout.unpadded_row * height > usize::MAX ==> (capture matches Err(e) && e@ == "The GPU scene output size overflowed."@),
        layout.unpadded_row * height <= usize::MAX && (mapped@.len() as int) / (layout.padded_row as int)
            < height ==> (capture matches Err(e) && e@ == "The GPU scene readback returned an invalid RGBA8 length."@),
        layout.unpadded_row * height <= usize::MAX && (mapped@.len() as int) / (layout.padded_row as int)
            >= height ==> (capture matches Ok(frame) && frame.width == width && frame.height
            == height && frame.rgba8@.len() == layout.unpadded_row * height && forall|i: int|
            0 <= i < frame.rgba8@.len() ==> #[trigger] frame.rgba8@[i] == unpadded_byte(
                mapped@,
                layout.unpadded_row as int,
                layout.padded_row as int,
                i,
            )),
{
    let row: usize = layout.unpadded_row as usize;
    let padded: usize = layout.padded_row as usize;
    let rows: usize = height as usize;
    let total: usize = mapped.len();
    assert(row > 0 && padded >= row) by (nonlinear_arith)
        requires
            row == width * 4,
            width > 0,
            padded == (row + 255) / 256 * 256,
    ;
    let output_len: usize = match row.checked_mul(rows) {
        Some(len) => len,
        None => {
            return Err("The GPU scene output size overflowed.".to_owned());
        },
    };
    let mut rgba8: Vec<u8> = Vec::new();
    let mut r: usize = 0;
    while r < rows
        invariant
            row == layout.unpadded_row,
            padded == layout.padded_row,
            rows == height,
            total == mapped@.len(),
            0 < row <= padded,
            output_len == row * rows,
            r <= rows,
            r * padded <= total || r == 0,
            r <= total / padded,
            rgba8@.len() == r * row,
            forall|i: int| 0 <= i < rgba8@.len() ==> #[trigger] rgba8@[i] == unpadded_byte(
                mapped@,
                row as int,
                padded as int,
                i,
            ),
        ensures
            r == rows || total / padded <= r,
            r <= total / padded,
            rgba8@.len() == r * row,
            forall|i: int| 0 <= i < rgba8@.len() ==> #[trigger] rgba8@[i] == unpadded_byte(
                mapped@,
                row as int,
                padded as int,
                i,
            ),
        decreases rows - r,
    {
        if total / padded <= r {
            break;
        }
        assert((r + 1) * padded <= total) by (nonlinear_arith)
            requires
                r < total / padded,
                padded > 0,
        ;
        let start: usize = r * padded;
        let mut c: usize = 0;
        while c < row
            invariant
                0 < row <= padded,
                start == r * padded,
                (r + 1) * padded <= total,
                total == mapped@.len(),
                c <= row,
                rgba8@.len() == r * row + c,
                forall|i: int| 0 <= i < rgba8@.len() ==> #[trigger] rgba8@[i] == unpadded_byte(
                    mapped@,
                    row as int,
                    padded as int,
                    i,
                ),
            decreases row - c,
        {
            proof {
                let i = r * row + c;
                assert(i / (row as int) == r && i % (row as int) == c) by (nonlinear_arith)
                    requires
                        i == r * row + c,
                        c < row,
                        0 <= c,
                        0 <= r,
                ;
                assert(start + c < total) by (nonlinear_arith)
                    requires
                        start == r * padded,
                        c < row,
                        row <= padded,
                        (r + 1) * padded <= total,
                ;
            }
            rgba8.push(mapped[start + c]);
            c += 1;
        }
        assert((r + 1) * row == r * row + row) by (nonlinear_arith);
        r += 1;
    }
    if rgba8.len() != output_len {
        proof {
            if total / padded >= rows {
                assert(r == rows);
            }
        }
        return Err("The GPU scene readback returned an invalid RGBA8 length.".to_owned());
    }
    proof {
        if total / padded < rows {
            assert(r <= total / padded);
            assert(r * row < rows * row) by (nonlinear_arith)
                requires
                    r < rows,
                    row > 0,
            ;
        }
    }
    Ok(SceneFrameCapture { width, height, rgba8 })
}

/// Snapshots the software framebuffer of a `width` × `height` scene frame.
/// An empty frame, a size that does not fit in memory and pixels that are
/// not exactly `width × height × 4` bytes are refused.
pub fn capture_cpu_scene(width: u32, height: u32, pixels: Vec<u8>) -> (capture: Result<
    SceneFrameCapture,
    String,
>)
    ensures
        width == 0 || height == 0 ==> (capture matches Err(e) && e@ == "The CPU scene framebuffer has no rendered pixels."@),
        width > 0 && height > 0 && width * height * 4 > usize::MAX ==> (capture matches Err(e) && e@ == "The CPU scene framebuffer dimensions overflowed."@),
        width > 0 && height > 0 && width * height * 4 <= usize::MAX && pixels@.len() != width
            * height * 4 ==> (capture matches Err(e) && e@ == "The CPU scene framebuffer has an invalid RGBA8 length."@),
        width > 0 && height > 0 && pixels@.len() == width * height * 4 ==> capture == Ok::<
            SceneFrameCapture,
            String,
        >(SceneFrameCapture { width, height, rgba8: pixels }),
{
    let count: usize = pixels.len();
    if width == 0 || height == 0 {
        return Err("The CPU scene framebuffer has no rendered pixels.".to_owned());
    }
    let expected: usize = match (width as usize).checked_mul(height as usize) {
        Some(count) => match count.checked_mul(4) {
            Some(bytes) => bytes,
            None => {
                return Err("The CPU scene framebuffer dimensions overflowed.".to_owned());
            },
        },
        None => {
            assert(width * height * 4 > usize::MAX) by (nonlinear_arith)
                requires
                    width * height > usize::MAX,
            ;
            return Err("The CPU scene framebuffer dimensions overflowed.".to_owned());
        },
    };
    if count != expected {
        return Err("The CPU scene framebuffer has an invalid RGBA8 length.".to_owned());
    }
    Ok(SceneFrameCapture { width, height, rgba8: pixels })
}

} // verus!
