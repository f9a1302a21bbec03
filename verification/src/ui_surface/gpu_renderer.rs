//! Upload arithmetic of the retained-UI compositor: mip chains, row
//! padding for texture copies, and atlas expansion.

use vstd::prelude::*;

use std::ops::Range;

use crate::ui_surface::text_atlas::UiTextAtlasRect;

verus! {

/// Counters of one GPU-composited UI frame.
#[derive(Debug, Clone, Copy, PartialEq, Eq, Structural)]
pub struct UiSurfaceGpuMetrics {
    pub solid_vertices: u32,
    pub stroke_vertices: u32,
    pub text_vertices: u32,
    pub image_vertices: u32,
    pub atlas_uploads: u32,
    pub image_uploads: u32,
    pub image_upload_bytes: u64,
    pub image_evictions: u32,
    pub image_resident_bytes: u64,
    pub image_budget_exceeded: bool,
    pub geometry_cache_hit: bool,
    pub buffer_upload_bytes: u64,
    pub paint_runs: u32,
    pub draw_calls: u32,
    /// Number of submitted solid quads that require alpha blending.
    pub translucent_solid_quads: u32,
    /// Approximate physical-pixel coverage submitted by translucent solids.
    pub estimated_translucent_pixels: u64,
}

impl UiSurfaceGpuMetrics {
    /// All counters zero and both flags clear.
    pub open spec fn is_zero(self) -> bool {
        &&& self.solid_vertices == 0
        &&& self.stroke_vertices == 0
        &&& self.text_vertices == 0
        &&& self.image_vertices == 0
        &&& self.atlas_uploads == 0
        &&& self.image_uploads == 0
        &&& self.image_upload_bytes == 0
        &&& self.image_evictions == 0
        &&& self.image_resident_bytes == 0
        &&& !self.image_budget_exceeded
        &&& !self.geometry_cache_hit
        &&& self.buffer_upload_bytes == 0
        &&& self.paint_runs == 0
        &&& self.draw_calls == 0
        &&& self.translucent_solid_quads == 0
        &&& self.estimated_translucent_pixels == 0
    }
}

impl Default for UiSurfaceGpuMetrics {
    fn default() -> (metrics: Self)
        ensures
            metrics.is_zero(),
    {
        UiSurfaceGpuMetrics {
            solid_vertices: 0,
            stroke_vertices: 0,
            text_vertices: 0,
            image_vertices: 0,
            atlas_uploads: 0,
            image_uploads: 0,
            image_upload_bytes: 0,
            image_evictions: 0,
            image_resident_bytes: 0,
            image_budget_exceeded: false,
            geometry_cache_hit: false,
            buffer_upload_bytes: 0,
            paint_runs: 0,
            draw_calls: 0,
            translucent_solid_quads: 0,
            estimated_translucent_pixels: 0,
        }
    }
}

/// Number of levels in a full mip chain whose largest side is `n`: one
/// level per halving down to a single texel.
pub open spec fn mip_levels(n: nat) -> nat
    decreases n,
{
    if n <= 1 {
        1
    } else {
        1 + mip_levels(n / 2)
    }
}

pub proof fn lemma_mip_levels_bounds(n: nat)
    requires
        n >= 1,
    ensures
        1 <= mip_levels(n) <= n,
    decreases n,
{
    if n > 1 {
        lemma_mip_levels_bounds(n / 2);
    }
}

pub open spec fn max_nat(a: nat, b: nat) -> nat {
    if a >= b {
        a
    } else {
        b
    }
}

/// Mip levels of an image: the levels of its largest side, at least one.
pub fn image_mip_level_count(size: [u32; 2]) -> (levels: u32)
    ensures
        levels == mip_levels(max_nat(max_nat(size[0] as nat, size[1] as nat), 1)),
{
    let mut largest = size[0].max(size[1]).max(1);
    let ghost total = mip_levels(largest as nat);
    proof {
        lemma_mip_levels_bounds(largest as nat);
    }
    let mut levels: u32 = 1;
    while largest > 1
        invariant
            largest >= 1,
            levels + mip_levels(largest as nat) == total + 1,
            total <= u32::MAX,
        decreases largest,
    {
        proof {
            lemma_mip_levels_bounds(largest as nat / 2);
        }
        largest = (largest / 2).max(1);
        levels += 1;
    }
    levels
}

/// Bytes of a full RGBA8 mip chain for a `width` × `height` base level
/// (a zero side counts as one): every level down to 1 × 1, each side halved
/// (but not below one) from level to level.
pub open spec fn mip_chain_bytes(width: nat, height: nat) -> nat
    decreases max_nat(width, 1) + max_nat(height, 1),
{
    let w = max_nat(width, 1);
    let h = max_nat(height, 1);
    if w == 1 && h == 1 {
        4
    } else {
        w * h * 4 + mip_chain_bytes(w / 2, h / 2)
    }
}

/// A zero side counts as one.
pub proof fn lemma_mip_chain_sides(width: nat, height: nat)
    ensures
        mip_chain_bytes(width, height) == mip_chain_bytes(max_nat(width, 1), max_nat(height, 1)),
{
}

/// `n` clamped to `u64::MAX`.
pub open spec fn saturate_u64(n: int) -> u64 {
    if n > u64::MAX {
        u64::MAX
    } else if n < 0 {
        0
    } else {
        n as u64
    }
}

/// GPU bytes an image occupies with its complete mip chain, saturating at
/// `u64::MAX`.
pub fn image_mip_chain_bytes(size: [u32; 2]) -> (bytes: u64)
    ensures
        bytes == saturate_u64(
            mip_chain_bytes(max_nat(size[0] as nat, 1), max_nat(size[1] as nat, 1)) as int,
        ),
{
    let mut width = size[0].max(1);
    let mut height = size[1].max(1);
    let ghost total = mip_chain_bytes(width as nat, height as nat);
    let ghost mut counted: int = 0;
    let mut bytes = 0_u64;
    loop
        invariant_except_break
            counted + mip_chain_bytes(width as nat, height as nat) == total,
        invariant
            width >= 1,
            height >= 1,
            counted >= 0,
            bytes == saturate_u64(counted),
        ensures
            bytes == saturate_u64(total as int),
        decreases width + height,
    {
        assert((width as int) * (height as int) <= 0xffff_ffff * 0xffff_ffff) by (nonlinear_arith)
            requires
                width <= 0xffff_ffff,
                height <= 0xffff_ffff,
        ;
        let area: u64 = (width as u64) * (height as u64);
        let level: u64 = match area.checked_mul(4) {
            Some(level) => level,
            None => u64::MAX,
        };
        bytes = bytes.saturating_add(level);
        proof {
            counted = counted + width * height * 4;
            lemma_mip_chain_sides(width as nat / 2, height as nat / 2);
        }
        if width == 1 && height == 1 {
            break;
        }
        width = (width / 2).max(1);
        height = (height / 2).max(1);
    }
    bytes
}

/// Bytes of one RGBA8 row of an image `width` texels wide (at least one).
pub open spec fn rgba_row_bytes(width: u32) -> int {
    (if width == 0 {
        1
    } else {
        width as int
    }) * 4
}

/// Rows of an image `height` texels high (at least one).
pub open spec fn row_count(height: u32) -> int {
    if height == 0 {
        1
    } else {
        height as int
    }
}

/// Bytes per row of a texture copy: rows are padded to multiples of 256.
pub open spec fn padded_row_len(row: int) -> int {
    (row + 255) / 256 * 256
}

/// Byte `i` of the padded copy: the source byte of the same row and column,
/// or zero in the padding.
pub open spec fn padded_byte(pixels: Seq<u8>, row: int, padded: int, i: int) -> u8 {
    if i % padded < row {
        pixels[(i / padded) * row + i % padded]
    } else {
        0
    }
}

/// Pads every RGBA row of an image to the 256-byte row alignment that
/// texture copies need, and returns the padded bytes with their row pitch.
/// Rows that need no padding are returned as they are.
pub fn padded_rgba_rows(pixels: &[u8], size: [u32; 2]) -> (padded: (Vec<u8>, u32))
    requires
        rgba_row_bytes(size[0]) + 256 <= usize::MAX,
        padded_row_len(rgba_row_bytes(size[0])) * row_count(size[1]) <= usize::MAX,
        padded_row_len(rgba_row_bytes(size[0])) != rgba_row_bytes(size[0])
            ==> rgba_row_bytes(size[0]) * row_count(size[1]) <= pixels@.len(),
    ensures
        ({
            let row = rgba_row_bytes(size[0]);
            let pitch = padded_row_len(row);
            let height = row_count(size[1]);
            if pitch == row {
                &&& padded.0@ == pixels@
                &&& padded.1 == row as u32
            } else {
                &&& padded.0@.len() == pitch * height
                &&& forall|i: int|
                    0 <= i < padded.0@.len() ==> #[trigger] padded.0@[i] == padded_byte(
                        pixels@,
                        row,
                        pitch,
                        i,
                    )
                &&& padded.1 == pitch as u32
            }
        }),
{
    let width: u32 = if size[0] == 0 {
        1
    } else {
        size[0]
    };
    let row_bytes: usize = width as usize * 4;
    let padded_row_bytes: usize = (row_bytes + 256 - 1) / 256 * 256;
    if row_bytes == padded_row_bytes {
        let mut copy: Vec<u8> = Vec::new();
        let mut i: usize = 0;
        while i < pixels.len()
            invariant
                i <= pixels@.len(),
                copy@ == pixels@.subrange(0, i as int),
            decreases pixels@.len() - i,
        {
            copy.push(pixels[i]);
            i += 1;
        }
        proof {
            assert(pixels@.subrange(0, pixels@.len() as int) =~= pixels@);
        }
        return (copy, row_bytes as u32);
    }
    let height: usize = if size[1] == 0 {
        1
    } else {
        size[1] as usize
    };
    assert(row_bytes * height <= pixels@.len());
    let mut padded: Vec<u8> = Vec::new();
    let mut r: usize = 0;
    while r < height
        invariant
            row_bytes == rgba_row_bytes(size[0]),
            padded_row_bytes == padded_row_len(row_bytes as int),
            row_bytes < padded_row_bytes,
            height == row_count(size[1]),
            padded_row_bytes * height <= usize::MAX,
            row_bytes * height <= pixels@.len(),
            r <= height,
            padded@.len() == r * padded_row_bytes,
            forall|i: int|
                0 <= i < padded@.len() ==> #[trigger] padded@[i] == padded_byte(
                    pixels@,
                    row_bytes as int,
                    padded_row_bytes as int,
                    i,
                ),
        decreases height - r,
    {
        proof {
            assert((r + 1) * padded_row_bytes <= padded_row_bytes * height) by (nonlinear_arith)
                requires
                    r + 1 <= height,
            ;
            assert((r + 1) * row_bytes <= row_bytes * height) by (nonlinear_arith)
                requires
                    r + 1 <= height,
            ;
            assert(r * row_bytes + row_bytes == (r + 1) * row_bytes) by (nonlinear_arith);
        }
        let pixel_count = pixels.len();
        let base = r * row_bytes;
        let mut c: usize = 0;
        while c < padded_row_bytes
            invariant
                row_bytes == rgba_row_bytes(size[0]),
                padded_row_bytes == padded_row_len(row_bytes as int),
                row_bytes < padded_row_bytes,
                height == row_count(size[1]),
                r < height,
                (r + 1) * padded_row_bytes <= usize::MAX,
                (r + 1) * row_bytes <= pixels@.len(),
                base == r * row_bytes,
                pixel_count == pixels@.len(),
                c <= padded_row_bytes,
                padded@.len() == r * padded_row_bytes + c,
                forall|i: int|
                    0 <= i < padded@.len() ==> #[trigger] padded@[i] == padded_byte(
                        pixels@,
                        row_bytes as int,
                        padded_row_bytes as int,
                        i,
                    ),
            decreases padded_row_bytes - c,
        {
            let ghost i = r * padded_row_bytes + c;
            proof {
                vstd::arithmetic::div_mod::lemma_fundamental_div_mod_converse(
                    i,
                    padded_row_bytes as int,
                    r as int,
                    c as int,
                );
                assert(r * row_bytes + row_bytes <= pixels@.len()) by (nonlinear_arith)
                    requires
                        (r + 1) * row_bytes <= pixels@.len(),
                ;
            }
            let value: u8 = if c < row_bytes {
                pixels[base + c]
            } else {
                0
            };
            padded.push(value);
            c += 1;
        }
        assert((r + 1) * padded_row_bytes == r * padded_row_bytes + padded_row_bytes) by (nonlinear_arith);
        r += 1;
    }
    assert(r * padded_row_bytes == padded_row_bytes * height) by (nonlinear_arith)
        requires
            r == height,
    ;
    (padded, padded_row_bytes as u32)
}

/// Texel `p` of an atlas region, counted row by row: its index in the atlas.
pub open spec fn atlas_index(atlas_width: int, region: UiTextAtlasRect, p: int) -> int {
    (region.y + p / (region.width as int)) * atlas_width + region.x + p % (region.width as int)
}

/// Expands an alpha-only atlas region into white RGBA texels carrying the
/// coverage in their alpha channel.
pub fn atlas_rgba_region(alpha: &[u8], size: [u16; 2], region: UiTextAtlasRect) -> (rgba: Vec<u8>)
    requires
        region.height > 0 ==> (region.y + region.height - 1) * size[0] + region.x + region.width
            <= alpha@.len(),
    ensures
        rgba@.len() == region.width * region.height * 4,
        forall|i: int|
            0 <= i < rgba@.len() ==> #[trigger] rgba@[i] == if i % 4 < 3 {
                255u8
            } else {
                alpha@[atlas_index(size[0] as int, region, i / 4)]
            },
{
    let atlas_width = size[0] as usize;
    let width = region.width as usize;
    let height = region.height as usize;
    let mut rgba: Vec<u8> = Vec::new();
    let mut row: usize = 0;
    while row < height
        invariant
            atlas_width == size[0],
            width == region.width,
            height == region.height,
            region.height > 0 ==> (region.y + region.height - 1) * size[0] + region.x + region.width
                <= alpha@.len(),
            row <= height,
            rgba@.len() == row * width * 4,
            forall|i: int|
                0 <= i < rgba@.len() ==> #[trigger] rgba@[i] == if i % 4 < 3 {
                    255u8
                } else {
                    alpha@[atlas_index(size[0] as int, region, i / 4)]
                },
        decreases height - row,
    {
        proof {
            let yr = region.y as int + row as int;
            let ylast = region.y as int + region.height as int - 1;
            assert(yr * (size[0] as int) <= ylast * (size[0] as int)) by (nonlinear_arith)
                requires
                    yr <= ylast,
                    size[0] >= 0,
            ;
        }
        let alpha_len = alpha.len();
        let start = (region.y as usize + row) * atlas_width + region.x as usize;
        let mut col: usize = 0;
        while col < width
            invariant
                atlas_width == size[0],
                width == region.width,
                height == region.height,
                row < height,
                start == (region.y + row) * size[0] + region.x,
                start + width <= alpha@.len(),
                alpha_len == alpha@.len(),
                col <= width,
                rgba@.len() == (row * width + col) * 4,
                forall|i: int|
                    0 <= i < rgba@.len() ==> #[trigger] rgba@[i] == if i % 4 < 3 {
                        255u8
                    } else {
                        alpha@[atlas_index(size[0] as int, region, i / 4)]
                    },
            decreases width - col,
        {
            let value = alpha[start + col];
            let ghost base = rgba@.len() as int;
            proof {
                vstd::arithmetic::div_mod::lemma_fundamental_div_mod_converse(
                    (row * width + col) as int,
                    width as int,
                    row as int,
                    col as int,
                );
                let q = (row * width + col) as int;
                vstd::arithmetic::div_mod::lemma_fundamental_div_mod_converse(base, 4, q, 0);
                vstd::arithmetic::div_mod::lemma_fundamental_div_mod_converse(base + 1, 4, q, 1);
                vstd::arithmetic::div_mod::lemma_fundamental_div_mod_converse(base + 2, 4, q, 2);
                vstd::arithmetic::div_mod::lemma_fundamental_div_mod_converse(base + 3, 4, q, 3);
            }
            rgba.push(255);
            rgba.push(255);
            rgba.push(255);
            rgba.push(value);
            col += 1;
        }
        assert((row + 1) * width * 4 == (row * width + width) * 4) by (nonlinear_arith);
        row += 1;
    }
    assert(height * width * 4 == region.width * region.height * 4) by (nonlinear_arith)
        requires
            height == region.height,
            width == region.width,
    ;
    rgba
}

/// Channel `ch` of source texel (`x`, `y`) of an RGBA image `width` texels
/// wide.
pub open spec fn texel(pixels: Seq<u8>, width: int, x: int, y: int, ch: int) -> int {
    pixels[(y * width + x) * 4 + ch] as int
}

/// Alpha of a texel for `ch == 3`, else its channel `ch` premultiplied by
/// its alpha (in 0..=255 × 0..=255 units).
pub open spec fn weighted(pixels: Seq<u8>, width: int, x: int, y: int, ch: int) -> int {
    if ch == 3 {
        texel(pixels, width, x, y, 3)
    } else {
        texel(pixels, width, x, y, ch) * texel(pixels, width, x, y, 3)
    }
}

/// Sum of `weighted` over the texels `x0..x1` of row `y`.
pub open spec fn row_sum(pixels: Seq<u8>, width: int, y: int, x0: int, x1: int, ch: int) -> int
    decreases x1 - x0,
{
    if x1 <= x0 {
        0
    } else {
        row_sum(pixels, width, y, x0, x1 - 1, ch) + weighted(pixels, width, x1 - 1, y, ch)
    }
}

/// Sum of `weighted` over the block `x0..x1` × `y0..y1`.
pub open spec fn block_sum(
    pixels: Seq<u8>,
    width: int,
    x0: int,
    x1: int,
    y0: int,
    y1: int,
    ch: int,
) -> int
    decreases y1 - y0,
{
    if y1 <= y0 {
        0
    } else {
        block_sum(pixels, width, x0, x1, y0, y1 - 1, ch) + row_sum(pixels, width, y1 - 1, x0, x1, ch)
    }
}

/// Downsampled texel `(tx, ty)`: the source block it covers, as in a box
/// filter (left/top edges rounded down, at least one texel, cut at the
/// source edge).
pub open spec fn block_x0(tx: int, source: int, target: int) -> int {
    tx * source / target
}

pub open spec fn block_x1(tx: int, source: int, target: int) -> int {
    let right = (tx + 1) * source / target;
    let right = if right >= block_x0(tx, source, target) + 1 {
        right
    } else {
        block_x0(tx, source, target) + 1
    };
    if right <= source {
        right
    } else {
        source
    }
}

/// `numerator / denominator` rounded half up.
pub open spec fn round_div(numerator: int, denominator: int) -> int {
    (2 * numerator + denominator) / (2 * denominator)
}

/// Channel `ch` of the downsampled texel covering the block
/// `x0..x1` × `y0..y1`: alpha is the mean alpha; colour is the
/// alpha-weighted mean colour, or zero when the mean alpha is below the
/// single-precision epsilon.
pub open spec fn averaged_channel(
    pixels: Seq<u8>,
    width: int,
    x0: int,
    x1: int,
    y0: int,
    y1: int,
    ch: int,
) -> int {
    let samples = (x1 - x0) * (y1 - y0);
    let alpha_sum = block_sum(pixels, width, x0, x1, y0, y1, 3);
    if ch == 3 {
        round_div(alpha_sum, samples)
    } else if alpha_sum * 8388608 > 255 * samples {
        round_div(block_sum(pixels, width, x0, x1, y0, y1, ch), alpha_sum)
    } else {
        0
    }
}

/// Sums of alpha and premultiplied colour over a block.
fn block_sums(pixels: &[u8], width: usize, x0: usize, x1: usize, y0: usize, y1: usize) -> (sums: [u128; 4])
    requires
        x0 < x1 <= width,
        y0 < y1,
        y1 * width * 4 <= pixels@.len(),
    ensures
        forall|ch: int| 0 <= ch < 4 ==> #[trigger] sums[ch] as int == block_sum(
            pixels@,
            width as int,
            x0 as int,
            x1 as int,
            y0 as int,
            y1 as int,
            ch,
        ),
        forall|ch: int| 0 <= ch < 4 ==> sums[ch] <= 65025 * (x1 - x0) * (y1 - y0),
        sums[3] <= 255 * (x1 - x0) * (y1 - y0),
{
    let pixel_count = pixels.len();
    let mut sums: [u128; 4] = [0, 0, 0, 0];
    let mut y = y0;
    while y < y1
        invariant
            x0 < x1 <= width,
            y0 <= y <= y1,
            y1 * width * 4 <= pixels@.len(),
            pixel_count == pixels@.len(),
            forall|ch: int|
                0 <= ch < 4 ==> #[trigger] sums[ch] as int == block_sum(
                    pixels@,
                    width as int,
                    x0 as int,
                    x1 as int,
                    y0 as int,
                    y as int,
                    ch,
                ),
            forall|ch: int| 0 <= ch < 4 ==> sums[ch] <= 65025 * (x1 - x0) * (y - y0),
            sums[3] <= 255 * (x1 - x0) * (y - y0),
        decreases y1 - y,
    {
        let mut x = x0;
        let ghost row_start = sums;
        assert((y + 1) * width * 4 <= y1 * width * 4) by (nonlinear_arith)
            requires
                y + 1 <= y1,
        ;
        while x < x1
            invariant
                x0 <= x <= x1 <= width,
                y0 <= y < y1,
                (y + 1) * width * 4 <= pixels@.len(),
                y1 * width * 4 <= pixels@.len(),
                pixel_count == pixels@.len(),
                forall|ch: int|
                    0 <= ch < 4 ==> #[trigger] sums[ch] as int == row_start[ch] + row_sum(
                        pixels@,
                        width as int,
                        y as int,
                        x0 as int,
                        x as int,
                        ch,
                    ),
                forall|ch: int| 0 <= ch < 4 ==> row_start[ch] <= 65025 * (x1 - x0) * (y - y0),
                forall|ch: int|
                    0 <= ch < 4 ==> sums[ch] <= row_start[ch] + 65025 * (x - x0),
                row_start[3] <= 255 * (x1 - x0) * (y - y0),
                sums[3] <= row_start[3] + 255 * (x - x0),
            decreases x1 - x,
        {
            assert((y * width + x) * 4 + 4 <= (y + 1) * width * 4) by (nonlinear_arith)
                requires
                    x < width,
            ;
            let index = (y * width + x) * 4;
            let alpha = pixels[index + 3] as u128;
            let r = pixels[index] as u128;
            let g = pixels[index + 1] as u128;
            let b = pixels[index + 2] as u128;
            assert(r * alpha <= 65025 && g * alpha <= 65025 && b * alpha <= 65025) by (nonlinear_arith)
                requires
                    r <= 255,
                    g <= 255,
                    b <= 255,
                    alpha <= 255,
            ;
            assert(65025 * (x1 - x0) * (y - y0) + 65025 * (x + 1 - x0) <= 65025 * (x1 - x0) * (
            y1 - y0)) by (nonlinear_arith)
                requires
                    x < x1,
                    y < y1,
                    y0 <= y,
                    x0 <= x,
            ;
            assert(65025 * (x1 - x0) * (y1 - y0) <= 65025 * (width as int) * (y1 as int)) by (nonlinear_arith)
                requires
                    x0 < x1 <= width,
                    y0 < y1,
            ;
            assert(65025 * (width as int) * (y1 as int) <= 0xffff_ffff_ffff_ffff_ffff_ffff) by (nonlinear_arith)
                requires
                    y1 * width * 4 <= pixel_count,
                    pixel_count <= usize::MAX,
            ;
            assert(sums[0] <= row_start[0] + 65025 * (x - x0));
            assert(sums[1] <= row_start[1] + 65025 * (x - x0));
            assert(sums[2] <= row_start[2] + 65025 * (x - x0));
            assert(sums[3] <= row_start[3] + 65025 * (x - x0));
            assert(row_start[0] <= 65025 * (x1 - x0) * (y - y0));
            assert(row_start[1] <= 65025 * (x1 - x0) * (y - y0));
            assert(row_start[2] <= 65025 * (x1 - x0) * (y - y0));
            assert(row_start[3] <= 65025 * (x1 - x0) * (y - y0));
            sums[0] = sums[0] + r * alpha;
            sums[1] = sums[1] + g * alpha;
            sums[2] = sums[2] + b * alpha;
            sums[3] = sums[3] + alpha;
            x += 1;
        }
        assert(65025 * (x1 - x0) * (y - y0) + 65025 * (x1 - x0) == 65025 * (x1 - x0) * (y + 1
            - y0)) by (nonlinear_arith);
        assert(255 * (x1 - x0) * (y - y0) + 255 * (x1 - x0) == 255 * (x1 - x0) * (y + 1 - y0))
            by (nonlinear_arith);
        y += 1;
    }
    sums
}

/// Byte `i` of an image downsampled from `sw` × `sh` to `tw` × `th`.
pub open spec fn downsampled_byte(pixels: Seq<u8>, sw: int, sh: int, tw: int, th: int, i: int) -> int {
    let texel_index = i / 4;
    let tx = texel_index % tw;
    let ty = texel_index / tw;
    let value = averaged_channel(
        pixels,
        sw,
        block_x0(tx, sw, tw),
        block_x1(tx, sw, tw),
        block_x0(ty, sh, th),
        block_x1(ty, sh, th),
        i % 4,
    );
    if value > 255 {
        255
    } else {
        value
    }
}

/// One downsampled texel from the sums over its source block.
fn averaged_texel(sums: [u128; 4], samples: u128) -> (texel: [u8; 4])
    requires
        samples >= 1,
        sums[3] <= 255 * samples,
        sums[0] <= 0xffff_ffff_ffff_ffff_ffff_ffff_ffff,
        sums[1] <= 0xffff_ffff_ffff_ffff_ffff_ffff_ffff,
        sums[2] <= 0xffff_ffff_ffff_ffff_ffff_ffff_ffff,
        samples <= 0xffff_ffff_ffff_ffff_ffff_ffff,
    ensures
        texel[3] == round_div(sums[3] as int, samples as int),
        forall|ch: int|
            0 <= ch < 3 ==> #[trigger] texel[ch] == if sums[3] * 8388608 > 255 * samples {
                let v = round_div(sums[ch] as int, sums[3] as int);
                if v > 255 {
                    255
                } else {
                    v
                }
            } else {
                0
            },
{
    let mut texel: [u8; 4] = [0, 0, 0, 0];
    let alpha = (2 * sums[3] + samples) / (2 * samples);
    assert((2 * sums[3] + samples) / (2 * samples) <= 255) by (nonlinear_arith)
        requires
            sums[3] <= 255 * samples,
            samples >= 1,
    ;
    texel[3] = alpha as u8;
    if sums[3] * 8388608 > 255 * samples {
        let mut ch: usize = 0;
        while ch < 3
            invariant
                ch <= 3,
                sums[3] * 8388608 > 255 * samples,
                sums[3] <= 255 * samples,
                samples <= 0xffff_ffff_ffff_ffff_ffff_ffff,
                sums[0] <= 0xffff_ffff_ffff_ffff_ffff_ffff_ffff,
                sums[1] <= 0xffff_ffff_ffff_ffff_ffff_ffff_ffff,
                sums[2] <= 0xffff_ffff_ffff_ffff_ffff_ffff_ffff,
                texel[3] == round_div(sums[3] as int, samples as int),
                forall|c: int|
                    0 <= c < ch ==> #[trigger] texel[c] == {
                        let v = round_div(sums[c] as int, sums[3] as int);
                        if v > 255 {
                            255
                        } else {
                            v
                        }
                    },
                forall|c: int| ch <= c < 3 ==> #[trigger] texel[c] == 0,
            decreases 3 - ch,
        {
            let value = (2 * sums[ch] + sums[3]) / (2 * sums[3]);
            texel[ch] = if value > 255 {
                255
            } else {
                value as u8
            };
            ch += 1;
        }
    }
    texel
}

/// Target texel (`tx`, `ty`) of a downsampled image.
fn downsample_texel(
    pixels: &[u8],
    sw: usize,
    sh: usize,
    tw: usize,
    th: usize,
    tx: usize,
    ty: usize,
) -> (texel: [u8; 4])
    requires
        sw >= 1,
        sh >= 1,
        tx < tw,
        ty < th,
        sw * sh * 4 <= pixels@.len(),
        tw * sw <= usize::MAX,
        th * sh <= usize::MAX,
    ensures
        forall|ch: int|
            0 <= ch < 4 ==> #[trigger] texel[ch] as int == {
                let value = averaged_channel(
                    pixels@,
                    sw as int,
                    block_x0(tx as int, sw as int, tw as int),
                    block_x1(tx as int, sw as int, tw as int),
                    block_x0(ty as int, sh as int, th as int),
                    block_x1(ty as int, sh as int, th as int),
                    ch,
                );
                if value > 255 {
                    255
                } else {
                    value
                }
            },
{
    let pixel_count = pixels.len();
    assert(ty * sh <= (ty + 1) * sh <= th * sh) by (nonlinear_arith)
        requires
            ty + 1 <= th,
    ;
    assert(tx * sw <= (tx + 1) * sw <= tw * sw) by (nonlinear_arith)
        requires
            tx + 1 <= tw,
    ;
    let top = ty * sh / th;
    assert(top < sh) by (nonlinear_arith)
        requires
            top as int == (ty as int) * (sh as int) / (th as int),
            ty < th,
            sh >= 1,
    ;
    let bottom_raw = (ty + 1) * sh / th;
    let bottom_raw = if bottom_raw >= top + 1 { bottom_raw } else { top + 1 };
    let bottom = if bottom_raw <= sh { bottom_raw } else { sh };
    let left = tx * sw / tw;
    assert(left < sw) by (nonlinear_arith)
        requires
            left as int == (tx as int) * (sw as int) / (tw as int),
            tx < tw,
            sw >= 1,
    ;
    let right_raw = (tx + 1) * sw / tw;
    let right_raw = if right_raw >= left + 1 { right_raw } else { left + 1 };
    let right = if right_raw <= sw { right_raw } else { sw };
    assert(bottom * sw * 4 <= sw * sh * 4) by (nonlinear_arith)
        requires
            bottom <= sh,
    ;
    let sums = block_sums(pixels, sw, left, right, top, bottom);
    assert((right - left) * (bottom - top) <= sw * sh) by (nonlinear_arith)
        requires
            left < right <= sw,
            top < bottom <= sh,
    ;
    assert((right - left) * (bottom - top) >= 1) by (nonlinear_arith)
        requires
            left < right,
            top < bottom,
    ;
    assert(65025 * (right - left) * (bottom - top) <= 0xffff_ffff_ffff_ffff_ffff_ffff_ffff) by (nonlinear_arith)
        requires
            (right - left) * (bottom - top) <= sw * sh,
            sw * sh * 4 <= pixel_count,
            pixel_count <= usize::MAX,
    ;
    let samples: u128 = ((right - left) as u128) * ((bottom - top) as u128);
    assert(sums[0] <= 65025 * (right - left) * (bottom - top));
    assert(sums[1] <= 65025 * (right - left) * (bottom - top));
    assert(sums[2] <= 65025 * (right - left) * (bottom - top));
    assert(255 * (right - left) * (bottom - top) == 255 * samples) by (nonlinear_arith)
        requires
            samples == (right - left) * (bottom - top),
    ;
    averaged_texel(sums, samples)
}

/// Box-filters premultiplied RGBA from `source_size` down to `target_size`
/// (zero sides count as one): each target texel averages the alpha of its
/// source block and the alpha-weighted colour, rounding half up.
pub fn downsample_rgba_premultiplied(pixels: &[u8], source_size: [u32; 2], target_size: [u32; 2]) -> (output: Vec<u8>)
    requires
        row_count(source_size[0]) * row_count(source_size[1]) * 4 <= pixels@.len(),
        row_count(target_size[0]) * row_count(target_size[1]) * 4 <= usize::MAX,
        row_count(target_size[0]) * row_count(source_size[0]) <= usize::MAX,
        row_count(target_size[1]) * row_count(source_size[1]) <= usize::MAX,
    ensures
        output@.len() == row_count(target_size[0]) * row_count(target_size[1]) * 4,
        forall|i: int|
            0 <= i < output@.len() ==> #[trigger] output@[i] as int == downsampled_byte(
                pixels@,
                row_count(source_size[0]),
                row_count(source_size[1]),
                row_count(target_size[0]),
                row_count(target_size[1]),
                i,
            ),
{
    let sw: usize = if source_size[0] == 0 { 1 } else { source_size[0] as usize };
    let sh: usize = if source_size[1] == 0 { 1 } else { source_size[1] as usize };
    let tw: usize = if target_size[0] == 0 { 1 } else { target_size[0] as usize };
    let th: usize = if target_size[1] == 0 { 1 } else { target_size[1] as usize };
    let pixel_count = pixels.len();
    let mut output: Vec<u8> = Vec::new();
    let mut ty: usize = 0;
    while ty < th
        invariant
            sw == row_count(source_size[0]),
            sh == row_count(source_size[1]),
            tw == row_count(target_size[0]),
            th == row_count(target_size[1]),
            sw * sh * 4 <= pixels@.len(),
            pixel_count == pixels@.len(),
            tw * th * 4 <= usize::MAX,
            tw * sw <= usize::MAX,
            th * sh <= usize::MAX,
            ty <= th,
            output@.len() == ty * tw * 4,
            forall|i: int|
                0 <= i < output@.len() ==> #[trigger] output@[i] as int == downsampled_byte(
                    pixels@,
                    sw as int,
                    sh as int,
                    tw as int,
                    th as int,
                    i,
                ),
        decreases th - ty,
    {
        let mut tx: usize = 0;
        while tx < tw
            invariant
                sw == row_count(source_size[0]),
                sh == row_count(source_size[1]),
                tw == row_count(target_size[0]),
                th == row_count(target_size[1]),
                sw * sh * 4 <= pixels@.len(),
                pixel_count == pixels@.len(),
                tw * th * 4 <= usize::MAX,
                tw * sw <= usize::MAX,
                th * sh <= usize::MAX,
                ty < th,
                tx <= tw,
                output@.len() == (ty * tw + tx) * 4,
                forall|i: int|
                    0 <= i < output@.len() ==> #[trigger] output@[i] as int == downsampled_byte(
                        pixels@,
                        sw as int,
                        sh as int,
                        tw as int,
                        th as int,
                        i,
                    ),
            decreases tw - tx,
        {
                let texel = downsample_texel(pixels, sw, sh, tw, th, tx, ty);
            let ghost base = output@.len() as int;
            output.push(texel[0]);
            output.push(texel[1]);
            output.push(texel[2]);
            output.push(texel[3]);
            proof {
                let q = (ty * tw + tx) as int;
                vstd::arithmetic::div_mod::lemma_fundamental_div_mod_converse(q, tw as int, ty as int, tx as int);
                vstd::arithmetic::div_mod::lemma_fundamental_div_mod_converse(base, 4, q, 0);
                vstd::arithmetic::div_mod::lemma_fundamental_div_mod_converse(base + 1, 4, q, 1);
                vstd::arithmetic::div_mod::lemma_fundamental_div_mod_converse(base + 2, 4, q, 2);
                vstd::arithmetic::div_mod::lemma_fundamental_div_mod_converse(base + 3, 4, q, 3);
                assert(texel[0] == output@[base]);
            }
            tx += 1;
        }
        assert((ty * tw + tw) * 4 == (ty + 1) * tw * 4) by (nonlinear_arith);
        ty += 1;
    }
    assert(th * tw * 4 == tw * th * 4) by (nonlinear_arith);
    output
}

/// Pipeline a paint run draws with; image runs also bind one image texture,
/// named by its source key.
#[derive(Debug, Clone)]
pub enum UiSurfacePaintKind {
    Solid,
    Stroke,
    Text,
    Image(String),
}

impl UiSurfacePaintKind {
    /// Both draw with the same pipeline and the same bound texture.
    pub open spec fn same_as(self, other: UiSurfacePaintKind) -> bool {
        match (self, other) {
            (UiSurfacePaintKind::Solid, UiSurfacePaintKind::Solid) => true,
            (UiSurfacePaintKind::Stroke, UiSurfacePaintKind::Stroke) => true,
            (UiSurfacePaintKind::Text, UiSurfacePaintKind::Text) => true,
            (UiSurfacePaintKind::Image(a), UiSurfacePaintKind::Image(b)) => a@ == b@,
            _ => false,
        }
    }

    /// Whether one draw call can cover both kinds.
    pub fn same_pipeline(&self, other: &UiSurfacePaintKind) -> (same: bool)
        ensures
            same == self.same_as(*other),
    {
        match (self, other) {
            (UiSurfacePaintKind::Solid, UiSurfacePaintKind::Solid) => true,
            (UiSurfacePaintKind::Stroke, UiSurfacePaintKind::Stroke) => true,
            (UiSurfacePaintKind::Text, UiSurfacePaintKind::Text) => true,
            (UiSurfacePaintKind::Image(a), UiSurfacePaintKind::Image(b)) => a.eq(b),
            _ => false,
        }
    }
}

/// One draw call: a range of vertices of one kind under one scissor
/// rectangle `(x, y, width, height)` in physical pixels.
#[derive(Debug)]
pub struct UiSurfacePaintRun {
    pub kind: UiSurfacePaintKind,
    pub range: Range<u32>,
    pub scissor: (u32, u32, u32, u32),
}

/// `next` continues `previous`: same pipeline and texture, same scissor, and
/// its vertices start where those of `previous` end.
pub open spec fn continues_run(previous: UiSurfacePaintRun, next: UiSurfacePaintRun) -> bool {
    &&& previous.kind.same_as(next.kind)
    &&& previous.scissor == next.scissor
    &&& previous.range.end == next.range.start
}

/// The runs after one more candidate: an empty candidate is dropped, one
/// that continues the last run extends it, any other is appended.
pub open spec fn append_run(runs: Seq<UiSurfacePaintRun>, candidate: UiSurfacePaintRun) -> Seq<
    UiSurfacePaintRun,
> {
    if candidate.range.end <= candidate.range.start {
        runs
    } else if runs.len() > 0 && continues_run(runs.last(), candidate) {
        runs.update(
            runs.len() - 1,
            UiSurfacePaintRun {
                kind: runs.last().kind,
                range: Range { start: runs.last().range.start, end: candidate.range.end },
                scissor: runs.last().scissor,
            },
        )
    } else {
        runs.push(candidate)
    }
}

/// The draw calls for candidate runs taken in paint order.
pub open spec fn coalesced_runs(candidates: Seq<UiSurfacePaintRun>) -> Seq<UiSurfacePaintRun>
    decreases candidates.len(),
{
    if candidates.len() == 0 {
        Seq::empty()
    } else {
        append_run(coalesced_runs(candidates.drop_last()), candidates.last())
    }
}

/// Adds one candidate run to the draw calls of a frame.
pub fn push_paint_run(runs: &mut Vec<UiSurfacePaintRun>, candidate: UiSurfacePaintRun)
    ensures
        final(runs)@ == append_run(old(runs)@, candidate),
{
    if candidate.range.end <= candidate.range.start {
        return ;
    }
    let n: usize = runs.len();
    if n > 0 {
        let continues = {
            let previous = &runs[n - 1];
            previous.kind.same_pipeline(&candidate.kind) && previous.scissor.0
                == candidate.scissor.0 && previous.scissor.1 == candidate.scissor.1
                && previous.scissor.2 == candidate.scissor.2 && previous.scissor.3
                == candidate.scissor.3 && previous.range.end == candidate.range.start
        };
        if continues {
            let ghost before = runs@;
            let mut previous = runs.pop().unwrap();
            previous.range.end = candidate.range.end;
            runs.push(previous);
            assert(runs@ =~= append_run(before, candidate));
            return ;
        }
    }
    runs.push(candidate);
}

/// Coalesces candidate runs, taken in paint order, into draw calls: empty
/// candidates are dropped and a candidate that continues the previous draw
/// call is merged into it.
pub fn coalesce_paint_runs(candidates: Vec<UiSurfacePaintRun>) -> (runs: Vec<UiSurfacePaintRun>)
    ensures
        runs@ == coalesced_runs(candidates@),
{
    let ghost all = candidates@;
    let mut runs: Vec<UiSurfacePaintRun> = Vec::new();
    for candidate in it: candidates.into_iter()
        invariant
            it.seq() == all,
            runs@ == coalesced_runs(all.take(it.index() as int)),
    {
        proof {
            let k = it.index() as int;
            assert(all.take(k + 1).drop_last() =~= all.take(k));
        }
        push_paint_run(&mut runs, candidate);
    }
    proof {
        assert(all.take(all.len() as int) =~= all);
    }
    runs
}

/// Vertices a run draws.
pub open spec fn run_span(run: UiSurfacePaintRun) -> int {
    if run.range.start < run.range.end {
        run.range.end - run.range.start
    } else {
        0
    }
}

/// Vertices a sequence of runs draws.
pub open spec fn total_span(runs: Seq<UiSurfacePaintRun>) -> int
    decreases runs.len(),
{
    if runs.len() == 0 {
        0
    } else {
        total_span(runs.drop_last()) + run_span(runs.last())
    }
}

proof fn lemma_append_run_span(runs: Seq<UiSurfacePaintRun>, candidate: UiSurfacePaintRun)
    requires
        forall|i: int| 0 <= i < runs.len() ==> (#[trigger] runs[i]).range.start < runs[i].range.end,
    ensures
        total_span(append_run(runs, candidate)) == total_span(runs) + run_span(candidate),
{
    let next = append_run(runs, candidate);
    if candidate.range.end <= candidate.range.start {
    } else if runs.len() > 0 && continues_run(runs.last(), candidate) {
        assert(next.drop_last() =~= runs.drop_last());
    } else {
        assert(next.drop_last() =~= runs);
    }
}

proof fn lemma_coalesced_runs_shape(candidates: Seq<UiSurfacePaintRun>)
    ensures
        forall|i: int|
            0 <= i < coalesced_runs(candidates).len() ==> (#[trigger] coalesced_runs(
                candidates,
            )[i]).range.start < coalesced_runs(candidates)[i].range.end,
        forall|i: int|
            0 < i < coalesced_runs(candidates).len() ==> !continues_run(
                coalesced_runs(candidates)[i - 1],
                #[trigger] coalesced_runs(candidates)[i],
            ),
        total_span(coalesced_runs(candidates)) == total_span(candidates),
    decreases candidates.len(),
{
    if candidates.len() > 0 {
        let rest = candidates.drop_last();
        lemma_coalesced_runs_shape(rest);
        lemma_append_run_span(coalesced_runs(rest), candidates.last());
        let before = coalesced_runs(rest);
        let after = coalesced_runs(candidates);
        let c = candidates.last();
        if c.range.end <= c.range.start {
        } else if before.len() > 0 && continues_run(before.last(), c) {
            let n = before.len() - 1;
            assert forall|i: int| 0 < i < after.len() implies !continues_run(
                after[i - 1],
                #[trigger] after[i],
            ) by {
                if i == n {
                    assert(after[i - 1] == before[i - 1]);
                    assert(!continues_run(before[i - 1], before[i]));
                } else {
                    assert(after[i] == before[i] && after[i - 1] == before[i - 1]);
                }
            }
        } else {
            assert forall|i: int| 0 < i < after.len() implies !continues_run(
                after[i - 1],
                #[trigger] after[i],
            ) by {
                if i < before.len() {
                    assert(after[i] == before[i] && after[i - 1] == before[i - 1]);
                }
            }
        }
    }
}

/// Coalescing draws exactly the vertices of the candidates: the draw calls
/// together cover as many vertices as the candidate runs.
pub proof fn law_coalescing_keeps_vertex_count(candidates: Seq<UiSurfacePaintRun>)
    ensures
        total_span(coalesced_runs(candidates)) == total_span(candidates),
{
    lemma_coalesced_runs_shape(candidates);
}

/// Coalescing is complete: no draw call is empty, and none continues the
/// draw call before it.
pub proof fn law_coalesced_runs_are_maximal(candidates: Seq<UiSurfacePaintRun>)
    ensures
        forall|i: int|
            0 <= i < coalesced_runs(candidates).len() ==> (#[trigger] coalesced_runs(
                candidates,
            )[i]).range.start < coalesced_runs(candidates)[i].range.end,
        forall|i: int|
            0 < i < coalesced_runs(candidates).len() ==> !continues_run(
                coalesced_runs(candidates)[i - 1],
                #[trigger] coalesced_runs(candidates)[i],
            ),
{
    lemma_coalesced_runs_shape(candidates);
}

/// Identity of the geometry built for one frame: the draw list (its
/// address when it carries no revision), its revision, and the logical and
/// physical sizes it was laid out for.
#[derive(Debug, Clone, Copy, PartialEq, Eq)]
pub struct UiSurfaceGpuGeometryKey {
    pub draw_list_identity: usize,
    pub draw_list_revision: u64,
    pub logical_size: [u32; 2],
    pub target_size: [u32; 2],
}

impl UiSurfaceGpuGeometryKey {
    /// The key of a draw list at `draw_list_address` with revision
    /// `draw_list_revision`: a list with a revision is known by it alone, a
    /// list without one (revision zero) by its address.
    pub fn new(
        draw_list_address: usize,
        draw_list_revision: u64,
        logical_size: [u32; 2],
        target_size: [u32; 2],
    ) -> (key: Self)
        ensures
            key.draw_list_identity == (if draw_list_revision == 0 {
                draw_list_address
            } else {
                0
            }),
            key.draw_list_revision == draw_list_revision,
            key.logical_size == logical_size,
            key.target_size == target_size,
    {
        UiSurfaceGpuGeometryKey {
            draw_list_identity: if draw_list_revision == 0 {
                draw_list_address
            } else {
                0
            },
            draw_list_revision,
            logical_size,
            target_size,
        }
    }

    /// Both keys name the same geometry.
    pub open spec fn same_geometry(self, other: UiSurfaceGpuGeometryKey) -> bool {
        &&& self.draw_list_identity == other.draw_list_identity
        &&& self.draw_list_revision == other.draw_list_revision
        &&& self.logical_size[0] == other.logical_size[0]
        &&& self.logical_size[1] == other.logical_size[1]
        &&& self.target_size[0] == other.target_size[0]
        &&& self.target_size[1] == other.target_size[1]
    }
}

/// Law: two geometry keys describe the same geometry exactly when they are
/// equal in every field: draw-list identity, revision, both logical sides
/// and both target sides.
pub proof fn law_same_geometry_is_equality(a: UiSurfaceGpuGeometryKey, b: UiSurfaceGpuGeometryKey)
    ensures
        a.same_geometry(b) <==> a == b,
{
    if a.same_geometry(b) {
        assert(a.logical_size =~= b.logical_size);
        assert(a.target_size =~= b.target_size);
    }
}

/// Whether the geometry of a frame with `key` must be built again: there is
/// none cached, or the cached geometry was built for another key.
pub fn geometry_needs_rebuild(cached: Option<UiSurfaceGpuGeometryKey>, key: UiSurfaceGpuGeometryKey) -> (rebuild: bool)
    ensures
        rebuild == (match cached {
            None => true,
            Some(c) => !c.same_geometry(key),
        }),
        rebuild == (cached != Some(key)),
{
    proof {
        if let Some(c) = cached {
            law_same_geometry_is_equality(c, key);
        }
    }
    match cached {
        None => true,
        Some(c) => !(c.draw_list_identity == key.draw_list_identity && c.draw_list_revision
            == key.draw_list_revision && c.logical_size[0] == key.logical_size[0]
            && c.logical_size[1] == key.logical_size[1] && c.target_size[0] == key.target_size[0]
            && c.target_size[1] == key.target_size[1]),
    }
}

/// The keys of `keys` in order of first occurrence, each once.
pub open spec fn first_occurrences(keys: Seq<Seq<char>>) -> Seq<Seq<char>>
    decreases keys.len(),
{
    if keys.len() == 0 {
        Seq::empty()
    } else {
        let earlier = first_occurrences(keys.drop_last());
        if earlier.contains(keys.last()) {
            earlier
        } else {
            earlier.push(keys.last())
        }
    }
}

/// The image keys of a frame to synchronize: each key once, in the order
/// the frame first uses it.
pub fn image_keys_to_sync(keys: &[String]) -> (unique: Vec<String>)
    ensures
        unique@.map_values(|k: String| k@) == first_occurrences(keys@.map_values(|k: String| k@)),
{
    let ghost all = keys@.map_values(|k: String| k@);
    let mut unique: Vec<String> = Vec::new();
    let n: usize = keys.len();
    let mut i: usize = 0;
    while i < n
        invariant
            n == keys@.len(),
            all == keys@.map_values(|k: String| k@),
            i <= n,
            unique@.map_values(|k: String| k@) == first_occurrences(all.take(i as int)),
        decreases n - i,
    {
        let mut found = false;
        let mut j: usize = 0;
        while j < unique.len()
            invariant
                i < keys@.len(),
                j <= unique@.len(),
                found == exists|m: int| 0 <= m < j && (#[trigger] unique@[m])@ == keys@[i as int]@,
            decreases unique@.len() - j,
        {
            if unique[j].eq(&keys[i]) {
                found = true;
            }
            j += 1;
        }
        proof {
            let prev = unique@.map_values(|k: String| k@);
            assert(all.take(i + 1).drop_last() =~= all.take(i as int));
            assert(all.take(i + 1).last() == keys@[i as int]@);
            if found {
                let m = choose|m: int| 0 <= m < unique@.len() && (#[trigger] unique@[m])@ == keys@[i as int]@;
                assert(prev[m] == keys@[i as int]@);
            } else {
                assert forall|m: int| 0 <= m < prev.len() implies prev[m] != keys@[i as int]@ by {
                    assert(prev[m] == unique@[m]@);
                }
            }
        }
        if !found {
            let ghost before = unique@;
            unique.push(keys[i].clone());
            proof {
                assert(unique@.map_values(|k: String| k@) =~= before.map_values(|k: String| k@).push(
                    keys@[i as int]@,
                ));
            }
        }
        i += 1;
    }
    proof {
        assert(all.take(n as int) =~= all);
    }
    unique
}

/// One command of the compositor's render pass.
#[derive(Debug, Clone, Copy, PartialEq, Eq, Structural)]
pub enum UiPaintPassStep {
    /// Bind the pipeline, vertex buffer and texture of run `0`.
    SetPipeline(usize),
    /// Clip to `(x, y, width, height)` in target pixels.
    SetScissor(u32, u32, u32, u32),
    /// Draw the vertices of run `0`.
    Draw(usize),
}

/// `a + b` clamped to `u32::MAX`.
pub open spec fn sat_add_u32_spec(a: u32, b: u32) -> u32 {
    if a + b > u32::MAX {
        u32::MAX
    } else {
        (a + b) as u32
    }
}

/// The commands for the first `n` runs of a pass whose viewport starts at
/// `origin`: a run whose buffers or texture are missing is skipped; any
/// other binds its pipeline unless the last bound run has the same one,
/// sets its scissor unless that scissor is already set, and is drawn.
/// Returns the commands, the run whose pipeline is bound, and the scissor.
pub open spec fn pass_plan(
    runs: Seq<UiSurfacePaintRun>,
    available: Seq<bool>,
    origin: [u32; 2],
    n: nat,
) -> (Seq<UiPaintPassStep>, Option<int>, Option<(u32, u32, u32, u32)>)
    decreases n,
{
    if n == 0 {
        (Seq::empty(), None, None)
    } else {
        let (steps, bound, scissor) = pass_plan(runs, available, origin, (n - 1) as nat);
        let i = n - 1;
        let run = runs[i];
        if !available[i] {
            (steps, bound, scissor)
        } else {
            let rebind = match bound {
                None => true,
                Some(b) => !runs[b].kind.same_as(run.kind),
            };
            let steps1 = if rebind { steps.push(UiPaintPassStep::SetPipeline(i as usize)) } else { steps };
            let bound1 = if rebind { Some(i) } else { bound };
            let rescissor = scissor != Some(run.scissor);
            let steps2 = if rescissor {
                steps1.push(
                    UiPaintPassStep::SetScissor(
                        sat_add_u32_spec(origin[0], run.scissor.0),
                        sat_add_u32_spec(origin[1], run.scissor.1),
                        run.scissor.2,
                        run.scissor.3,
                    ),
                )
            } else {
                steps1
            };
            (steps2.push(UiPaintPassStep::Draw(i as usize)), bound1, Some(run.scissor))
        }
    }
}

/// Plans the render pass of a frame: the commands that draw `runs` in
/// order into a viewport at `origin`, where `available[i]` says whether the
/// buffers and texture of run `i` exist. Pipeline and scissor are set only
/// when a run changes them.
pub fn plan_paint_pass(runs: &[UiSurfacePaintRun], available: &[bool], origin: [u32; 2]) -> (steps: Vec<UiPaintPassStep>)
    requires
        available@.len() == runs@.len(),
    ensures
        steps@ == pass_plan(runs@, available@, origin, runs@.len()).0,
{
    let n: usize = runs.len();
    let mut steps: Vec<UiPaintPassStep> = Vec::new();
    let mut bound: Option<usize> = None;
    let mut scissor: Option<(u32, u32, u32, u32)> = None;
    let mut i: usize = 0;
    while i < n
        invariant
            n == runs@.len(),
            available@.len() == n,
            i <= n,
            ({
                let (s, b, sc) = pass_plan(runs@, available@, origin, i as nat);
                &&& steps@ == s
                &&& sc == scissor
                &&& match bound {
                    None => b is None,
                    Some(x) => b == Some(x as int) && x < i,
                }
            }),
        decreases n - i,
    {
        if available[i] {
            let rebind = match bound {
                None => true,
                Some(b) => !runs[b].kind.same_pipeline(&runs[i].kind),
            };
            if rebind {
                steps.push(UiPaintPassStep::SetPipeline(i));
                bound = Some(i);
            }
            let s = runs[i].scissor;
            let same_scissor = match scissor {
                None => false,
                Some(c) => c.0 == s.0 && c.1 == s.1 && c.2 == s.2 && c.3 == s.3,
            };
            if !same_scissor {
                steps.push(
                    UiPaintPassStep::SetScissor(
                        origin[0].saturating_add(s.0),
                        origin[1].saturating_add(s.1),
                        s.2,
                        s.3,
                    ),
                );
                scissor = Some(s);
            }
            steps.push(UiPaintPassStep::Draw(i));
        }
        i += 1;
    }
    steps
}

proof fn lemma_contains_push(s: Seq<Seq<char>>, x: Seq<char>)
    ensures
        forall|k: Seq<char>| #[trigger] s.push(x).contains(k) <==> s.contains(k) || k == x,
{
    assert forall|k: Seq<char>| #[trigger] s.push(x).contains(k) <==> s.contains(k) || k == x by {
        if s.push(x).contains(k) {
            let w = choose|w: int| 0 <= w < s.push(x).len() && s.push(x)[w] == k;
            if w < s.len() {
                assert(s[w] == k);
            }
        }
        if s.contains(k) {
            let w = choose|w: int| 0 <= w < s.len() && s[w] == k;
            assert(s.push(x)[w] == k);
        }
        if k == x {
            assert(s.push(x)[s.len() as int] == k);
        }
    }
}

/// Each image key of a frame is synchronized exactly once: the keys to
/// synchronize hold no duplicate and are exactly the keys the frame uses.
pub proof fn law_each_image_key_synced_once(keys: Seq<Seq<char>>)
    ensures
        first_occurrences(keys).no_duplicates(),
        forall|k: Seq<char>| #[trigger] first_occurrences(keys).contains(k) <==> keys.contains(k),
    decreases keys.len(),
{
    if keys.len() > 0 {
        let rest = keys.drop_last();
        law_each_image_key_synced_once(rest);
        let earlier = first_occurrences(rest);
        let last = keys.last();
        assert(keys =~= rest.push(last));
        lemma_contains_push(rest, last);
        lemma_contains_push(earlier, last);
        if !earlier.contains(last) {
            assert forall|a: int, b: int|
                0 <= a < b < earlier.push(last).len() implies earlier.push(last)[a] != earlier.push(
                    last,
                )[b] by {
                if b == earlier.len() {
                    assert(earlier[a] == earlier.push(last)[a]);
                }
            }
        }
    }
}

} // verus!
