//! Bookkeeping of the bounded alpha atlas that holds rasterized text.

use vstd::prelude::*;
use vstd::string::StringSliceAdditionalSpecFns;

verus! {

/// A rectangle of atlas texels.
#[derive(Debug, Clone, Copy, PartialEq, Eq, Structural)]
pub struct UiTextAtlasRect {
    pub x: u16,
    pub y: u16,
    pub width: u16,
    pub height: u16,
}

/// Where a piece of text lives in the atlas and when it was last drawn.
#[derive(Debug, Clone, Copy, PartialEq, Eq)]
pub struct UiTextAtlasSlot {
    pub rect: UiTextAtlasRect,
    pub estimated_size: [u16; 2],
    pub last_used_frame: u64,
}

/// What one atlas synchronization did.
#[derive(Debug, Clone, Copy, PartialEq, Eq, Structural)]
pub struct UiTextAtlasSyncStats {
    pub allocated: usize,
    pub reused: usize,
    pub overflowed: usize,
    pub evicted: usize,
}

impl Default for UiTextAtlasSyncStats {
    fn default() -> (stats: Self)
        ensures
            stats == (UiTextAtlasSyncStats { allocated: 0, reused: 0, overflowed: 0, evicted: 0 }),
    {
        UiTextAtlasSyncStats { allocated: 0, reused: 0, overflowed: 0, evicted: 0 }
    }
}

pub open spec fn min_u16(a: u16, b: u16) -> u16 {
    if a <= b {
        a
    } else {
        b
    }
}

pub open spec fn max_u16(a: u16, b: u16) -> u16 {
    if a >= b {
        a
    } else {
        b
    }
}

/// `a + b` clamped to `u16::MAX`.
pub open spec fn sat_add_u16(a: u16, b: u16) -> u16 {
    if a + b > u16::MAX {
        u16::MAX
    } else {
        (a + b) as u16
    }
}

/// The bounding box of the dirty region so far and a newly dirtied
/// rectangle, cut at the atlas edge.
pub open spec fn merged_rect(current: UiTextAtlasRect, next: UiTextAtlasRect, size: [u16; 2]) -> UiTextAtlasRect {
    let left = min_u16(current.x, next.x);
    let top = min_u16(current.y, next.y);
    let right = min_u16(
        max_u16(sat_add_u16(current.x, current.width), sat_add_u16(next.x, next.width)),
        size[0],
    );
    let bottom = min_u16(
        max_u16(sat_add_u16(current.y, current.height), sat_add_u16(next.y, next.height)),
        size[1],
    );
    UiTextAtlasRect {
        x: left,
        y: top,
        width: if right >= left {
            (right - left) as u16
        } else {
            0
        },
        height: if bottom >= top {
            (bottom - top) as u16
        } else {
            0
        },
    }
}

/// Grows the dirty region of the atlas by `next`. Without a dirty region
/// yet, `next` is the region.
pub fn merge_rects(current: Option<UiTextAtlasRect>, next: UiTextAtlasRect, size: [u16; 2]) -> (merged: UiTextAtlasRect)
    ensures
        merged == (match current {
            None => next,
            Some(current) => merged_rect(current, next, size),
        }),
{
    let current = match current {
        None => {
            return next;
        },
        Some(current) => current,
    };
    let left = current.x.min(next.x);
    let top = current.y.min(next.y);
    let right = current.x.saturating_add(current.width).max(next.x.saturating_add(next.width)).min(
        size[0],
    );
    let bottom = current.y.saturating_add(current.height).max(
        next.y.saturating_add(next.height),
    ).min(size[1]);
    UiTextAtlasRect {
        x: left,
        y: top,
        width: right.saturating_sub(left),
        height: bottom.saturating_sub(top),
    }
}

/// Law: the merged region never reaches past the atlas edge (when its
/// origin lies inside the atlas) and contains the origin of both rectangles.
pub proof fn law_merged_rect_stays_inside(current: UiTextAtlasRect, next: UiTextAtlasRect, size: [u16; 2])
    requires
        current.x <= size[0],
        current.y <= size[1],
    ensures
        merged_rect(current, next, size).x + merged_rect(current, next, size).width <= size[0],
        merged_rect(current, next, size).y + merged_rect(current, next, size).height <= size[1],
        merged_rect(current, next, size).x <= current.x,
        merged_rect(current, next, size).x <= next.x,
        merged_rect(current, next, size).y <= current.y,
        merged_rect(current, next, size).y <= next.y,
{
}

/// Law: every texel of the atlas that lies in the dirty region so far or in
/// the newly dirtied rectangle lies in the merged region, so nothing dirtied
/// is left out of the upload.
pub proof fn law_merged_rect_covers_both(
    current: UiTextAtlasRect,
    next: UiTextAtlasRect,
    size: [u16; 2],
    x: int,
    y: int,
)
    requires
        0 <= x < size[0],
        0 <= y < size[1],
        in_rect(current, x, y) || in_rect(next, x, y),
    ensures
        in_rect(merged_rect(current, next, size), x, y),
{
}

/// Law: the merged region lies within the bounding box of the two
/// rectangles and within the atlas: it adds no texel that neither covers
/// along either axis.
pub proof fn law_merged_rect_is_bounded(
    current: UiTextAtlasRect,
    next: UiTextAtlasRect,
    size: [u16; 2],
    x: int,
    y: int,
)
    requires
        in_rect(merged_rect(current, next, size), x, y),
    ensures
        x < size[0],
        y < size[1],
        current.x <= x || next.x <= x,
        current.y <= y || next.y <= y,
        x < current.x + current.width || x < next.x + next.width,
        y < current.y + current.height || y < next.y + next.height,
{
}

/// The 64-bit FNV-1a offset basis.
pub open spec fn fnv_offset() -> u64 {
    0xcbf2_9ce4_8422_2325u64
}

/// The 64-bit FNV-1a prime.
pub open spec fn fnv_prime() -> u64 {
    0x0000_0100_0000_01b3u64
}

/// The 64-bit FNV-1a hash of a byte sequence.
pub open spec fn fnv1a(bytes: Seq<u8>) -> u64
    decreases bytes.len(),
{
    if bytes.len() == 0 {
        fnv_offset()
    } else {
        vstd::wrapping::u64_specs::wrapping_mul(
            fnv1a(bytes.drop_last()) ^ (bytes.last() as u64),
            fnv_prime(),
        )
    }
}

/// FNV-1a over a byte slice.
pub fn fnv1a_bytes(bytes: &[u8]) -> (hash: u64)
    ensures
        hash == fnv1a(bytes@),
{
    let mut hash: u64 = 0xcbf2_9ce4_8422_2325u64;
    let mut i: usize = 0;
    while i < bytes.len()
        invariant
            i <= bytes@.len(),
            hash == fnv1a(bytes@.subrange(0, i as int)),
        decreases bytes@.len() - i,
    {
        proof {
            assert(bytes@.subrange(0, i + 1).drop_last() =~= bytes@.subrange(0, i as int));
        }
        hash = hash ^ (bytes[i] as u64);
        hash = hash.wrapping_mul(0x0000_0100_0000_01b3u64);
        i += 1;
    }
    proof {
        assert(bytes@.subrange(0, bytes@.len() as int) =~= bytes@);
    }
    hash
}

/// Stable hash of a text's UTF-8 bytes, used as atlas cache key.
pub fn stable_text_hash(text: &str) -> (hash: u64)
    ensures
        hash == fnv1a(text.spec_bytes()),
{
    fnv1a_bytes(text.as_bytes())
}

/// Identity of a rasterized text: the hash of the text and every style
/// value it was rasterized with (role and weight by their index, sizes in
/// whole pixels).
#[derive(Debug, Clone, Copy, PartialEq, Eq, Structural, Hash)]
pub struct UiTextAtlasKey {
    pub text_hash: u64,
    pub role: u8,
    pub weight: u16,
    pub size_px: u16,
    pub line_height_px: u16,
    pub max_width_px: u16,
}

/// Alpha coverage of a rasterized text, row by row.
pub struct UiTextRaster {
    width: usize,
    height: usize,
    pixels: Vec<u8>,
}

impl UiTextRaster {
    #[verifier::type_invariant]
    spec fn consistent(self) -> bool {
        self.pixels@.len() == self.width * self.height
    }

    pub closed spec fn width_spec(&self) -> usize {
        self.width
    }

    pub closed spec fn height_spec(&self) -> usize {
        self.height
    }

    pub closed spec fn pixels_spec(&self) -> Seq<u8> {
        self.pixels@
    }

    /// A raster of `width` × `height` coverage bytes; `None` unless
    /// `pixels` holds exactly that many.
    pub fn new(width: usize, height: usize, pixels: Vec<u8>) -> (raster: Option<UiTextRaster>)
        ensures
            raster is Some <==> pixels@.len() == width * height,
            raster matches Some(r) ==> r.width_spec() == width && r.height_spec() == height
                && r.pixels_spec() == pixels@,
    {
        let count: usize = pixels.len();
        match width.checked_mul(height) {
            Some(area) => {
                if area == count {
                    Some(UiTextRaster { width, height, pixels })
                } else {
                    None
                }
            },
            None => None,
        }
    }

    pub fn width(&self) -> (width: usize)
        ensures
            width == self.width_spec(),
    {
        self.width
    }

    pub fn height(&self) -> (height: usize)
        ensures
            height == self.height_spec(),
    {
        self.height
    }

    /// The coverage bytes hold exactly `width × height` entries.
    pub fn pixel_count(&self) -> (count: usize)
        ensures
            count == self.pixels_spec().len(),
            count == self.width_spec() * self.height_spec(),
    {
        proof {
            use_type_invariant(self);
        }
        self.pixels.len()
    }
}

/// Largest side the atlas grows to.
pub open spec fn atlas_max_side() -> int {
    2048
}

/// What an atlas holds.
pub struct UiTextAtlasView {
    pub size: [u16; 2],
    /// Where the shelf packer places the next text, and the height of its
    /// current shelf.
    pub cursor: [u16; 2],
    pub row_height: u16,
    pub frame: u64,
    pub slots: Map<UiTextAtlasKey, UiTextAtlasSlot>,
    /// Coverage bytes, row by row.
    pub pixels: Seq<u8>,
    pub dirty: bool,
    pub dirty_region: Option<UiTextAtlasRect>,
    pub revision: u64,
}

/// The whole atlas as a rectangle.
pub open spec fn full_rect(size: [u16; 2]) -> UiTextAtlasRect {
    UiTextAtlasRect { x: 0, y: 0, width: size[0], height: size[1] }
}

/// The revision after `revision`: one more, skipping zero on wrap-around.
pub open spec fn next_revision(revision: u64) -> u64 {
    if revision == u64::MAX {
        1
    } else {
        (revision + 1) as u64
    }
}

/// The box a text rectangle occupies with its one-texel padding.
pub open spec fn boxes_disjoint(a: UiTextAtlasRect, b: UiTextAtlasRect) -> bool {
    a.x + a.width + 1 <= b.x - 1 || b.x + b.width + 1 <= a.x - 1 || a.y + a.height + 1 <= b.y
        - 1 || b.y + b.height + 1 <= a.y - 1
}

/// A text rectangle lies, with its padding, inside an atlas of `size`, and
/// the shelf packer at `cursor` with shelf height `row_height` has passed it.
pub open spec fn packed_rect(
    r: UiTextAtlasRect,
    size: [u16; 2],
    cursor: [u16; 2],
    row_height: u16,
) -> bool {
    &&& r.x >= 1
    &&& r.y >= 1
    &&& r.x + r.width + 1 <= size[0]
    &&& r.y + r.height + 1 <= size[1]
    &&& (r.y + r.height + 1 <= cursor[1] || (r.y >= cursor[1] + 1 && r.x + r.width + 1
        <= cursor[0] && r.y + r.height + 1 <= cursor[1] + row_height))
}

impl UiTextAtlasView {
    /// Coverage at texel (`x`, `y`).
    pub open spec fn pixel(self, x: int, y: int) -> u8 {
        self.pixels[y * self.size[0] + x]
    }

    pub open spec fn well_formed(self) -> bool {
        &&& 1 <= self.size[0] <= atlas_max_side()
        &&& 1 <= self.size[1] <= atlas_max_side()
        &&& self.pixels.len() == self.size[0] * self.size[1]
        &&& self.cursor[0] <= self.size[0]
        &&& self.cursor[1] + self.row_height <= self.size[1]
        &&& self.slots.dom().finite()
        &&& forall|k: UiTextAtlasKey|
            #[trigger] self.slots.contains_key(k) ==> packed_rect(
                self.slots[k].rect,
                self.size,
                self.cursor,
                self.row_height,
            )
        &&& forall|a: UiTextAtlasKey, b: UiTextAtlasKey|
            #[trigger] self.slots.contains_key(a) && #[trigger] self.slots.contains_key(b) && a
                != b ==> boxes_disjoint(self.slots[a].rect, self.slots[b].rect)
        &&& self.dirty_region matches Some(r) ==> r.x + r.width <= self.size[0] && r.y + r.height
            <= self.size[1]
    }
}


/// The shelf packer asked to place a text of `estimated` texels (plus one
/// texel of padding on every side) in an atlas of `size`: the rectangle it
/// places, if any, and its cursor and shelf height afterwards. A text that
/// does not fit on the current shelf starts a new shelf below it, even when
/// it then does not fit at all.
pub open spec fn shelf_allocate(
    size: [u16; 2],
    cursor: [u16; 2],
    row_height: u16,
    estimated: [u16; 2],
) -> (Option<UiTextAtlasRect>, [u16; 2], u16) {
    let w = estimated[0] + 2;
    let h = estimated[1] + 2;
    if w > size[0] || h > size[1] {
        (None, cursor, row_height)
    } else {
        let wraps = cursor[0] + w > size[0];
        let cx: int = if wraps { 0 } else { cursor[0] as int };
        let cy: int = if wraps { cursor[1] + row_height } else { cursor[1] as int };
        let rh: int = if wraps { 0 } else { row_height as int };
        if cy + h > size[1] {
            (
                None,
                if wraps { [0u16, (cursor[1] + row_height) as u16] } else { cursor },
                rh as u16,
            )
        } else {
            (
                Some(
                    UiTextAtlasRect {
                        x: (cx + 1) as u16,
                        y: (cy + 1) as u16,
                        width: estimated[0],
                        height: estimated[1],
                    },
                ),
                [(cx + w) as u16, cy as u16],
                (if rh >= h { rh } else { h }) as u16,
            )
        }
    }
}

/// The shelf packer keeps every placed text inside the atlas and behind its
/// cursor, and places a new text clear of every other.
proof fn lemma_shelf_allocate(v: UiTextAtlasView, estimated: [u16; 2])
    requires
        v.well_formed(),
    ensures
        ({
            let (r, c, rh) = shelf_allocate(v.size, v.cursor, v.row_height, estimated);
            &&& c[0] <= v.size[0]
            &&& c[1] + rh <= v.size[1]
            &&& forall|k: UiTextAtlasKey|
                #[trigger] v.slots.contains_key(k) ==> packed_rect(v.slots[k].rect, v.size, c, rh)
            &&& r matches Some(rect) ==> packed_rect(rect, v.size, c, rh) && forall|k: UiTextAtlasKey|
                #[trigger] v.slots.contains_key(k) ==> boxes_disjoint(v.slots[k].rect, rect)
        }),
{
}

impl UiTextAtlasView {
    /// The atlas with the shelf packer at `cursor` with shelf height
    /// `row_height`.
    pub open spec fn with_cursor(self, cursor: [u16; 2], row_height: u16) -> UiTextAtlasView {
        UiTextAtlasView { cursor, row_height, ..self }
    }

    /// The atlas once emptied: no text, all coverage zero, dirty as a whole,
    /// at the next revision.
    pub open spec fn cleared(self) -> UiTextAtlasView {
        UiTextAtlasView {
            cursor: [0u16, 0u16],
            row_height: 0,
            slots: Map::empty(),
            pixels: Seq::new(self.pixels.len(), |i: int| 0u8),
            dirty: true,
            dirty_region: Some(full_rect(self.size)),
            revision: next_revision(self.revision),
            ..self
        }
    }
}

/// A side after the atlas grows: doubled, up to the largest side.
pub open spec fn grown_side(side: u16) -> u16 {
    if 2 * side > atlas_max_side() {
        atlas_max_side() as u16
    } else {
        (2 * side) as u16
    }
}

/// Byte `i` of the coverage once an atlas of `old_size` is laid out in
/// `new_size`: the texel at the same coordinates, or zero in the new area.
pub open spec fn relaid_byte(old: Seq<u8>, old_size: [u16; 2], new_size: [u16; 2], i: int) -> u8 {
    let x = i % (new_size[0] as int);
    let y = i / (new_size[0] as int);
    if x < old_size[0] && y < old_size[1] {
        old[y * old_size[0] + x]
    } else {
        0
    }
}

impl UiTextAtlasView {
    /// The size the atlas grows to.
    pub open spec fn grown_size(self) -> [u16; 2] {
        [grown_side(self.size[0]), grown_side(self.size[1])]
    }

    /// Whether the atlas can still grow.
    pub open spec fn can_grow(self) -> bool {
        self.grown_size() != self.size
    }

    /// The atlas once grown: every texel keeps its coordinates, the new area
    /// is empty, and the whole atlas is dirty at the next revision. Slots
    /// and the shelf packer are unchanged.
    pub open spec fn grown(self) -> UiTextAtlasView {
        let size = self.grown_size();
        UiTextAtlasView {
            size,
            pixels: Seq::new(
                (size[0] * size[1]) as nat,
                |i: int| relaid_byte(self.pixels, self.size, size, i),
            ),
            dirty: true,
            dirty_region: Some(full_rect(size)),
            revision: next_revision(self.revision),
            ..self
        }
    }
}

/// Byte `i` of an atlas `width` texels wide once the first `rows` rows of
/// `raster`, and `cols` bytes of the next one, are copied to `rect`; only
/// the `copy_width` leftmost bytes of each raster row are copied.
pub open spec fn copied_byte(
    pixels: Seq<u8>,
    width: int,
    rect: UiTextAtlasRect,
    raster: Seq<u8>,
    raster_width: int,
    copy_width: int,
    rows: int,
    cols: int,
    i: int,
) -> u8 {
    let x = i % width;
    let y = i / width;
    let dx = x - rect.x;
    let dy = y - rect.y;
    if 0 <= dx < copy_width && 0 <= dy && (dy < rows || (dy == rows && dx < cols)) {
        raster[dy * raster_width + dx]
    } else {
        pixels[i]
    }
}

/// The dirty region once `rect` is dirtied too.
pub open spec fn dirty_with(region: Option<UiTextAtlasRect>, rect: UiTextAtlasRect, size: [u16; 2]) -> Option<UiTextAtlasRect> {
    Some(
        match region {
            None => rect,
            Some(current) => merged_rect(current, rect, size),
        },
    )
}

impl UiTextAtlasView {
    /// The atlas once the raster (`raster_width` × `raster_height` bytes) is
    /// copied into `rect`, as much of it as fits the rectangle; the
    /// rectangle is dirtied and the revision advances.
    pub open spec fn written(
        self,
        rect: UiTextAtlasRect,
        raster: Seq<u8>,
        raster_width: int,
        raster_height: int,
    ) -> UiTextAtlasView {
        let copy_width = if rect.width <= raster_width { rect.width as int } else { raster_width };
        let copy_height = if rect.height <= raster_height { rect.height as int } else { raster_height };
        UiTextAtlasView {
            pixels: Seq::new(
                self.pixels.len(),
                |i: int|
                    copied_byte(
                        self.pixels,
                        self.size[0] as int,
                        rect,
                        raster,
                        raster_width,
                        copy_width,
                        copy_height,
                        0,
                        i,
                    ),
            ),
            dirty: true,
            dirty_region: dirty_with(self.dirty_region, rect, self.size),
            revision: next_revision(self.revision),
            ..self
        }
    }
}

/// Size of a raster in texels, each side clamped to `u16::MAX`.
pub open spec fn estimated_size_of(width: usize, height: usize) -> [u16; 2] {
    [
        if width > u16::MAX { u16::MAX } else { width as u16 },
        if height > u16::MAX { u16::MAX } else { height as u16 },
    ]
}

impl UiTextAtlasView {
    /// The atlas also holding `key` at `rect`, used in the current frame.
    pub open spec fn with_slot(self, key: UiTextAtlasKey, rect: UiTextAtlasRect, estimated: [u16; 2]) -> UiTextAtlasView {
        UiTextAtlasView {
            slots: self.slots.insert(
                key,
                UiTextAtlasSlot { rect, estimated_size: estimated, last_used_frame: self.frame },
            ),
            ..self
        }
    }

    /// Placing a `raster_width` × `raster_height` raster under `key`: the
    /// shelf packer places it; failing that, the atlas grows (if it still
    /// can) and the packer tries once more. Returns the atlas afterwards and
    /// the rectangle of the text, or `None` when it overflowed.
    #[verifier::opaque]
    pub open spec fn placed(
        self,
        key: UiTextAtlasKey,
        raster: Seq<u8>,
        raster_width: usize,
        raster_height: usize,
    ) -> (UiTextAtlasView, Option<UiTextAtlasRect>) {
        let e = estimated_size_of(raster_width, raster_height);
        let (r1, c1, h1) = shelf_allocate(self.size, self.cursor, self.row_height, e);
        let v1 = self.with_cursor(c1, h1);
        match r1 {
            Some(rect) => (
                v1.written(rect, raster, raster_width as int, raster_height as int).with_slot(
                    key,
                    rect,
                    e,
                ),
                Some(rect),
            ),
            None => if !v1.can_grow() {
                (v1, None)
            } else {
                let v2 = v1.grown();
                let (r2, c2, h2) = shelf_allocate(v2.size, v2.cursor, v2.row_height, e);
                let v3 = v2.with_cursor(c2, h2);
                match r2 {
                    Some(rect) => (
                        v3.written(rect, raster, raster_width as int, raster_height as int).with_slot(
                            key,
                            rect,
                            e,
                        ),
                        Some(rect),
                    ),
                    None => (v3, None),
                }
            },
        }
    }
}

/// The texel (`x`, `y`) lies in `rect`.
pub open spec fn in_rect(rect: UiTextAtlasRect, x: int, y: int) -> bool {
    rect.x <= x < rect.x + rect.width && rect.y <= y < rect.y + rect.height
}

/// Texts held by an atlas never overlap each other or reach past its edge.
pub proof fn law_atlas_texts_do_not_overlap(v: UiTextAtlasView, a: UiTextAtlasKey, b: UiTextAtlasKey, x: int, y: int)
    requires
        v.well_formed(),
        v.slots.contains_key(a),
        v.slots.contains_key(b),
        a != b,
    ensures
        !(in_rect(v.slots[a].rect, x, y) && in_rect(v.slots[b].rect, x, y)),
        in_rect(v.slots[a].rect, x, y) ==> 0 <= x < v.size[0] && 0 <= y < v.size[1],
{
}

proof fn lemma_texel_index(w: int, x: int, y: int)
    requires
        w > 0,
        0 <= x < w,
        0 <= y,
    ensures
        (y * w + x) % w == x,
        (y * w + x) / w == y,
{
    vstd::arithmetic::div_mod::lemma_fundamental_div_mod_converse(y * w + x, w, y, x);
}

/// Placing a text, even when the atlas has to grow for it, leaves every
/// text the atlas already held where it was, with the same coverage.
pub proof fn law_placing_text_keeps_other_texts(
    v: UiTextAtlasView,
    key: UiTextAtlasKey,
    raster: Seq<u8>,
    raster_width: usize,
    raster_height: usize,
    k: UiTextAtlasKey,
    x: int,
    y: int,
)
    requires
        v.well_formed(),
        !v.slots.contains_key(key),
        raster.len() == raster_width * raster_height,
        v.slots.contains_key(k),
        in_rect(v.slots[k].rect, x, y),
    ensures
        v.placed(key, raster, raster_width, raster_height).0.slots.contains_key(k),
        v.placed(key, raster, raster_width, raster_height).0.slots[k] == v.slots[k],
        v.placed(key, raster, raster_width, raster_height).0.pixel(x, y) == v.pixel(x, y),
{
    reveal(UiTextAtlasView::placed);
    let e = estimated_size_of(raster_width, raster_height);
    let (r1, c1, h1) = shelf_allocate(v.size, v.cursor, v.row_height, e);
    let v1 = v.with_cursor(c1, h1);
    let rect_k = v.slots[k].rect;
    lemma_shelf_allocate(v, e);
    assert(0 <= x < v.size[0] && 0 <= y < v.size[1]);
    lemma_texel_index(v.size[0] as int, x, y);
    assert(y * v.size[0] + x < v.size[0] * v.size[1]) by (nonlinear_arith)
        requires
            0 <= x < v.size[0],
            0 <= y < v.size[1],
    ;
    match r1 {
        Some(rect) => {
            assert(boxes_disjoint(rect_k, rect));
        },
        None => {
            if v1.can_grow() {
                let v2 = v1.grown();
                let w2 = v2.size[0] as int;
                assert(v2.size[0] >= v.size[0] && v2.size[1] >= v.size[1]);
                assert(v2.well_formed()) by {
                    assert forall|q: UiTextAtlasKey| #[trigger] v2.slots.contains_key(q) implies packed_rect(
                        v2.slots[q].rect,
                        v2.size,
                        v2.cursor,
                        v2.row_height,
                    ) by {
                        assert(packed_rect(v.slots[q].rect, v.size, c1, h1));
                    }
                    assert(v2.pixels.len() == v2.size[0] * v2.size[1]);
                }
                lemma_texel_index(w2, x, y);
                assert(y * w2 + x < v2.size[0] * v2.size[1]) by (nonlinear_arith)
                    requires
                        w2 == v2.size[0],
                        0 <= x < v.size[0] <= w2,
                        0 <= y < v.size[1] <= v2.size[1],
                ;
                assert(v2.pixel(x, y) == v.pixel(x, y));
                let (r2, c2, h2) = shelf_allocate(v2.size, v2.cursor, v2.row_height, e);
                lemma_shelf_allocate(v2, e);
                match r2 {
                    Some(rect) => {
                        assert(boxes_disjoint(rect_k, rect));
                    },
                    None => {},
                }
            }
        },
    }
}

/// A placed text reads back as its raster: every texel of its rectangle
/// holds the raster's coverage at the same offset.
pub proof fn law_placed_text_holds_its_raster(
    v: UiTextAtlasView,
    key: UiTextAtlasKey,
    raster: Seq<u8>,
    raster_width: usize,
    raster_height: usize,
    x: int,
    y: int,
)
    requires
        v.well_formed(),
        !v.slots.contains_key(key),
        raster.len() == raster_width * raster_height,
        v.placed(key, raster, raster_width, raster_height).1 matches Some(rect) && in_rect(rect, x, y),
    ensures
        ({
            let (after, placed) = v.placed(key, raster, raster_width, raster_height);
            let rect = placed->0;
            &&& after.slots.contains_key(key)
            &&& after.slots[key].rect == rect
            &&& after.pixel(x, y) == raster[(y - rect.y) * raster_width + (x - rect.x)]
        }),
{
    reveal(UiTextAtlasView::placed);
    let e = estimated_size_of(raster_width, raster_height);
    let (r1, c1, h1) = shelf_allocate(v.size, v.cursor, v.row_height, e);
    let v1 = v.with_cursor(c1, h1);
    lemma_shelf_allocate(v, e);
    match r1 {
        Some(rect) => {
            lemma_texel_index(v.size[0] as int, x, y);
            assert(y * v.size[0] + x < v.size[0] * v.size[1]) by (nonlinear_arith)
                requires
                    0 <= x < v.size[0],
                    0 <= y < v.size[1],
            ;
        },
        None => {
            let v2 = v1.grown();
            assert(v2.well_formed()) by {
                assert forall|q: UiTextAtlasKey| #[trigger] v2.slots.contains_key(q) implies packed_rect(
                    v2.slots[q].rect,
                    v2.size,
                    v2.cursor,
                    v2.row_height,
                ) by {
                    assert(packed_rect(v.slots[q].rect, v.size, c1, h1));
                }
            }
            lemma_shelf_allocate(v2, e);
            let w2 = v2.size[0] as int;
            lemma_texel_index(w2, x, y);
            assert(y * w2 + x < v2.size[0] * v2.size[1]) by (nonlinear_arith)
                requires
                    w2 == v2.size[0],
                    0 <= x < w2,
                    0 <= y < v2.size[1],
            ;
        },
    }
}

/// Placing a text adds its slot when it fits and keeps every other slot.
pub proof fn lemma_placed_slots(
    v: UiTextAtlasView,
    key: UiTextAtlasKey,
    raster: Seq<u8>,
    raster_width: usize,
    raster_height: usize,
)
    ensures
        ({
            let (after, placed) = v.placed(key, raster, raster_width, raster_height);
            &&& after.frame == v.frame
            &&& after.slots == match placed {
                Some(rect) => v.slots.insert(
                    key,
                    UiTextAtlasSlot {
                        rect,
                        estimated_size: estimated_size_of(raster_width, raster_height),
                        last_used_frame: v.frame,
                    },
                ),
                None => v.slots,
            }
        }),
{
    reveal(UiTextAtlasView::placed);
}

impl UiTextAtlasView {
    /// The atlas once the text of `key` is marked as used in the current
    /// frame.
    pub open spec fn reused(self, key: UiTextAtlasKey) -> UiTextAtlasView {
        UiTextAtlasView {
            slots: self.slots.insert(
                key,
                UiTextAtlasSlot { last_used_frame: self.frame, ..self.slots[key] },
            ),
            ..self
        }
    }
}

/// What one pass over the texts of a frame counted.
pub struct UiTextPassCounts {
    /// Texts the atlas held when the pass reached them.
    pub reused: nat,
    /// Texts placed in the atlas.
    pub allocated: nat,
    /// Texts whose placement failed.
    pub overflowed: nat,
}

/// The atlas and the counters after a pass has handled the first `n` texts
/// `keys`, starting from `v0`: a text the atlas holds is marked as used;
/// any other is placed from `rasters[i]`, its rasterization, and counted as
/// allocated when that succeeds and as overflowed when it fails.
pub open spec fn sync_pass_state(
    v0: UiTextAtlasView,
    keys: Seq<UiTextAtlasKey>,
    rasters: Seq<UiTextRaster>,
    n: nat,
) -> (UiTextAtlasView, UiTextPassCounts)
    decreases n,
{
    if n == 0 {
        (v0, UiTextPassCounts { reused: 0, allocated: 0, overflowed: 0 })
    } else {
        let (v, c) = sync_pass_state(v0, keys, rasters, (n - 1) as nat);
        let k = keys[n - 1];
        if v.slots.contains_key(k) {
            (v.reused(k), UiTextPassCounts { reused: c.reused + 1, ..c })
        } else {
            let r = rasters[n - 1];
            let (v2, placed) = v.placed(k, r.pixels_spec(), r.width_spec(), r.height_spec());
            if placed is Some {
                (v2, UiTextPassCounts { allocated: c.allocated + 1, ..c })
            } else {
                (v2, UiTextPassCounts { overflowed: c.overflowed + 1, ..c })
            }
        }
    }
}

/// The rasters of a pass are those `rasterize` returns: `rasters[i]` is a
/// result of `rasterize(i)` for every text the pass had to place.
pub open spec fn rasterized_by<F: Fn(usize) -> UiTextRaster>(
    rasterize: F,
    v0: UiTextAtlasView,
    keys: Seq<UiTextAtlasKey>,
    rasters: Seq<UiTextRaster>,
) -> bool {
    &&& rasters.len() == keys.len()
    &&& forall|i: int|
        0 <= i < keys.len() && !sync_pass_state(v0, keys, rasters, i as nat).0.slots.contains_key(
            keys[i],
        ) ==> call_ensures(rasterize, (i as usize,), #[trigger] rasters[i])
}

/// A pass from `v0` over `keys` with rasters from `rasterize` ends in `v1`
/// with `stats`.
pub open spec fn pass_explains<F: Fn(usize) -> UiTextRaster>(
    rasterize: F,
    v0: UiTextAtlasView,
    keys: Seq<UiTextAtlasKey>,
    rasters: Seq<UiTextRaster>,
    v1: UiTextAtlasView,
    stats: UiTextAtlasSyncStats,
) -> bool {
    let (v, c) = sync_pass_state(v0, keys, rasters, keys.len());
    &&& rasterized_by(rasterize, v0, keys, rasters)
    &&& v1 == v
    &&& stats.reused == c.reused
    &&& stats.allocated == c.allocated
    &&& stats.overflowed == c.overflowed
}

proof fn lemma_sync_pass_prefix(
    v0: UiTextAtlasView,
    keys: Seq<UiTextAtlasKey>,
    a: Seq<UiTextRaster>,
    b: Seq<UiTextRaster>,
    n: nat,
)
    requires
        forall|j: int| 0 <= j < n ==> a[j] == b[j],
    ensures
        sync_pass_state(v0, keys, a, n) == sync_pass_state(v0, keys, b, n),
    decreases n,
{
    if n > 0 {
        lemma_sync_pass_prefix(v0, keys, a, b, (n - 1) as nat);
    }
}

/// The frame after `frame` (wrapping).
pub open spec fn next_frame(frame: u64) -> u64 {
    if frame == u64::MAX {
        0
    } else {
        (frame + 1) as u64
    }
}

/// A sync of `keys` took the atlas from `before` to `after` with `stats`:
/// the frame advances and a pass runs with the rasters `first`; when some
/// text overflowed in it, the atlas is cleared (the texts it then held are
/// evicted) and a second pass runs with the rasters `second`, whose counters
/// are reported.
pub open spec fn sync_explains<F: Fn(usize) -> UiTextRaster>(
    rasterize: F,
    before: UiTextAtlasView,
    keys: Seq<UiTextAtlasKey>,
    first: Seq<UiTextRaster>,
    second: Seq<UiTextRaster>,
    after: UiTextAtlasView,
    stats: UiTextAtlasSyncStats,
) -> bool {
    let start = UiTextAtlasView { frame: next_frame(before.frame), ..before };
    let (v1, c1) = sync_pass_state(start, keys, first, keys.len());
    &&& rasterized_by(rasterize, start, keys, first)
    &&& if c1.overflowed == 0 {
        &&& after == v1
        &&& stats.reused == c1.reused
        &&& stats.allocated == c1.allocated
        &&& stats.overflowed == 0
        &&& stats.evicted == 0
    } else {
        let restart = v1.cleared();
        let (v2, c2) = sync_pass_state(restart, keys, second, keys.len());
        &&& rasterized_by(rasterize, restart, keys, second)
        &&& after == v2
        &&& stats.reused == c2.reused
        &&& stats.allocated == c2.allocated
        &&& stats.overflowed == c2.overflowed
        &&& stats.evicted == v1.slots.dom().len()
    }
}

struct AtlasEntry {
    key: UiTextAtlasKey,
    slot: UiTextAtlasSlot,
}

/// Bounded alpha atlas of rasterized text, packed shelf by shelf, shared by
/// the GPU compositor and the software path.
pub struct UiTextAtlas {
    size: [u16; 2],
    cursor: [u16; 2],
    row_height: u16,
    frame: u64,
    entries: Vec<AtlasEntry>,
    pixels: Vec<u8>,
    dirty: bool,
    dirty_region: Option<UiTextAtlasRect>,
    revision: u64,
}

spec fn slot_map(s: Seq<AtlasEntry>) -> Map<UiTextAtlasKey, UiTextAtlasSlot> {
    Map::new(
        |k: UiTextAtlasKey| exists|i: int| 0 <= i < s.len() && s[i].key == k,
        |k: UiTextAtlasKey| s[choose|i: int| 0 <= i < s.len() && s[i].key == k].slot,
    )
}

spec fn distinct_entries(s: Seq<AtlasEntry>) -> bool {
    forall|i: int, j: int|
        0 <= i < s.len() && 0 <= j < s.len() && i != j ==> (#[trigger] s[i]).key != (
        #[trigger] s[j]).key
}

proof fn lemma_slot_at(s: Seq<AtlasEntry>, i: int)
    requires
        distinct_entries(s),
        0 <= i < s.len(),
    ensures
        slot_map(s).contains_key(s[i].key),
        slot_map(s)[s[i].key] == s[i].slot,
{
    let c = choose|c: int| 0 <= c < s.len() && s[c].key == s[i].key;
    assert(c == i);
}

proof fn lemma_slot_map_finite(s: Seq<AtlasEntry>)
    requires
        distinct_entries(s),
    ensures
        slot_map(s).dom().finite(),
        slot_map(s).dom().len() == s.len(),
{
    let keys = s.map_values(|e: AtlasEntry| e.key);
    assert forall|k: UiTextAtlasKey| slot_map(s).dom().contains(k) <==> keys.to_set().contains(k) by {
        if slot_map(s).dom().contains(k) {
            let i = choose|i: int| 0 <= i < s.len() && s[i].key == k;
            assert(keys[i] == k);
        }
        if keys.to_set().contains(k) {
            let i = choose|i: int| 0 <= i < keys.len() && keys[i] == k;
            assert(s[i].key == k);
        }
    }
    assert(slot_map(s).dom() =~= keys.to_set());
    assert forall|i: int, j: int| 0 <= i < keys.len() && 0 <= j < keys.len() && i != j implies keys[i]
        != keys[j] by {
        assert(keys[i] == s[i].key && keys[j] == s[j].key);
    }
    keys.unique_seq_to_set();
}

proof fn lemma_slot_map_push(s: Seq<AtlasEntry>, e: AtlasEntry)
    requires
        distinct_entries(s),
        !slot_map(s).contains_key(e.key),
    ensures
        distinct_entries(s.push(e)),
        slot_map(s.push(e)) == slot_map(s).insert(e.key, e.slot),
{
    let t = s.push(e);
    assert forall|a: int, b: int| 0 <= a < t.len() && 0 <= b < t.len() && a != b implies (
    #[trigger] t[a]).key != (#[trigger] t[b]).key by {
        if a < s.len() && b < s.len() {
            assert(t[a] == s[a] && t[b] == s[b]);
        } else if a < s.len() {
            assert(t[a] == s[a]);
            if s[a].key == e.key {
                assert(slot_map(s).contains_key(e.key));
            }
        } else {
            assert(t[b] == s[b]);
            if s[b].key == e.key {
                assert(slot_map(s).contains_key(e.key));
            }
        }
    }
    assert forall|k: UiTextAtlasKey| #[trigger] slot_map(t).contains_key(k) <==> slot_map(s).insert(
        e.key,
        e.slot,
    ).contains_key(k) by {
        if slot_map(t).contains_key(k) {
            let a = choose|a: int| 0 <= a < t.len() && t[a].key == k;
            if a < s.len() {
                assert(s[a].key == k);
            }
        }
        if slot_map(s).contains_key(k) {
            let a = choose|a: int| 0 <= a < s.len() && s[a].key == k;
            assert(t[a].key == k);
        }
        if k == e.key {
            assert(t[s.len() as int].key == k);
        }
    }
    assert forall|k: UiTextAtlasKey| #[trigger] slot_map(t).contains_key(k) implies slot_map(t)[k]
        == slot_map(s).insert(e.key, e.slot)[k] by {
        let a = choose|a: int| 0 <= a < t.len() && t[a].key == k;
        lemma_slot_at(t, a);
        if a < s.len() {
            assert(t[a] == s[a]);
            lemma_slot_at(s, a);
        }
    }
    assert(slot_map(t) =~= slot_map(s).insert(e.key, e.slot));
}

proof fn lemma_slot_map_update(s: Seq<AtlasEntry>, i: int, slot: UiTextAtlasSlot)
    requires
        distinct_entries(s),
        0 <= i < s.len(),
    ensures
        distinct_entries(s.update(i, AtlasEntry { key: s[i].key, slot })),
        slot_map(s.update(i, AtlasEntry { key: s[i].key, slot })) == slot_map(s).insert(
            s[i].key,
            slot,
        ),
{
    let t = s.update(i, AtlasEntry { key: s[i].key, slot });
    assert forall|a: int, b: int| 0 <= a < t.len() && 0 <= b < t.len() && a != b implies (
    #[trigger] t[a]).key != (#[trigger] t[b]).key by {
        assert(t[a].key == s[a].key && t[b].key == s[b].key);
    }
    assert forall|k: UiTextAtlasKey| #[trigger] slot_map(t).contains_key(k) <==> slot_map(s).insert(
        s[i].key,
        slot,
    ).contains_key(k) by {
        if slot_map(t).contains_key(k) {
            let a = choose|a: int| 0 <= a < t.len() && t[a].key == k;
            assert(s[a].key == k);
        }
        if slot_map(s).contains_key(k) {
            let a = choose|a: int| 0 <= a < s.len() && s[a].key == k;
            assert(t[a].key == k);
        }
    }
    assert forall|k: UiTextAtlasKey| #[trigger] slot_map(t).contains_key(k) implies slot_map(t)[k]
        == slot_map(s).insert(s[i].key, slot)[k] by {
        let a = choose|a: int| 0 <= a < t.len() && t[a].key == k;
        lemma_slot_at(t, a);
        if a != i {
            assert(t[a] == s[a]);
            lemma_slot_at(s, a);
        }
    }
    assert(slot_map(t) =~= slot_map(s).insert(s[i].key, slot));
}

impl View for UiTextAtlas {
    type V = UiTextAtlasView;

    closed spec fn view(&self) -> UiTextAtlasView {
        UiTextAtlasView {
            size: self.size,
            cursor: self.cursor,
            row_height: self.row_height,
            frame: self.frame,
            slots: slot_map(self.entries@),
            pixels: self.pixels@,
            dirty: self.dirty,
            dirty_region: self.dirty_region,
            revision: self.revision,
        }
    }
}

impl UiTextAtlas {
    pub closed spec fn well_formed(&self) -> bool {
        &&& distinct_entries(self.entries@)
        &&& self@.well_formed()
    }

    /// An empty atlas of `size` (a zero side counts as one): all coverage
    /// zero, dirty as a whole, at revision 1.
    pub fn new(size: [u16; 2]) -> (atlas: Self)
        requires
            size[0] <= atlas_max_side(),
            size[1] <= atlas_max_side(),
        ensures
            atlas.well_formed(),
            atlas@.size == [if size[0] == 0 { 1u16 } else { size[0] }, if size[1] == 0 { 1u16 } else { size[1] }],
            atlas@.cursor == [0u16, 0u16],
            atlas@.row_height == 0,
            atlas@.frame == 0,
            atlas@.slots == Map::<UiTextAtlasKey, UiTextAtlasSlot>::empty(),
            forall|i: int| 0 <= i < atlas@.pixels.len() ==> #[trigger] atlas@.pixels[i] == 0,
            atlas@.dirty,
            atlas@.dirty_region == Some(full_rect(atlas@.size)),
            atlas@.revision == 1,
    {
        let width: u16 = if size[0] == 0 { 1 } else { size[0] };
        let height: u16 = if size[1] == 0 { 1 } else { size[1] };
        assert((width as int) * (height as int) <= 2048 * 2048) by (nonlinear_arith)
            requires
                width <= 2048,
                height <= 2048,
        ;
        let count: usize = width as usize * height as usize;
        let mut pixels: Vec<u8> = Vec::new();
        let mut i: usize = 0;
        while i < count
            invariant
                i <= count,
                pixels@.len() == i,
                forall|j: int| 0 <= j < i ==> #[trigger] pixels@[j] == 0,
            decreases count - i,
        {
            pixels.push(0);
            i += 1;
        }
        let atlas = UiTextAtlas {
            size: [width, height],
            cursor: [0, 0],
            row_height: 0,
            frame: 0,
            entries: Vec::new(),
            pixels,
            dirty: true,
            dirty_region: Some(UiTextAtlasRect { x: 0, y: 0, width, height }),
            revision: 1,
        };
        proof {
            lemma_slot_map_finite(atlas.entries@);
            assert(atlas@.slots =~= Map::<UiTextAtlasKey, UiTextAtlasSlot>::empty());
        }
        atlas
    }

    /// `new`; the expected slot count is only a capacity hint.
    pub fn with_capacity(size: [u16; 2], expected_slots: usize) -> (atlas: Self)
        requires
            size[0] <= atlas_max_side(),
            size[1] <= atlas_max_side(),
        ensures
            atlas.well_formed(),
            atlas@.size == [if size[0] == 0 { 1u16 } else { size[0] }, if size[1] == 0 { 1u16 } else { size[1] }],
            atlas@.cursor == [0u16, 0u16],
            atlas@.row_height == 0,
            atlas@.frame == 0,
            atlas@.slots == Map::<UiTextAtlasKey, UiTextAtlasSlot>::empty(),
            forall|i: int| 0 <= i < atlas@.pixels.len() ==> #[trigger] atlas@.pixels[i] == 0,
            atlas@.dirty,
            atlas@.dirty_region == Some(full_rect(atlas@.size)),
            atlas@.revision == 1,
    {
        UiTextAtlas::new(size)
    }

    pub fn size(&self) -> (size: [u16; 2])
        ensures
            size == self@.size,
    {
        self.size
    }

    /// Number of texts held.
    pub fn slot_count(&self) -> (count: usize)
        requires
            self.well_formed(),
        ensures
            count == self@.slots.dom().len(),
    {
        proof {
            lemma_slot_map_finite(self.entries@);
        }
        self.entries.len()
    }

    pub fn pixels(&self) -> (pixels: &[u8])
        ensures
            pixels@ == self@.pixels,
    {
        self.pixels.as_slice()
    }

    /// Whether coverage changed since the last upload.
    pub fn is_dirty(&self) -> (dirty: bool)
        ensures
            dirty == self@.dirty,
    {
        self.dirty
    }

    pub fn revision(&self) -> (revision: u64)
        ensures
            revision == self@.revision,
    {
        self.revision
    }

    /// The bounding box of the coverage changed since the last upload.
    pub fn dirty_region(&self) -> (region: Option<UiTextAtlasRect>)
        ensures
            region == self@.dirty_region,
    {
        self.dirty_region
    }

    /// Records that the coverage has been uploaded.
    pub fn mark_uploaded(&mut self)
        requires
            old(self).well_formed(),
        ensures
            final(self).well_formed(),
            final(self)@ == (UiTextAtlasView { dirty: false, dirty_region: None, ..old(self)@ }),
    {
        self.dirty = false;
        self.dirty_region = None;
    }

    /// The slot of a text, if the atlas holds it.
    pub fn slot_for(&self, key: UiTextAtlasKey) -> (slot: Option<UiTextAtlasSlot>)
        requires
            self.well_formed(),
        ensures
            slot == (if self@.slots.contains_key(key) {
                Some(self@.slots[key])
            } else {
                None::<UiTextAtlasSlot>
            }),
    {
        match self.position(key) {
            Some(i) => Some(self.entries[i].slot),
            None => None,
        }
    }

    fn position(&self, key: UiTextAtlasKey) -> (found: Option<usize>)
        requires
            self.well_formed(),
        ensures
            found is None ==> !self@.slots.contains_key(key),
            found matches Some(i) ==> i < self.entries@.len() && self.entries@[i as int].key == key
                && self@.slots.contains_key(key) && self@.slots[key] == self.entries@[i as int].slot,
    {
        let mut i: usize = 0;
        while i < self.entries.len()
            invariant
                distinct_entries(self.entries@),
                i <= self.entries@.len(),
                forall|j: int| 0 <= j < i ==> self.entries@[j].key != key,
            decreases self.entries@.len() - i,
        {
            if self.entries[i].key == key {
                proof {
                    lemma_slot_at(self.entries@, i as int);
                }
                return Some(i);
            }
            i += 1;
        }
        None
    }


    /// Removes every text: all coverage zero, dirty as a whole, at the next
    /// revision.
    pub fn clear(&mut self)
        requires
            old(self).well_formed(),
        ensures
            final(self).well_formed(),
            final(self)@ == old(self)@.cleared(),
    {
        let count: usize = self.pixels.len();
        let mut zeros: Vec<u8> = Vec::new();
        let mut i: usize = 0;
        while i < count
            invariant
                i <= count,
                zeros@.len() == i,
                forall|j: int| 0 <= j < i ==> #[trigger] zeros@[j] == 0,
            decreases count - i,
        {
            zeros.push(0);
            i += 1;
        }
        self.pixels = zeros;
        self.cursor = [0, 0];
        self.row_height = 0;
        self.entries = Vec::new();
        self.dirty = true;
        self.dirty_region = Some(UiTextAtlasRect { x: 0, y: 0, width: self.size[0], height: self.size[1] });
        self.revision = if self.revision == u64::MAX {
            1
        } else {
            self.revision + 1
        };
        proof {
            lemma_slot_map_finite(self.entries@);
            assert(self@.slots =~= Map::<UiTextAtlasKey, UiTextAtlasSlot>::empty());
            assert(self@.pixels =~= old(self)@.cleared().pixels);
        }
    }

    /// Asks the shelf packer for room for a text of `estimated` texels.
    fn allocate(&mut self, estimated: [u16; 2]) -> (rect: Option<UiTextAtlasRect>)
        requires
            old(self).well_formed(),
        ensures
            ({
                let (r, c, rh) = shelf_allocate(
                    old(self)@.size,
                    old(self)@.cursor,
                    old(self)@.row_height,
                    estimated,
                );
                &&& rect == r
                &&& final(self)@ == old(self)@.with_cursor(c, rh)
            }),
            final(self).well_formed(),
            final(self).entries@ == old(self).entries@,
    {
        proof {
            lemma_shelf_allocate(self@, estimated);
        }
        let width: u32 = estimated[0] as u32 + 2;
        let height: u32 = estimated[1] as u32 + 2;
        if width > self.size[0] as u32 || height > self.size[1] as u32 {
            return None;
        }
        if self.cursor[0] as u32 + width > self.size[0] as u32 {
            self.cursor = [0, self.cursor[1] + self.row_height];
            self.row_height = 0;
        }
        if self.cursor[1] as u32 + height > self.size[1] as u32 {
            return None;
        }
        let rect = UiTextAtlasRect {
            x: self.cursor[0] + 1,
            y: self.cursor[1] + 1,
            width: estimated[0],
            height: estimated[1],
        };
        self.cursor = [self.cursor[0] + width as u16, self.cursor[1]];
        if self.row_height < height as u16 {
            self.row_height = height as u16;
        }
        Some(rect)
    }


    /// Doubles each side up to the largest side, keeping every texel where
    /// it is; returns whether the atlas grew.
    fn grow(&mut self) -> (grew: bool)
        requires
            old(self).well_formed(),
        ensures
            final(self).well_formed(),
            grew == old(self)@.can_grow(),
            grew ==> final(self)@ == old(self)@.grown(),
            !grew ==> final(self)@ == old(self)@,
            final(self).entries@ == old(self).entries@,
    {
        let old_w: u16 = self.size[0];
        let old_h: u16 = self.size[1];
        let new_w: u16 = if old_w > 1024 { 2048 } else { old_w * 2 };
        let new_h: u16 = if old_h > 1024 { 2048 } else { old_h * 2 };
        if new_w == old_w && new_h == old_h {
            proof {
                assert(old(self)@.grown_size() =~= old(self)@.size);
            }
            return false;
        }
        proof {
            assert(old(self)@.grown_size() != old(self)@.size) by {
                if old(self)@.grown_size() == old(self)@.size {
                    assert(old(self)@.grown_size()[0] == old(self)@.size[0]);
                    assert(old(self)@.grown_size()[1] == old(self)@.size[1]);
                }
            }
        }
        let ghost old_pixels = self.pixels@;
        let ghost old_size: [u16; 2] = self.size;
        let ghost new_size: [u16; 2] = old(self)@.grown_size();
        let ow: usize = old_w as usize;
        let oh: usize = old_h as usize;
        let nw: usize = new_w as usize;
        let nh: usize = new_h as usize;
        let mut pixels: Vec<u8> = Vec::new();
        let mut y: usize = 0;
        while y < nh
            invariant
                1 <= ow <= nw <= 2048,
                1 <= oh <= nh <= 2048,
                old_pixels.len() == ow * oh,
                old_pixels == self.pixels@,
                new_size[0] == nw,
                new_size[1] == nh,
                old_size[0] == ow,
                old_size[1] == oh,
                y <= nh,
                pixels@.len() == y * nw,
                forall|i: int| 0 <= i < pixels@.len() ==> #[trigger] pixels@[i] == relaid_byte(
                    old_pixels,
                    old_size,
                    new_size,
                    i,
                ),
            decreases nh - y,
        {
            let mut x: usize = 0;
            while x < nw
                invariant
                    1 <= ow <= nw <= 2048,
                    1 <= oh <= nh <= 2048,
                    old_pixels.len() == ow * oh,
                    old_pixels == self.pixels@,
                    new_size[0] == nw,
                    new_size[1] == nh,
                    old_size[0] == ow,
                    old_size[1] == oh,
                    y < nh,
                    x <= nw,
                    pixels@.len() == y * nw + x,
                    forall|i: int| 0 <= i < pixels@.len() ==> #[trigger] pixels@[i] == relaid_byte(
                        old_pixels,
                        old_size,
                        new_size,
                        i,
                    ),
                decreases nw - x,
            {
                let ghost i = (y * nw + x) as int;
                proof {
                    vstd::arithmetic::div_mod::lemma_fundamental_div_mod_converse(i, nw as int, y as int, x as int);
                }
                if x < ow && y < oh {
                    assert(y * ow + x < ow * oh && ow * oh <= 2048 * 2048) by (nonlinear_arith)
                        requires
                            x < ow,
                            y < oh,
                            ow <= 2048,
                            oh <= 2048,
                    ;
                    pixels.push(self.pixels[y * ow + x]);
                } else {
                    pixels.push(0);
                }
                x += 1;
            }
            assert((y + 1) * nw == y * nw + nw) by (nonlinear_arith);
            y += 1;
        }
        self.size = [new_w, new_h];
        self.pixels = pixels;
        self.dirty = true;
        self.dirty_region = Some(UiTextAtlasRect { x: 0, y: 0, width: new_w, height: new_h });
        self.revision = if self.revision == u64::MAX {
            1
        } else {
            self.revision + 1
        };
        proof {
            assert(nh * nw == nw * nh) by (nonlinear_arith);
            assert(self@.pixels =~= old(self)@.grown().pixels);
            assert(self@.size == old(self)@.grown_size());
            let v = self@;
            let o = old(self)@;
            assert forall|k: UiTextAtlasKey| #[trigger] v.slots.contains_key(k) implies packed_rect(
                v.slots[k].rect,
                v.size,
                v.cursor,
                v.row_height,
            ) by {
                assert(o.slots.contains_key(k));
            }
        }
        true
    }


    /// Copies a raster into `rect` and dirties it.
    fn write_raster(&mut self, rect: UiTextAtlasRect, raster: &UiTextRaster)
        requires
            old(self).well_formed(),
            rect.x + rect.width <= old(self)@.size[0],
            rect.y + rect.height <= old(self)@.size[1],
        ensures
            final(self).well_formed(),
            final(self)@ == old(self)@.written(
                rect,
                raster.pixels_spec(),
                raster.width_spec() as int,
                raster.height_spec() as int,
            ),
            final(self).entries@ == old(self).entries@,
    {
        proof {
            use_type_invariant(raster);
        }
        let raster_len: usize = raster.pixel_count();
        let atlas_width: usize = self.size[0] as usize;
        let copy_width: usize = if (rect.width as usize) <= raster.width {
            rect.width as usize
        } else {
            raster.width
        };
        let copy_height: usize = if (rect.height as usize) <= raster.height {
            rect.height as usize
        } else {
            raster.height
        };
        let ghost pixels0 = self.pixels@;
        let ghost w = atlas_width as int;
        let ghost h = self.size[1] as int;
        let rx: usize = rect.x as usize;
        let ry: usize = rect.y as usize;
        let rw: usize = raster.width;
        let mut row: usize = 0;
        while row < copy_height
            invariant
                self.pixels@.len() == pixels0.len(),
                self.size == old(self).size,
                self.entries@ == old(self).entries@,
                self.cursor == old(self).cursor,
                self.row_height == old(self).row_height,
                self.frame == old(self).frame,
                self.dirty == old(self).dirty,
                self.dirty_region == old(self).dirty_region,
                self.revision == old(self).revision,
                pixels0.len() == w * h,
                1 <= w <= 2048,
                1 <= h <= 2048,
                atlas_width == w,
                rx == rect.x,
                ry == rect.y,
                rw == raster.width_spec(),
                raster.pixels_spec().len() == raster.width_spec() * raster.height_spec(),
                raster.pixels_spec().len() == raster_len,
                rx + copy_width <= w,
                ry + copy_height <= h,
                copy_width <= rw,
                copy_height <= raster.height_spec(),
                row <= copy_height,
                forall|i: int|
                    0 <= i < self.pixels@.len() ==> #[trigger] self.pixels@[i] == copied_byte(
                        pixels0,
                        w,
                        rect,
                        raster.pixels_spec(),
                        rw as int,
                        copy_width as int,
                        row as int,
                        0,
                        i,
                    ),
            decreases copy_height - row,
        {
            let mut col: usize = 0;
            while col < copy_width
                invariant
                    self.pixels@.len() == pixels0.len(),
                    self.size == old(self).size,
                    self.entries@ == old(self).entries@,
                    self.cursor == old(self).cursor,
                    self.row_height == old(self).row_height,
                    self.frame == old(self).frame,
                    self.dirty == old(self).dirty,
                    self.dirty_region == old(self).dirty_region,
                    self.revision == old(self).revision,
                    pixels0.len() == w * h,
                    1 <= w <= 2048,
                    1 <= h <= 2048,
                    atlas_width == w,
                    rx == rect.x,
                    ry == rect.y,
                    rw == raster.width_spec(),
                    raster.pixels_spec().len() == raster.width_spec() * raster.height_spec(),
                    raster.pixels_spec().len() == raster_len,
                    rx + copy_width <= w,
                    ry + copy_height <= h,
                    copy_width <= rw,
                    copy_height <= raster.height_spec(),
                    row < copy_height,
                    col <= copy_width,
                    forall|i: int|
                        0 <= i < self.pixels@.len() ==> #[trigger] self.pixels@[i] == copied_byte(
                            pixels0,
                            w,
                            rect,
                            raster.pixels_spec(),
                            rw as int,
                            copy_width as int,
                            row as int,
                            col as int,
                            i,
                        ),
                decreases copy_width - col,
            {
                let ghost t = ((ry + row) * atlas_width + rx + col) as int;
                assert(t < w * h && w * h <= 2048 * 2048 && row * rw + col < raster.pixels_spec().len()) by (nonlinear_arith)
                    requires
                        w <= 2048,
                        h <= 2048,
                        t == (ry + row) * w + rx + col,
                        ry + row < h,
                        rx + col < w,
                        row < raster.height_spec(),
                        col < rw,
                        raster.pixels_spec().len() == rw * raster.height_spec(),
                ;
                let target: usize = (ry + row) * atlas_width + rx + col;
                let value: u8 = raster.pixels[row * rw + col];
                let ghost before = self.pixels@;
                self.pixels.set(target, value);
                proof {
                    vstd::arithmetic::div_mod::lemma_fundamental_div_mod_converse(
                        t,
                        w,
                        (ry + row) as int,
                        (rx + col) as int,
                    );
                    assert forall|i: int| 0 <= i < self.pixels@.len() implies #[trigger] self.pixels@[i]
                        == copied_byte(
                        pixels0,
                        w,
                        rect,
                        raster.pixels_spec(),
                        rw as int,
                        copy_width as int,
                        row as int,
                        col + 1,
                        i,
                    ) by {
                        if i != t {
                            vstd::arithmetic::div_mod::lemma_fundamental_div_mod(i, w);
                            assert(before[i] == self.pixels@[i]);
                            if i % w == rx + col && i / w == ry + row {
                                assert(i == w * (ry + row) + rx + col);
                                assert(w * (ry + row) == (ry + row) * w) by (nonlinear_arith);
                            }
                        }
                    }
                }
                col += 1;
            }
            proof {
                assert forall|i: int| 0 <= i < self.pixels@.len() implies #[trigger] self.pixels@[i]
                    == copied_byte(
                    pixels0,
                    w,
                    rect,
                    raster.pixels_spec(),
                    rw as int,
                    copy_width as int,
                    row + 1,
                    0,
                    i,
                ) by {
                    assert(self.pixels@[i] == copied_byte(
                        pixels0,
                        w,
                        rect,
                        raster.pixels_spec(),
                        rw as int,
                        copy_width as int,
                        row as int,
                        copy_width as int,
                        i,
                    ));
                }
            }
            row += 1;
        }
        self.dirty = true;
        self.dirty_region = Some(merge_rects(self.dirty_region, rect, self.size));
        self.revision = if self.revision == u64::MAX {
            1
        } else {
            self.revision + 1
        };
        proof {
            let target = old(self)@.written(
                rect,
                raster.pixels_spec(),
                raster.width_spec() as int,
                raster.height_spec() as int,
            );
            assert forall|i: int| 0 <= i < self.pixels@.len() implies #[trigger] self.pixels@[i]
                == target.pixels[i] by {
                assert(self.pixels@[i] == copied_byte(
                    pixels0,
                    w,
                    rect,
                    raster.pixels_spec(),
                    rw as int,
                    copy_width as int,
                    copy_height as int,
                    0,
                    i,
                ));
            }
            assert(self@.pixels =~= target.pixels);
            match old(self)@.dirty_region {
                Some(current) => {
                    law_merged_rect_stays_inside(current, rect, self.size);
                },
                None => {},
            }
        }
    }


    /// Places the raster of a text the atlas does not hold yet, growing the
    /// atlas if the text does not fit. Returns its rectangle, or `None`
    /// when it does not fit even then.
    pub fn place_raster(&mut self, key: UiTextAtlasKey, raster: &UiTextRaster) -> (rect: Option<
        UiTextAtlasRect,
    >)
        requires
            old(self).well_formed(),
            !old(self)@.slots.contains_key(key),
        ensures
            final(self).well_formed(),
            (final(self)@, rect) == old(self)@.placed(
                key,
                raster.pixels_spec(),
                raster.width_spec(),
                raster.height_spec(),
            ),
    {
        proof {
            reveal(UiTextAtlasView::placed);
        }
        let e0: u16 = if raster.width() > 65535 { 65535 } else { raster.width() as u16 };
        let e1: u16 = if raster.height() > 65535 { 65535 } else { raster.height() as u16 };
        let estimated: [u16; 2] = [e0, e1];
        proof {
            assert(estimated == estimated_size_of(raster.width_spec(), raster.height_spec()));
        }
        let ghost before_alloc = self@;
        let rect = match self.allocate(estimated) {
            Some(rect) => {
                proof {
                    lemma_shelf_allocate(before_alloc, estimated);
                }
                rect
            },
            None => {
                if !self.grow() {
                    return None;
                }
                proof {
                    let v2 = self@;
                    assert(!v2.slots.contains_key(key));
                }
                let ghost regrown = self@;
                match self.allocate(estimated) {
                    Some(rect) => {
                        proof {
                            lemma_shelf_allocate(regrown, estimated);
                        }
                        rect
                    },
                    None => {
                        return None;
                    },
                }
            },
        };
        let ghost before_write = self@;
        self.write_raster(rect, raster);
        let entry = AtlasEntry {
            key,
            slot: UiTextAtlasSlot { rect, estimated_size: estimated, last_used_frame: self.frame },
        };
        proof {
            lemma_slot_map_push(self.entries@, entry);
        }
        self.entries.push(entry);
        proof {
            lemma_slot_map_finite(self.entries@);
            let v = self@;
            let w = before_write;
            assert forall|k: UiTextAtlasKey| #[trigger] v.slots.contains_key(k) implies packed_rect(
                v.slots[k].rect,
                v.size,
                v.cursor,
                v.row_height,
            ) by {
                if k != key {
                    assert(w.slots.contains_key(k));
                }
            }
            assert forall|a: UiTextAtlasKey, b: UiTextAtlasKey|
                #[trigger] v.slots.contains_key(a) && #[trigger] v.slots.contains_key(b) && a != b implies boxes_disjoint(
                v.slots[a].rect,
                v.slots[b].rect,
            ) by {
                if a != key && b != key {
                    assert(w.slots.contains_key(a) && w.slots.contains_key(b));
                } else if a == key {
                    assert(w.slots.contains_key(b));
                } else {
                    assert(w.slots.contains_key(a));
                }
            }
        }
        Some(rect)
    }

    /// Empties the atlas so that a frame whose texts overflowed it can be
    /// packed again from scratch; returns how many texts were dropped.
    pub fn recover_from_overflow(&mut self) -> (evicted: usize)
        requires
            old(self).well_formed(),
        ensures
            final(self).well_formed(),
            evicted == old(self)@.slots.dom().len(),
            final(self)@ == old(self)@.cleared(),
    {
        let evicted = self.slot_count();
        self.clear();
        evicted
    }


    /// One pass over the texts of a frame: each text the atlas holds is
    /// marked as used, each other is rasterized and placed; texts that do
    /// not fit are counted as overflowed.
    fn sync_pass<F: Fn(usize) -> UiTextRaster>(&mut self, keys: &[UiTextAtlasKey], rasterize: &F) -> (stats:
        UiTextAtlasSyncStats)
        requires
            old(self).well_formed(),
            forall|i: usize| i < keys@.len() ==> call_requires(*rasterize, (i,)),
        ensures
            final(self).well_formed(),
            final(self)@.frame == old(self)@.frame,
            stats.evicted == 0,
            stats.reused + stats.allocated + stats.overflowed == keys@.len(),
            forall|k: UiTextAtlasKey|
                #[trigger] old(self)@.slots.contains_key(k) ==> final(self)@.slots.contains_key(k)
                    && final(self)@.slots[k].rect == old(self)@.slots[k].rect,
            forall|k: UiTextAtlasKey|
                #[trigger] final(self)@.slots.contains_key(k) ==> old(self)@.slots.contains_key(k)
                    || keys@.contains(k),
            stats.overflowed == 0 ==> forall|i: int|
                0 <= i < keys@.len() ==> final(self)@.slots.contains_key(#[trigger] keys@[i])
                    && final(self)@.slots[keys@[i]].last_used_frame == final(self)@.frame,
            exists|rasters: Seq<UiTextRaster>|
                #[trigger] pass_explains(*rasterize, old(self)@, keys@, rasters, final(self)@, stats),
    {
        let ghost s0 = self@;
        let ghost mut rasters: Seq<UiTextRaster> = Seq::empty();
        let mut stats = UiTextAtlasSyncStats::default();
        let n: usize = keys.len();
        let mut i: usize = 0;
        while i < n
            invariant
                n == keys@.len(),
                i <= n,
                self.well_formed(),
                forall|j: usize| j < keys@.len() ==> call_requires(*rasterize, (j,)),
                self@.frame == s0.frame,
                stats.evicted == 0,
                stats.reused + stats.allocated + stats.overflowed == i,
                forall|k: UiTextAtlasKey|
                    #[trigger] s0.slots.contains_key(k) ==> self@.slots.contains_key(k)
                        && self@.slots[k].rect == s0.slots[k].rect,
                forall|k: UiTextAtlasKey|
                    #[trigger] self@.slots.contains_key(k) ==> s0.slots.contains_key(k)
                        || keys@.subrange(0, i as int).contains(k),
                stats.overflowed == 0 ==> forall|j: int|
                    0 <= j < i ==> self@.slots.contains_key(#[trigger] keys@[j])
                        && self@.slots[keys@[j]].last_used_frame == s0.frame,
                rasters.len() == i,
                ({
                    let (v, c) = sync_pass_state(s0, keys@, rasters, i as nat);
                    &&& self@ == v
                    &&& stats.reused == c.reused
                    &&& stats.allocated == c.allocated
                    &&& stats.overflowed == c.overflowed
                }),
                forall|j: int|
                    0 <= j < i && !sync_pass_state(s0, keys@, rasters, j as nat).0.slots.contains_key(
                        keys@[j],
                    ) ==> call_ensures(*rasterize, (j as usize,), #[trigger] rasters[j]),
            decreases n - i,
        {
            let key = keys[i];
            let ghost before = self@;
            let ghost old_rasters = rasters;
            if self.reuse_slot(key) {
                stats.reused = stats.reused + 1;
                proof {
                    rasters = old_rasters.push(arbitrary());
                }
            } else {
                let raster = rasterize(i);
                proof {
                    rasters = old_rasters.push(raster);
                }
                proof {
                    lemma_placed_slots(before, key, raster.pixels_spec(), raster.width_spec(), raster.height_spec());
                }
                match self.place_raster(key, &raster) {
                    Some(_) => {
                        stats.allocated = stats.allocated + 1;
                    },
                    None => {
                        stats.overflowed = stats.overflowed + 1;
                    },
                }
            }
            proof {
                lemma_sync_pass_prefix(s0, keys@, old_rasters, rasters, i as nat);
                assert forall|j: int|
                    0 <= j < i + 1 && !sync_pass_state(s0, keys@, rasters, j as nat).0.slots.contains_key(
                        keys@[j],
                    ) implies call_ensures(*rasterize, (j as usize,), #[trigger] rasters[j]) by {
                    if j < i {
                        lemma_sync_pass_prefix(s0, keys@, old_rasters, rasters, j as nat);
                        assert(rasters[j] == old_rasters[j]);
                    }
                }
                let prefix = keys@.subrange(0, i as int);
                let next = keys@.subrange(0, i + 1);
                assert(next == prefix.push(key));
                assert forall|k: UiTextAtlasKey| #[trigger] self@.slots.contains_key(k) implies s0.slots.contains_key(k)
                    || next.contains(k) by {
                    if k == key {
                        assert(next[i as int] == key);
                    } else {
                        assert(before.slots.contains_key(k));
                        if prefix.contains(k) {
                            let w = choose|w: int| 0 <= w < prefix.len() && prefix[w] == k;
                            assert(next[w] == k);
                        }
                    }
                }
                if stats.overflowed == 0 {
                    assert forall|j: int| 0 <= j < i + 1 implies self@.slots.contains_key(#[trigger] keys@[j])
                        && self@.slots[keys@[j]].last_used_frame == s0.frame by {
                        if j < i {
                            assert(before.slots.contains_key(keys@[j]));
                        }
                    }
                }
            }
            i += 1;
        }
        proof {
            assert(keys@.subrange(0, n as int) == keys@);
            assert(pass_explains(*rasterize, s0, keys@, rasters, self@, stats));
        }
        stats
    }

    /// Brings the atlas up to date with the texts of a frame, in order:
    /// `rasterize(i)` rasterizes text `i` when the atlas does not hold it.
    /// Texts the atlas holds are reused and never moved. When some text
    /// does not fit even after growing, the whole frame is packed again
    /// from an empty atlas, so that no text of the frame loses its slot
    /// while the frame is being packed; the dropped texts are reported as
    /// evicted.
    pub fn sync_keys<F: Fn(usize) -> UiTextRaster>(&mut self, keys: &[UiTextAtlasKey], rasterize: &F) -> (stats:
        UiTextAtlasSyncStats)
        requires
            old(self).well_formed(),
            forall|i: usize| i < keys@.len() ==> call_requires(*rasterize, (i,)),
        ensures
            final(self).well_formed(),
            final(self)@.frame == (if old(self)@.frame == u64::MAX {
                0
            } else {
                (old(self)@.frame + 1) as u64
            }),
            stats.reused + stats.allocated + stats.overflowed == keys@.len(),
            stats.evicted == 0 ==> forall|k: UiTextAtlasKey|
                #[trigger] old(self)@.slots.contains_key(k) ==> final(self)@.slots.contains_key(k)
                    && final(self)@.slots[k].rect == old(self)@.slots[k].rect,
            stats.evicted > 0 ==> stats.evicted >= old(self)@.slots.dom().len() && forall|
                k: UiTextAtlasKey,
            | #[trigger] final(self)@.slots.contains_key(k) ==> keys@.contains(k),
            forall|k: UiTextAtlasKey|
                #[trigger] final(self)@.slots.contains_key(k) ==> old(self)@.slots.contains_key(k)
                    || keys@.contains(k),
            stats.overflowed == 0 ==> forall|i: int|
                0 <= i < keys@.len() ==> final(self)@.slots.contains_key(#[trigger] keys@[i])
                    && final(self)@.slots[keys@[i]].last_used_frame == final(self)@.frame,
            exists|first: Seq<UiTextRaster>, second: Seq<UiTextRaster>|
                #[trigger] sync_explains(
                    *rasterize,
                    old(self)@,
                    keys@,
                    first,
                    second,
                    final(self)@,
                    stats,
                ),
    {
        let ghost s0 = self@;
        self.begin_sync();
        let ghost s1 = self@;
        let mut stats = self.sync_pass(keys, rasterize);
        let ghost s2 = self@;
        let ghost st1 = stats;
        let ghost first = choose|r: Seq<UiTextRaster>| pass_explains(*rasterize, s1, keys@, r, s2, st1);
        if stats.overflowed == 0 {
            proof {
                assert(s1 == UiTextAtlasView { frame: next_frame(s0.frame), ..s0 });
                assert(sync_explains(*rasterize, s0, keys@, first, first, self@, stats));
            }
        }
        if stats.overflowed > 0 {
            proof {
                lemma_slot_map_finite(self.entries@);
                assert(s0.slots.dom().subset_of(s2.slots.dom()));
                vstd::set_lib::lemma_len_subset(s0.slots.dom(), s2.slots.dom());
            }
            let evicted = self.recover_from_overflow();
            let ghost s3 = self@;
            stats = self.sync_pass(keys, rasterize);
            let ghost s4 = self@;
            let ghost st2 = stats;
            stats.evicted = evicted;
            proof {
                let second = choose|r: Seq<UiTextRaster>| pass_explains(*rasterize, s3, keys@, r, s4, st2);
                assert(s1 == UiTextAtlasView { frame: next_frame(s0.frame), ..s0 });
                assert(sync_explains(*rasterize, s0, keys@, first, second, self@, stats));
            }
            if evicted == 0 {
                proof {
                    assert(s0.slots.dom().len() == 0);
                    assert forall|k: UiTextAtlasKey| #[trigger] s0.slots.contains_key(k) implies false by {
                        assert(s0.slots.dom().contains(k));
                    }
                }
            }
        }
        stats
    }

    /// Starts synchronizing a frame: the frame counter advances (wrapping).
    pub fn begin_sync(&mut self) -> (frame: u64)
        requires
            old(self).well_formed(),
        ensures
            final(self).well_formed(),
            frame == (if old(self)@.frame == u64::MAX { 0 } else { (old(self)@.frame + 1) as u64 }),
            final(self)@ == (UiTextAtlasView { frame, ..old(self)@ }),
    {
        self.frame = self.frame.wrapping_add(1);
        self.frame
    }

    /// Marks the text of `key` as used in the current frame, if the atlas
    /// holds it; returns whether it does.
    pub fn reuse_slot(&mut self, key: UiTextAtlasKey) -> (reused: bool)
        requires
            old(self).well_formed(),
        ensures
            final(self).well_formed(),
            reused == old(self)@.slots.contains_key(key),
            reused ==> final(self)@ == (UiTextAtlasView {
                slots: old(self)@.slots.insert(
                    key,
                    UiTextAtlasSlot { last_used_frame: old(self)@.frame, ..old(self)@.slots[key] },
                ),
                ..old(self)@
            }),
            !reused ==> final(self)@ == old(self)@,
    {
        match self.position(key) {
            Some(i) => {
                let ghost before = self.entries@;
                let mut slot = self.entries[i].slot;
                slot.last_used_frame = self.frame;
                proof {
                    lemma_slot_map_update(before, i as int, slot);
                }
                self.entries.set(i, AtlasEntry { key, slot });
                proof {
                    assert(self.entries@ == before.update(i as int, AtlasEntry { key: before[i as int].key, slot }));
                    lemma_slot_map_finite(self.entries@);
                    let v = self@;
                    let o = old(self)@;
                    assert forall|k: UiTextAtlasKey| #[trigger] v.slots.contains_key(k) implies packed_rect(
                        v.slots[k].rect,
                        v.size,
                        v.cursor,
                        v.row_height,
                    ) by {
                        assert(o.slots.contains_key(k));
                    }
                    assert forall|a: UiTextAtlasKey, b: UiTextAtlasKey|
                        #[trigger] v.slots.contains_key(a) && #[trigger] v.slots.contains_key(b) && a
                            != b implies boxes_disjoint(v.slots[a].rect, v.slots[b].rect) by {
                        assert(o.slots.contains_key(a) && o.slots.contains_key(b));
                    }
                }
                true
            },
            None => false,
        }
    }
}

impl Default for UiTextAtlas {
    /// A 1024 × 1024 atlas.
    fn default() -> (atlas: Self)
        ensures
            atlas.well_formed(),
            atlas@.size == [1024u16, 1024u16],
            atlas@.slots == Map::<UiTextAtlasKey, UiTextAtlasSlot>::empty(),
            atlas@.revision == 1,
    {
        UiTextAtlas::with_capacity([1024, 1024], 256)
    }
}

} // verus!
