//! Residency of the image textures of the GPU compositor.
//!
//! The compositor keeps one texture per image key. Textures are bounded by a
//! byte budget and an entry budget; when an upload would exceed either, the
//! least recently used textures that the current frame has not used yet are
//! evicted. Textures used by the current frame are never evicted: the frame
//! may exceed its budget instead.

use vstd::prelude::*;

use crate::ui_surface::gpu_renderer::{max_nat, mip_chain_bytes, saturate_u64, image_mip_chain_bytes, UiSurfaceGpuMetrics};
use crate::ui_surface::images::UiSurfaceImageData;

verus! {

/// What the compositor knows of one resident texture.
#[derive(Debug, Clone, Copy, PartialEq, Eq, Structural)]
pub struct UiImageTextureInfo {
    /// Revision of the image the texture was uploaded from.
    pub revision: u64,
    /// GPU bytes of the texture with its mip chain.
    pub bytes: u64,
    /// Frame in which the texture was last synchronised.
    pub last_used_frame: u64,
}

struct TextureEntry {
    key: String,
    info: UiImageTextureInfo,
}

/// Bookkeeping of the resident image textures, keyed by image key.
pub struct UiImageTextureCache {
    entries: Vec<TextureEntry>,
    resident_bytes: u64,
    budget_bytes: u64,
    entry_budget: usize,
    frame_index: u64,
}

spec fn has_key(s: Seq<TextureEntry>, k: Seq<char>) -> bool {
    exists|i: int| 0 <= i < s.len() && s[i].key@ == k
}

spec fn entries_view(s: Seq<TextureEntry>) -> Map<Seq<char>, UiImageTextureInfo> {
    Map::new(
        |k: Seq<char>| has_key(s, k),
        |k: Seq<char>| s[choose|i: int| 0 <= i < s.len() && s[i].key@ == k].info,
    )
}

spec fn distinct_keys(s: Seq<TextureEntry>) -> bool {
    forall|i: int, j: int|
        0 <= i < s.len() && 0 <= j < s.len() && i != j ==> (#[trigger] s[i]).key@ != (
        #[trigger] s[j]).key@
}

proof fn lemma_view_at(s: Seq<TextureEntry>, i: int)
    requires
        distinct_keys(s),
        0 <= i < s.len(),
    ensures
        entries_view(s).contains_key(s[i].key@),
        entries_view(s)[s[i].key@] == s[i].info,
{
    assert(has_key(s, s[i].key@));
    let c = choose|c: int| 0 <= c < s.len() && s[c].key@ == s[i].key@;
    assert(c == i);
}

proof fn lemma_view_len(s: Seq<TextureEntry>)
    requires
        distinct_keys(s),
    ensures
        entries_view(s).dom().finite(),
        entries_view(s).dom().len() == s.len(),
{
    let keys = s.map_values(|e: TextureEntry| e.key@);
    assert forall|k: Seq<char>| entries_view(s).dom().contains(k) <==> keys.to_set().contains(k) by {
        if entries_view(s).dom().contains(k) {
            let i = choose|i: int| 0 <= i < s.len() && s[i].key@ == k;
            assert(keys[i] == k);
        }
        if keys.to_set().contains(k) {
            let i = choose|i: int| 0 <= i < keys.len() && keys[i] == k;
            assert(s[i].key@ == k);
        }
    }
    assert(entries_view(s).dom() =~= keys.to_set());
    assert forall|i: int, j: int| 0 <= i < keys.len() && 0 <= j < keys.len() && i != j implies keys[i]
        != keys[j] by {
        assert(keys[i] == s[i].key@ && keys[j] == s[j].key@);
    }
    keys.unique_seq_to_set();
}

proof fn lemma_view_remove(s: Seq<TextureEntry>, i: int)
    requires
        distinct_keys(s),
        0 <= i < s.len(),
    ensures
        distinct_keys(s.remove(i)),
        entries_view(s.remove(i)) == entries_view(s).remove(s[i].key@),
{
    let t = s.remove(i);
    assert forall|a: int, b: int| 0 <= a < t.len() && 0 <= b < t.len() && a != b implies (
    #[trigger] t[a]).key@ != (#[trigger] t[b]).key@ by {
        let a0 = if a < i { a } else { a + 1 };
        let b0 = if b < i { b } else { b + 1 };
        assert(t[a] == s[a0] && t[b] == s[b0]);
    }
    assert forall|k: Seq<char>| #[trigger] entries_view(t).dom().contains(k) <==> entries_view(
        s,
    ).remove(s[i].key@).dom().contains(k) by {
        if has_key(t, k) {
            let a = choose|a: int| 0 <= a < t.len() && t[a].key@ == k;
            let a0 = if a < i { a } else { a + 1 };
            assert(s[a0].key@ == k);
        }
        if entries_view(s).remove(s[i].key@).dom().contains(k) {
            let a0 = choose|a: int| 0 <= a < s.len() && s[a].key@ == k;
            assert(a0 != i);
            let a = if a0 < i { a0 } else { a0 - 1 };
            assert(t[a].key@ == k);
        }
    }
    assert forall|k: Seq<char>| #[trigger] entries_view(t).dom().contains(k) implies entries_view(
        t,
    )[k] == entries_view(s)[k] by {
        let a = choose|a: int| 0 <= a < t.len() && t[a].key@ == k;
        let a0 = if a < i { a } else { a + 1 };
        assert(t[a] == s[a0]);
        lemma_view_at(s, a0);
    }
    assert(entries_view(t) =~= entries_view(s).remove(s[i].key@));
}

proof fn lemma_view_push(s: Seq<TextureEntry>, e: TextureEntry)
    requires
        distinct_keys(s),
        !entries_view(s).contains_key(e.key@),
    ensures
        distinct_keys(s.push(e)),
        entries_view(s.push(e)) == entries_view(s).insert(e.key@, e.info),
{
    let t = s.push(e);
    assert forall|a: int, b: int| 0 <= a < t.len() && 0 <= b < t.len() && a != b implies (
    #[trigger] t[a]).key@ != (#[trigger] t[b]).key@ by {
        if a == s.len() {
            assert(!has_key(s, e.key@));
            assert(t[b] == s[b]);
        } else if b == s.len() {
            assert(!has_key(s, e.key@));
            assert(t[a] == s[a]);
        } else {
            assert(t[a] == s[a] && t[b] == s[b]);
        }
    }
    assert forall|k: Seq<char>| #[trigger] entries_view(t).dom().contains(k) <==> entries_view(
        s,
    ).insert(e.key@, e.info).dom().contains(k) by {
        if has_key(t, k) {
            let a = choose|a: int| 0 <= a < t.len() && t[a].key@ == k;
            if a < s.len() {
                assert(s[a].key@ == k);
            }
        }
        if has_key(s, k) {
            let a = choose|a: int| 0 <= a < s.len() && s[a].key@ == k;
            assert(t[a].key@ == k);
        }
        if k == e.key@ {
            assert(t[s.len() as int].key@ == k);
        }
    }
    assert forall|k: Seq<char>| #[trigger] entries_view(t).dom().contains(k) implies entries_view(
        t,
    )[k] == entries_view(s).insert(e.key@, e.info)[k] by {
        lemma_push_lookup(s, e, k);
    }
    assert(entries_view(t) =~= entries_view(s).insert(e.key@, e.info));
}

proof fn lemma_push_lookup(s: Seq<TextureEntry>, e: TextureEntry, k: Seq<char>)
    requires
        distinct_keys(s),
        distinct_keys(s.push(e)),
        has_key(s.push(e), k),
    ensures
        entries_view(s.push(e))[k] == entries_view(s).insert(e.key@, e.info)[k],
{
    let t = s.push(e);
    let a = choose|a: int| 0 <= a < t.len() && t[a].key@ == k;
    if a == s.len() {
        lemma_view_at(t, a);
    } else {
        assert(t[a] == s[a]);
        lemma_view_at(t, a);
        lemma_view_at(s, a);
        assert(t[s.len() as int].key@ != k);
    }
}

/// `a - b`, or zero when `b` is larger.
pub open spec fn sat_sub_u64(a: u64, b: u64) -> u64 {
    if a >= b {
        (a - b) as u64
    } else {
        0
    }
}

/// `a + n` clamped to `u32::MAX`.
pub open spec fn sat_add_u32(a: u32, n: int) -> u32 {
    if a + n > u32::MAX {
        u32::MAX
    } else {
        (a + n) as u32
    }
}

/// GPU bytes of an image's texture with its full mip chain.
pub open spec fn image_bytes(size: [u32; 2]) -> u64 {
    saturate_u64(mip_chain_bytes(max_nat(size[0] as nat, 1), max_nat(size[1] as nat, 1)) as int)
}

/// The resident byte counter once the textures `keys` are released in that
/// order, each release subtracting its bytes (stopping at zero).
pub open spec fn resident_without(
    resident: u64,
    textures: Map<Seq<char>, UiImageTextureInfo>,
    keys: Seq<Seq<char>>,
) -> u64
    decreases keys.len(),
{
    if keys.len() == 0 {
        resident
    } else {
        sat_sub_u64(resident_without(resident, textures, keys.drop_last()), textures[keys.last()].bytes)
    }
}

/// A texture cache with `count` textures holding `resident` bytes cannot
/// take `incoming` more bytes (the sum saturating at `u64::MAX`).
pub open spec fn over_budget(
    count: int,
    resident: int,
    incoming: int,
    entry_budget: int,
    budget_bytes: int,
) -> bool {
    count >= entry_budget || saturate_u64(resident + incoming) > budget_bytes
}

/// The views of some keys.
pub open spec fn key_views(keys: Seq<String>) -> Seq<Seq<char>> {
    keys.map_values(|k: String| k@)
}

impl UiImageTextureCache {
    /// The resident textures by image key.
    pub closed spec fn textures(&self) -> Map<Seq<char>, UiImageTextureInfo> {
        entries_view(self.entries@)
    }

    pub closed spec fn resident_bytes_spec(&self) -> u64 {
        self.resident_bytes
    }

    pub closed spec fn budget_bytes_spec(&self) -> u64 {
        self.budget_bytes
    }

    pub closed spec fn entry_budget_spec(&self) -> nat {
        self.entry_budget as nat
    }

    pub closed spec fn frame_index_spec(&self) -> u64 {
        self.frame_index
    }

    pub closed spec fn well_formed(&self) -> bool {
        distinct_keys(self.entries@)
    }

    /// The texture of `key` was uploaded from image revision `revision`.
    pub open spec fn is_current(&self, key: Seq<char>, revision: u64) -> bool {
        self.textures().contains_key(key) && self.textures()[key].revision == revision
    }

    /// The resident byte counter once the texture of `key`, if any, is
    /// released.
    pub open spec fn resident_without_key(&self, key: Seq<char>) -> u64 {
        if self.textures().contains_key(key) {
            sat_sub_u64(self.resident_bytes_spec(), self.textures()[key].bytes)
        } else {
            self.resident_bytes_spec()
        }
    }

    /// `evicted` is the eviction that makes room for an upload of `incoming`
    /// bytes under `key`: the textures other than `key` that the current
    /// frame has not used, least recently used first, until the upload fits
    /// both budgets or no such texture is left; and no further.
    pub open spec fn evicts_for(&self, key: Seq<char>, incoming: int, evicted: Seq<Seq<char>>) -> bool {
        let base = self.textures().remove(key);
        let frame = self.frame_index_spec();
        let rest = base.remove_keys(evicted.to_set());
        let resident = resident_without(self.resident_without_key(key), base, evicted);
        &&& evicted.no_duplicates()
        &&& forall|i: int|
            0 <= i < evicted.len() ==> base.contains_key(#[trigger] evicted[i])
                && base[evicted[i]].last_used_frame < frame
        &&& forall|i: int, k: Seq<char>|
            0 <= i < evicted.len() && #[trigger] rest.contains_key(k) && rest[k].last_used_frame
                < frame ==> base[#[trigger] evicted[i]].last_used_frame <= rest[k].last_used_frame
        &&& !over_budget(
            rest.dom().len() as int,
            resident as int,
            incoming,
            self.entry_budget_spec() as int,
            self.budget_bytes_spec() as int,
        ) || forall|k: Seq<char>| #[trigger] rest.contains_key(k) ==> rest[k].last_used_frame >= frame
        &&& evicted.len() > 0 ==> over_budget(
            (rest.dom().len() + 1) as int,
            resident + base[evicted.last()].bytes,
            incoming,
            self.entry_budget_spec() as int,
            self.budget_bytes_spec() as int,
        )
    }

    /// An empty cache whose byte budget is a sixteenth of the GPU memory
    /// budget, but at least 4 MiB, and whose entry budget is the texture
    /// cache entry budget, but at least one.
    pub fn new(gpu_bytes: u64, texture_cache_entries: u32) -> (cache: Self)
        ensures
            cache.well_formed(),
            cache.textures() == Map::<Seq<char>, UiImageTextureInfo>::empty(),
            cache.textures().dom().finite(),
            cache.resident_bytes_spec() == 0,
            cache.budget_bytes_spec() == (if gpu_bytes / 16 > 0x40_0000 {
                gpu_bytes / 16
            } else {
                0x40_0000u64
            }),
            cache.entry_budget_spec() == (if texture_cache_entries == 0 {
                1
            } else {
                texture_cache_entries as nat
            }),
            cache.frame_index_spec() == 0,
    {
        let share: u64 = gpu_bytes / 16;
        let budget_bytes: u64 = if share > 4 * 1024 * 1024 {
            share
        } else {
            4 * 1024 * 1024
        };
        let entry_budget: usize = if texture_cache_entries == 0 {
            1
        } else {
            texture_cache_entries as usize
        };
        let cache = UiImageTextureCache {
            entries: Vec::new(),
            resident_bytes: 0,
            budget_bytes,
            entry_budget,
            frame_index: 0,
        };
        assert(cache.textures() =~= Map::<Seq<char>, UiImageTextureInfo>::empty());
        cache
    }

    /// Bytes of all resident textures, as counted by the cache.
    pub fn resident_bytes(&self) -> (bytes: u64)
        ensures
            bytes == self.resident_bytes_spec(),
    {
        self.resident_bytes
    }

    /// The byte budget.
    pub fn budget_bytes(&self) -> (bytes: u64)
        ensures
            bytes == self.budget_bytes_spec(),
    {
        self.budget_bytes
    }

    /// The current frame.
    pub fn frame_index(&self) -> (frame: u64)
        ensures
            frame == self.frame_index_spec(),
    {
        self.frame_index
    }

    /// Whether the resident textures exceed the byte budget.
    pub fn budget_exceeded(&self) -> (exceeded: bool)
        ensures
            exceeded == (self.resident_bytes_spec() > self.budget_bytes_spec()),
    {
        self.resident_bytes > self.budget_bytes
    }

    /// Number of resident textures.
    pub fn len(&self) -> (count: usize)
        requires
            self.well_formed(),
        ensures
            count == self.textures().dom().len(),
    {
        proof {
            lemma_view_len(self.entries@);
        }
        self.entries.len()
    }

    /// What the cache knows of the texture of `key`.
    pub fn info(&self, key: &str) -> (info: Option<UiImageTextureInfo>)
        requires
            self.well_formed(),
        ensures
            info == (if self.textures().contains_key(key@) {
                Some(self.textures()[key@])
            } else {
                None::<UiImageTextureInfo>
            }),
    {
        let owned = key.to_owned();
        match self.position(&owned) {
            Some(i) => Some(self.entries[i].info),
            None => None,
        }
    }

    /// Starts a frame: the frame counter advances, skipping zero when it
    /// wraps.
    pub fn begin_frame(&mut self)
        ensures
            final(self).frame_index_spec() == (if old(self).frame_index_spec() == u64::MAX {
                1
            } else {
                (old(self).frame_index_spec() + 1) as u64
            }),
            final(self).textures() == old(self).textures(),
            final(self).well_formed() == old(self).well_formed(),
            final(self).resident_bytes_spec() == old(self).resident_bytes_spec(),
            final(self).budget_bytes_spec() == old(self).budget_bytes_spec(),
            final(self).entry_budget_spec() == old(self).entry_budget_spec(),
    {
        self.frame_index = if self.frame_index == u64::MAX {
            1
        } else {
            self.frame_index + 1
        };
    }

    fn position(&self, key: &String) -> (found: Option<usize>)
        requires
            self.well_formed(),
        ensures
            found is None ==> !self.textures().contains_key(key@),
            found matches Some(i) ==> {
                &&& i < self.entries@.len()
                &&& self.entries@[i as int].key@ == key@
                &&& self.textures().contains_key(key@)
                &&& self.textures()[key@] == self.entries@[i as int].info
            },
    {
        let mut i: usize = 0;
        while i < self.entries.len()
            invariant
                self.well_formed(),
                i <= self.entries@.len(),
                forall|j: int| 0 <= j < i ==> self.entries@[j].key@ != key@,
            decreases self.entries@.len() - i,
        {
            if self.entries[i].key == *key {
                proof {
                    lemma_view_at(self.entries@, i as int);
                }
                return Some(i);
            }
            i += 1;
        }
        None
    }

    /// Releases the texture of `key`, if any.
    fn release(&mut self, key: &String) -> (released: Option<UiImageTextureInfo>)
        requires
            old(self).well_formed(),
        ensures
            final(self).well_formed(),
            final(self).textures() == old(self).textures().remove(key@),
            final(self).resident_bytes_spec() == old(self).resident_without_key(key@),
            released == (if old(self).textures().contains_key(key@) {
                Some(old(self).textures()[key@])
            } else {
                None::<UiImageTextureInfo>
            }),
            final(self).budget_bytes_spec() == old(self).budget_bytes_spec(),
            final(self).entry_budget_spec() == old(self).entry_budget_spec(),
            final(self).frame_index_spec() == old(self).frame_index_spec(),
    {
        match self.position(key) {
            Some(i) => {
                proof {
                    lemma_view_remove(self.entries@, i as int);
                }
                let entry = self.entries.remove(i);
                self.resident_bytes = self.resident_bytes.saturating_sub(entry.info.bytes);
                Some(entry.info)
            },
            None => {
                assert(self.textures() =~= old(self).textures().remove(key@));
                None
            },
        }
    }

    /// The least recently used texture that the current frame has not used.
    fn lru_candidate(&self) -> (found: Option<usize>)
        ensures
            found is None ==> forall|j: int|
                0 <= j < self.entries@.len() ==> (#[trigger] self.entries@[j]).info.last_used_frame
                    >= self.frame_index,
            found matches Some(i) ==> {
                &&& i < self.entries@.len()
                &&& self.entries@[i as int].info.last_used_frame < self.frame_index
                &&& forall|j: int|
                    0 <= j < self.entries@.len() && (#[trigger] self.entries@[j]).info.last_used_frame
                        < self.frame_index ==> self.entries@[i as int].info.last_used_frame
                        <= self.entries@[j].info.last_used_frame
            },
    {
        let mut best: Option<usize> = None;
        let mut i: usize = 0;
        while i < self.entries.len()
            invariant
                i <= self.entries@.len(),
                best is None ==> forall|j: int|
                    0 <= j < i ==> (#[trigger] self.entries@[j]).info.last_used_frame
                        >= self.frame_index,
                best matches Some(b) ==> {
                    &&& b < i
                    &&& self.entries@[b as int].info.last_used_frame < self.frame_index
                    &&& forall|j: int|
                        0 <= j < i && (#[trigger] self.entries@[j]).info.last_used_frame
                            < self.frame_index ==> self.entries@[b as int].info.last_used_frame
                            <= self.entries@[j].info.last_used_frame
                },
            decreases self.entries@.len() - i,
        {
            let used = self.entries[i].info.last_used_frame;
            if used < self.frame_index {
                match best {
                    None => {
                        best = Some(i);
                    },
                    Some(b) => {
                        if used < self.entries[b].info.last_used_frame {
                            best = Some(i);
                        }
                    },
                }
            }
            i += 1;
        }
        best
    }

    /// Brings the texture of `key` up to date with `image`, the image the
    /// store holds under `key` (`None` when it holds none), for the current
    /// frame. Returns whether the image must be uploaded, and the keys of the
    /// textures evicted to make room for it, in eviction order.
    ///
    /// With no image the texture is released. A texture already uploaded
    /// from the image's revision is only marked as used in this frame.
    /// Otherwise the old texture is released, room is made by `evicts_for`,
    /// and the new texture is recorded as used in this frame.
    pub fn sync_image(
        &mut self,
        key: &str,
        image: Option<&UiSurfaceImageData>,
        metrics: &mut UiSurfaceGpuMetrics,
    ) -> (sync: (bool, Vec<String>))
        requires
            old(self).well_formed(),
        ensures
            final(self).well_formed(),
            final(self).budget_bytes_spec() == old(self).budget_bytes_spec(),
            final(self).entry_budget_spec() == old(self).entry_budget_spec(),
            final(self).frame_index_spec() == old(self).frame_index_spec(),
            final(self).textures().dom().finite(),
            image matches Some(data) ==> final(self).is_current(key@, data.revision)
                && final(self).textures()[key@].last_used_frame == old(self).frame_index_spec(),
            match image {
                None => {
                    &&& !sync.0
                    &&& sync.1@.len() == 0
                    &&& final(self).textures() == old(self).textures().remove(key@)
                    &&& final(self).resident_bytes_spec() == old(self).resident_without_key(key@)
                    &&& *final(metrics) == *old(metrics)
                },
                Some(data) => if old(self).is_current(key@, data.revision) {
                    &&& !sync.0
                    &&& sync.1@.len() == 0
                    &&& final(self).textures() == old(self).textures().insert(
                        key@,
                        UiImageTextureInfo {
                            last_used_frame: old(self).frame_index_spec(),
                            ..old(self).textures()[key@]
                        },
                    )
                    &&& final(self).resident_bytes_spec() == old(self).resident_bytes_spec()
                    &&& *final(metrics) == *old(metrics)
                } else {
                    let bytes = image_bytes(data.size);
                    let evicted = key_views(sync.1@);
                    &&& sync.0
                    &&& old(self).evicts_for(key@, bytes as int, evicted)
                    &&& final(self).textures() == old(self).textures().remove(key@).remove_keys(
                        evicted.to_set(),
                    ).insert(
                        key@,
                        UiImageTextureInfo {
                            revision: data.revision,
                            bytes,
                            last_used_frame: old(self).frame_index_spec(),
                        },
                    )
                    &&& final(self).resident_bytes_spec() == saturate_u64(
                        resident_without(
                            old(self).resident_without_key(key@),
                            old(self).textures().remove(key@),
                            evicted,
                        ) + bytes,
                    )
                    &&& *final(metrics) == (UiSurfaceGpuMetrics {
                        image_evictions: sat_add_u32(old(metrics).image_evictions, evicted.len() as int),
                        image_upload_bytes: saturate_u64(old(metrics).image_upload_bytes + bytes),
                        ..*old(metrics)
                    })
                },
            },
    {
        let owned = key.to_owned();
        let data = match image {
            None => {
                self.release(&owned);
                proof {
                    lemma_view_len(self.entries@);
                }
                return (false, Vec::new());
            },
            Some(data) => data,
        };
        match self.position(&owned) {
            Some(i) => {
                if self.entries[i].info.revision == data.revision {
                    let ghost before = self.entries@;
                    proof {
                        lemma_view_remove(before, i as int);
                    }
                    let mut entry = self.entries.remove(i);
                    entry.info.last_used_frame = self.frame_index;
                    proof {
                        lemma_view_push(self.entries@, entry);
                        assert(entries_view(before).remove(key@).insert(key@, entry.info)
                            =~= entries_view(before).insert(key@, entry.info));
                    }
                    self.entries.push(entry);
                    proof {
                        lemma_view_len(self.entries@);
                    }
                    return (false, Vec::new());
                }
            },
            None => {},
        }
        let ghost s0 = *self;
        self.release(&owned);
        let bytes: u64 = image_mip_chain_bytes(data.size);
        let ghost base = self.textures();
        let ghost r1 = self.resident_bytes;
        let ghost m0 = *metrics;
        let ghost mut ekeys: Seq<Seq<char>> = Seq::empty();
        let mut evicted: Vec<String> = Vec::new();
        loop
            invariant
                self.well_formed(),
                base == s0.textures().remove(key@),
                r1 == s0.resident_without_key(key@),
                self.budget_bytes == s0.budget_bytes,
                self.entry_budget == s0.entry_budget,
                self.frame_index == s0.frame_index,
                !base.contains_key(key@),
                self.textures() == base.remove_keys(ekeys.to_set()),
                evicted@.len() == ekeys.len(),
                forall|i: int| 0 <= i < ekeys.len() ==> (#[trigger] evicted@[i])@ == ekeys[i],
                ekeys.no_duplicates(),
                forall|i: int|
                    0 <= i < ekeys.len() ==> base.contains_key(#[trigger] ekeys[i])
                        && base[ekeys[i]].last_used_frame < self.frame_index,
                forall|i: int, k: Seq<char>|
                    0 <= i < ekeys.len() && #[trigger] self.textures().contains_key(k)
                        && self.textures()[k].last_used_frame < self.frame_index
                        ==> base[#[trigger] ekeys[i]].last_used_frame
                        <= self.textures()[k].last_used_frame,
                self.resident_bytes == resident_without(r1, base, ekeys),
                ekeys.len() > 0 ==> over_budget(
                    (self.textures().dom().len() + 1) as int,
                    self.resident_bytes + base[ekeys.last()].bytes,
                    bytes as int,
                    self.entry_budget as int,
                    self.budget_bytes as int,
                ),
                *metrics == (UiSurfaceGpuMetrics {
                    image_evictions: sat_add_u32(m0.image_evictions, ekeys.len() as int),
                    ..m0
                }),
            ensures
                !over_budget(
                    self.textures().dom().len() as int,
                    self.resident_bytes as int,
                    bytes as int,
                    self.entry_budget as int,
                    self.budget_bytes as int,
                ) || forall|k: Seq<char>| #[trigger] self.textures().contains_key(k)
                    ==> self.textures()[k].last_used_frame >= self.frame_index,
            decreases self.entries@.len(),
        {
            proof {
                lemma_view_len(self.entries@);
            }
            let over = self.entries.len() >= self.entry_budget || self.resident_bytes.saturating_add(
                bytes,
            ) > self.budget_bytes;
            if !over {
                break;
            }
            match self.lru_candidate() {
                None => {
                    proof {
                        assert forall|k: Seq<char>| #[trigger] self.textures().contains_key(k) implies self.textures()[k].last_used_frame
                            >= self.frame_index by {
                            let j = choose|j: int| 0 <= j < self.entries@.len() && self.entries@[j].key@ == k;
                            lemma_view_at(self.entries@, j);
                        }
                    }
                    break;
                },
                Some(i) => {
                    let ghost before = self.entries@;
                    let ghost cur = self.textures();
                    let ghost r_before = self.resident_bytes;
                    proof {
                        lemma_view_at(before, i as int);
                        lemma_view_remove(before, i as int);
                    }
                    let entry = self.entries.remove(i);
                    self.resident_bytes = self.resident_bytes.saturating_sub(entry.info.bytes);
                    metrics.image_evictions = metrics.image_evictions.saturating_add(1);
                    let ghost k_new = entry.key@;
                    proof {
                        assert(cur.contains_key(k_new) && cur[k_new] == entry.info);
                        assert(base.contains_key(k_new) && base[k_new] == entry.info);
                        assert(!ekeys.contains(k_new));
                        let ekeys2 = ekeys.push(k_new);
                        assert(ekeys2.drop_last() =~= ekeys);
                        assert forall|x: Seq<char>| #[trigger] ekeys2.to_set().contains(x) <==> ekeys.to_set().insert(k_new).contains(x) by {
                            if ekeys2.contains(x) {
                                let w = choose|w: int| 0 <= w < ekeys2.len() && ekeys2[w] == x;
                                if w < ekeys.len() {
                                    assert(ekeys[w] == x);
                                }
                            }
                            if ekeys.contains(x) {
                                let w = choose|w: int| 0 <= w < ekeys.len() && ekeys[w] == x;
                                assert(ekeys2[w] == x);
                            }
                            if x == k_new {
                                assert(ekeys2[ekeys.len() as int] == x);
                            }
                        }
                        assert(ekeys2.to_set() =~= ekeys.to_set().insert(k_new));
                        assert(self.textures() =~= base.remove_keys(ekeys2.to_set()));
                        assert forall|i2: int, k: Seq<char>|
                            0 <= i2 < ekeys2.len() && #[trigger] self.textures().contains_key(k)
                                && self.textures()[k].last_used_frame < self.frame_index
                                implies base[#[trigger] ekeys2[i2]].last_used_frame
                                <= self.textures()[k].last_used_frame by {
                            assert(cur.contains_key(k) && cur[k] == self.textures()[k]);
                            if i2 == ekeys.len() {
                                let j = choose|j: int| 0 <= j < before.len() && before[j].key@ == k;
                                lemma_view_at(before, j);
                            } else {
                                assert(ekeys2[i2] == ekeys[i2]);
                            }
                        }
                        assert forall|i2: int| 0 <= i2 < ekeys2.len() implies base.contains_key(
                            #[trigger] ekeys2[i2],
                        ) && base[ekeys2[i2]].last_used_frame < self.frame_index by {
                            if i2 < ekeys.len() {
                                assert(ekeys2[i2] == ekeys[i2]);
                            }
                        }
                        lemma_view_len(before);
                        lemma_view_len(self.entries@);
                        ekeys = ekeys2;
                    }
                    evicted.push(entry.key);
                },
            }
        }
        let entry = TextureEntry {
            key: owned,
            info: UiImageTextureInfo {
                revision: data.revision,
                bytes,
                last_used_frame: self.frame_index,
            },
        };
        proof {
            lemma_view_push(self.entries@, entry);
            assert(key_views(evicted@) =~= ekeys);
        }
        self.entries.push(entry);
        proof {
            lemma_view_len(self.entries@);
        }
        self.resident_bytes = self.resident_bytes.saturating_add(bytes);
        metrics.image_upload_bytes = metrics.image_upload_bytes.saturating_add(bytes);
        (true, evicted)
    }
}

} // verus!
