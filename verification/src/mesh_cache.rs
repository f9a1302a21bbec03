//! How the scene renderer draws a batch of instances of one mesh, and the
//! cache of uploaded mesh buffers that instanced drawing reads.
//!
//! A batch of two or more instances of a cacheable mesh is drawn with one
//! instanced call over buffers kept in a residency arena; anything else is
//! drawn instance by instance. The cache maps a mesh's identity to the
//! handle of its buffers in the arena. A handle that the arena has since
//! evicted is dropped from the map the first time a lookup finds it stale.

use vstd::prelude::*;

use crate::handles::{GraphicsHandle, MeshHandle};
use crate::resource_registry::{
    ArenaView, ResourceAdmission, ResourceArena, ResourceArenaMetrics, ResourceSlot, no_slots,
    sat_add,
};

verus! {

/// How a batch of instances of one mesh is drawn.
#[derive(Debug, Clone, Copy, PartialEq, Eq, Structural)]
pub enum MeshBatchMode {
    /// One draw call per instance.
    PerInstance,
    /// One instanced draw call over the cached buffers of the mesh.
    Instanced,
}

/// A batch is drawn instanced when it has at least two instances, its mesh
/// may be cached and the cache may hold any mesh at all.
pub open spec fn batch_mode_spec(instance_count: nat, cacheable: bool, mesh_cache_limit: nat) -> MeshBatchMode {
    if instance_count >= 2 && cacheable && mesh_cache_limit > 0 {
        MeshBatchMode::Instanced
    } else {
        MeshBatchMode::PerInstance
    }
}

/// Chooses how a batch of `instance_count` instances is drawn.
pub fn mesh_batch_mode(instance_count: usize, cacheable: bool, mesh_cache_limit: usize) -> (mode:
    MeshBatchMode)
    ensures
        mode == batch_mode_spec(instance_count as nat, cacheable, mesh_cache_limit as nat),
{
    if instance_count < 2 {
        return MeshBatchMode::PerInstance;
    }
    if !cacheable || mesh_cache_limit == 0 {
        return MeshBatchMode::PerInstance;
    }
    MeshBatchMode::Instanced
}

struct MeshCacheEntry {
    key: usize,
    handle: MeshHandle,
}

spec fn has_key(s: Seq<MeshCacheEntry>, k: usize) -> bool {
    exists|i: int| 0 <= i < s.len() && s[i].key == k
}

spec fn entries_view(s: Seq<MeshCacheEntry>) -> Map<usize, MeshHandle> {
    Map::new(
        |k: usize| has_key(s, k),
        |k: usize| s[choose|i: int| 0 <= i < s.len() && s[i].key == k].handle,
    )
}

spec fn distinct_keys(s: Seq<MeshCacheEntry>) -> bool {
    forall|i: int, j: int|
        0 <= i < s.len() && 0 <= j < s.len() && i != j ==> (#[trigger] s[i]).key != (
        #[trigger] s[j]).key
}

proof fn lemma_view_at(s: Seq<MeshCacheEntry>, i: int)
    requires
        distinct_keys(s),
        0 <= i < s.len(),
    ensures
        entries_view(s).contains_key(s[i].key),
        entries_view(s)[s[i].key] == s[i].handle,
{
    assert(has_key(s, s[i].key));
    let c = choose|c: int| 0 <= c < s.len() && s[c].key == s[i].key;
    assert(c == i);
}

proof fn lemma_view_len(s: Seq<MeshCacheEntry>)
    requires
        distinct_keys(s),
    ensures
        entries_view(s).dom().finite(),
        entries_view(s).dom().len() == s.len(),
{
    let keys = s.map_values(|e: MeshCacheEntry| e.key);
    assert forall|k: usize| entries_view(s).dom().contains(k) <==> keys.to_set().contains(k) by {
        if entries_view(s).dom().contains(k) {
            let i = choose|i: int| 0 <= i < s.len() && s[i].key == k;
            assert(keys[i] == k);
        }
        if keys.to_set().contains(k) {
            let i = choose|i: int| 0 <= i < keys.len() && keys[i] == k;
            assert(s[i].key == k);
        }
    }
    assert(entries_view(s).dom() =~= keys.to_set());
    assert forall|i: int, j: int| 0 <= i < keys.len() && 0 <= j < keys.len() && i != j implies keys[i]
        != keys[j] by {
        assert(keys[i] == s[i].key && keys[j] == s[j].key);
    }
    keys.unique_seq_to_set();
}

proof fn lemma_view_remove(s: Seq<MeshCacheEntry>, i: int)
    requires
        distinct_keys(s),
        0 <= i < s.len(),
    ensures
        distinct_keys(s.remove(i)),
        entries_view(s.remove(i)) == entries_view(s).remove(s[i].key),
{
    let t = s.remove(i);
    assert forall|a: int, b: int| 0 <= a < t.len() && 0 <= b < t.len() && a != b implies (
    #[trigger] t[a]).key != (#[trigger] t[b]).key by {
        let a0 = if a < i { a } else { a + 1 };
        let b0 = if b < i { b } else { b + 1 };
        assert(t[a] == s[a0] && t[b] == s[b0]);
    }
    assert forall|k: usize| #[trigger] entries_view(t).dom().contains(k) <==> entries_view(
        s,
    ).remove(s[i].key).dom().contains(k) by {
        if has_key(t, k) {
            let a = choose|a: int| 0 <= a < t.len() && t[a].key == k;
            let a0 = if a < i { a } else { a + 1 };
            assert(s[a0].key == k);
        }
        if entries_view(s).remove(s[i].key).dom().contains(k) {
            let a0 = choose|a: int| 0 <= a < s.len() && s[a].key == k;
            assert(a0 != i);
            let a = if a0 < i { a0 } else { a0 - 1 };
            assert(t[a].key == k);
        }
    }
    assert forall|k: usize| #[trigger] entries_view(t).dom().contains(k) implies entries_view(t)[k]
        == entries_view(s)[k] by {
        let a = choose|a: int| 0 <= a < t.len() && t[a].key == k;
        let a0 = if a < i { a } else { a + 1 };
        assert(t[a] == s[a0]);
        lemma_view_at(t, a);
        lemma_view_at(s, a0);
    }
    assert(entries_view(t) =~= entries_view(s).remove(s[i].key));
}

proof fn lemma_view_push(s: Seq<MeshCacheEntry>, e: MeshCacheEntry)
    requires
        distinct_keys(s),
        !entries_view(s).contains_key(e.key),
    ensures
        distinct_keys(s.push(e)),
        entries_view(s.push(e)) == entries_view(s).insert(e.key, e.handle),
{
    let t = s.push(e);
    assert forall|a: int, b: int| 0 <= a < t.len() && 0 <= b < t.len() && a != b implies (
    #[trigger] t[a]).key != (#[trigger] t[b]).key by {
        if a == s.len() {
            assert(!has_key(s, e.key));
            assert(t[b] == s[b]);
        } else if b == s.len() {
            assert(!has_key(s, e.key));
            assert(t[a] == s[a]);
        } else {
            assert(t[a] == s[a] && t[b] == s[b]);
        }
    }
    assert forall|k: usize| #[trigger] entries_view(t).dom().contains(k) <==> entries_view(
        s,
    ).insert(e.key, e.handle).dom().contains(k) by {
        if has_key(t, k) {
            let a = choose|a: int| 0 <= a < t.len() && t[a].key == k;
            if a < s.len() {
                assert(s[a].key == k);
            }
        }
        if has_key(s, k) {
            let a = choose|a: int| 0 <= a < s.len() && s[a].key == k;
            assert(t[a].key == k);
        }
        if k == e.key {
            assert(t[s.len() as int].key == k);
        }
    }
    assert forall|k: usize| #[trigger] entries_view(t).dom().contains(k) implies entries_view(t)[k]
        == entries_view(s).insert(e.key, e.handle)[k] by {
        let a = choose|a: int| 0 <= a < t.len() && t[a].key == k;
        lemma_view_at(t, a);
        if a < s.len() {
            assert(t[a] == s[a]);
            lemma_view_at(s, a);
        }
    }
    assert(entries_view(t) =~= entries_view(s).insert(e.key, e.handle));
}

/// The arena after a lookup through `handle` in frame `frame` found its
/// resource: the slot records the frame and the hit is counted.
pub open spec fn after_hit<T>(v: ArenaView<T>, handle: MeshHandle, frame: u64) -> ArenaView<T> {
    let i = handle.handle_index() as int;
    ArenaView {
        slots: v.slots.update(i, ResourceSlot { last_used_frame: frame, ..v.slots[i] }),
        metrics: ResourceArenaMetrics {
            cache_hits: sat_add(v.metrics.cache_hits as int, 1),
            ..v.metrics
        },
        ..v
    }
}

/// The mappings of `m` whose handle `arena` still holds.
pub open spec fn held_mappings<T>(m: Map<usize, MeshHandle>, arena: ArenaView<T>) -> Map<
    usize,
    MeshHandle,
> {
    Map::new(|k: usize| m.contains_key(k) && arena.live_handle(m[k]), |k: usize| m[k])
}

/// The arena after a lookup through a stale handle: the miss is counted.
pub open spec fn after_stale_miss<T>(v: ArenaView<T>) -> ArenaView<T> {
    ArenaView {
        metrics: ResourceArenaMetrics {
            stale_handle_misses: sat_add(v.metrics.stale_handle_misses as int, 1),
            ..v.metrics
        },
        ..v
    }
}

/// Uploaded mesh buffers, kept in a residency arena and found by the
/// identity of their mesh.
pub struct MeshBufferCache<T> {
    entries: Vec<MeshCacheEntry>,
    registry: ResourceArena<MeshHandle, T>,
}

impl<T> MeshBufferCache<T> {
    /// The handle the cache holds for each mesh identity.
    pub closed spec fn mapping(&self) -> Map<usize, MeshHandle> {
        entries_view(self.entries@)
    }

    /// The arena that holds the buffers.
    pub closed spec fn arena(&self) -> ArenaView<T> {
        self.registry@
    }

    pub closed spec fn well_formed(&self) -> bool {
        distinct_keys(self.entries@) && self.registry@.well_formed()
    }

    /// An empty cache whose arena has the given byte budget.
    pub fn new(budget_bytes: u64) -> (cache: Self)
        ensures
            cache.well_formed(),
            cache.mapping() == Map::<usize, MeshHandle>::empty(),
            cache.arena().slots.len() == 0,
            cache.arena().budget_bytes == budget_bytes,
            cache.arena().metrics == ResourceArenaMetrics::zero(),
    {
        let cache = MeshBufferCache { entries: Vec::new(), registry: ResourceArena::new(budget_bytes) };
        assert(cache.mapping() =~= Map::<usize, MeshHandle>::empty());
        cache
    }

    /// Number of meshes the cache maps.
    pub fn len(&self) -> (count: usize)
        requires
            self.well_formed(),
        ensures
            count == self.mapping().len(),
    {
        proof {
            lemma_view_len(self.entries@);
        }
        self.entries.len()
    }

    /// The arena that holds the buffers.
    pub fn registry(&self) -> (registry: &ResourceArena<MeshHandle, T>)
        ensures
            registry@ == self.arena(),
    {
        &self.registry
    }

    fn position(&self, mesh_key: usize) -> (found: Option<usize>)
        requires
            self.well_formed(),
        ensures
            found is None ==> !self.mapping().contains_key(mesh_key),
            found matches Some(i) ==> {
                &&& i < self.entries@.len()
                &&& self.entries@[i as int].key == mesh_key
                &&& self.mapping().contains_key(mesh_key)
                &&& self.mapping()[mesh_key] == self.entries@[i as int].handle
            },
    {
        let mut i: usize = 0;
        while i < self.entries.len()
            invariant
                self.well_formed(),
                i <= self.entries@.len(),
                forall|j: int| 0 <= j < i ==> self.entries@[j].key != mesh_key,
            decreases self.entries@.len() - i,
        {
            if self.entries[i].key == mesh_key {
                proof {
                    lemma_view_at(self.entries@, i as int);
                }
                return Some(i);
            }
            i += 1;
        }
        None
    }

    /// Looks up the buffers of a mesh for frame `frame_index`. A mapped
    /// handle whose buffers the arena still holds is a hit; a mapped handle
    /// the arena has let go of is a stale miss and is dropped from the map;
    /// an unmapped mesh is a miss that leaves the arena untouched.
    pub fn lookup(&mut self, mesh_key: usize, frame_index: u64) -> (found: Option<&T>)
        requires
            old(self).well_formed(),
        ensures
            final(self).well_formed(),
            found is Some <==> old(self).mapping().contains_key(mesh_key) && old(
                self,
            ).arena().live_handle(old(self).mapping()[mesh_key]),
            found matches Some(buffers) ==> {
                let handle = old(self).mapping()[mesh_key];
                &&& Some(*buffers) == old(self).arena().slots[handle.handle_index() as int].value
                &&& final(self).mapping() == old(self).mapping()
                &&& final(self).arena() == after_hit(old(self).arena(), handle, frame_index)
            },
            found is None ==> {
                &&& final(self).mapping() == old(self).mapping().remove(mesh_key)
                &&& final(self).arena() == if old(self).mapping().contains_key(mesh_key) {
                    after_stale_miss(old(self).arena())
                } else {
                    old(self).arena()
                }
            },
    {
        match self.position(mesh_key) {
            None => {
                assert(self.mapping() =~= old(self).mapping().remove(mesh_key));
                None
            },
            Some(i) => {
                let handle = self.entries[i].handle;
                if self.registry.contains(handle) {
                    self.registry.get(handle, frame_index)
                } else {
                    self.registry.get(handle, frame_index);
                    proof {
                        lemma_view_remove(self.entries@, i as int);
                    }
                    self.entries.remove(i);
                    None
                }
            },
        }
    }

    /// Makes room before the buffers of a single mesh are uploaded: drops the
    /// mappings whose buffers the arena no longer holds and, when the map
    /// still holds `mesh_cache_limit` meshes or more, evicts every unpinned
    /// buffer and empties the map.
    pub fn make_room(&mut self, mesh_cache_limit: usize)
        requires
            old(self).well_formed(),
        ensures
            final(self).well_formed(),
            ({
                let held = held_mappings(old(self).mapping(), old(self).arena());
                if held.len() >= mesh_cache_limit {
                    &&& final(self).mapping() == Map::<usize, MeshHandle>::empty()
                    &&& final(self).arena().slots == old(self).arena().slots_without_unpinned()
                    &&& old(self).arena().arena_step(
                        final(self).arena(),
                        -1,
                        old(self).arena().evictable_sel(),
                        false,
                    )
                } else {
                    &&& final(self).mapping() == held
                    &&& final(self).arena() == old(self).arena()
                }
            }),
    {
        let ghost m0 = self.mapping();
        let ghost s0 = self.entries@;
        let mut i: usize = self.entries.len();
        assert(s0.take(s0.len() as int) =~= s0);
        while i > 0
            invariant
                self.well_formed(),
                self.registry@ == old(self).registry@,
                m0 == entries_view(s0),
                distinct_keys(s0),
                i <= self.entries@.len(),
                i <= s0.len(),
                self.entries@.take(i as int) == s0.take(i as int),
                forall|k: usize|
                    #[trigger] self.mapping().contains_key(k) <==> m0.contains_key(k) && (
                    self.arena().live_handle(m0[k]) || has_key(s0.take(i as int), k)),
                forall|k: usize|
                    self.mapping().contains_key(k) ==> #[trigger] self.mapping()[k] == m0[k],
            decreases i,
        {
            i -= 1;
            let handle = self.entries[i].handle;
            let ghost mb = self.mapping();
            let ghost key = s0[i as int].key;
            proof {
                let p1 = s0.take(i as int + 1);
                let p0 = s0.take(i as int);
                assert(self.entries@[i as int] == p1[i as int]);
                lemma_view_at(s0, i as int);
                assert forall|k: usize| has_key(p1, k) <==> (has_key(p0, k) || k == s0[i as int].key) by {
                    if has_key(p1, k) {
                        let a = choose|a: int| 0 <= a < p1.len() && p1[a].key == k;
                        if a < i {
                            assert(p0[a].key == k);
                        }
                    }
                    if has_key(p0, k) {
                        let a = choose|a: int| 0 <= a < p0.len() && p0[a].key == k;
                        assert(p1[a].key == k);
                    }
                    if k == s0[i as int].key {
                        assert(p1[i as int].key == k);
                    }
                }
                assert(!has_key(p0, s0[i as int].key));
            }
            if !self.registry.contains(handle) {
                let ghost before = self.entries@;
                proof {
                    lemma_view_at(before, i as int);
                    lemma_view_remove(before, i as int);
                }
                self.entries.remove(i);
                proof {
                    assert(self.entries@.take(i as int) =~= before.take(i as int));
                    assert(self.mapping() == mb.remove(key));
                    assert forall|k: usize| #[trigger] self.mapping().contains_key(k) <==> m0.contains_key(
                        k,
                    ) && (self.arena().live_handle(m0[k]) || has_key(s0.take(i as int), k)) by {
                        assert(mb.contains_key(k) <==> m0.contains_key(k) && (self.arena().live_handle(
                            m0[k],
                        ) || has_key(s0.take(i as int + 1), k)));
                    }
                    assert forall|k: usize| self.mapping().contains_key(k) implies #[trigger] self.mapping()[k]
                        == m0[k] by {
                        assert(mb.contains_key(k));
                    }
                }
            } else {
                proof {
                    assert(self.entries@.take(i as int) =~= self.entries@.take(i as int + 1).take(
                        i as int,
                    ));
                    assert(s0.take(i as int) =~= s0.take(i as int + 1).take(i as int));
                    assert forall|k: usize| #[trigger] self.mapping().contains_key(k) <==> m0.contains_key(
                        k,
                    ) && (self.arena().live_handle(m0[k]) || has_key(s0.take(i as int), k)) by {
                        assert(mb.contains_key(k) <==> m0.contains_key(k) && (self.arena().live_handle(
                            m0[k],
                        ) || has_key(s0.take(i as int + 1), k)));
                    }
                }
            }
        }
        proof {
            assert(self.mapping() =~= held_mappings(m0, old(self).arena()));
            lemma_view_len(self.entries@);
        }
        if self.entries.len() >= mesh_cache_limit {
            self.registry.clear_unpinned();
            self.entries = Vec::new();
            proof {
                assert(self.mapping() =~= Map::<usize, MeshHandle>::empty());
            }
        }
    }

    /// Admits the buffers of a mesh to the arena, as a cached resource of
    /// `bytes` bytes used in frame `frame_index`, and maps the mesh to their
    /// handle. Returns false, leaving the map as it was, when the arena
    /// refuses them.
    pub fn insert_buffers(&mut self, mesh_key: usize, buffers: T, bytes: u64, frame_index: u64) -> (admitted:
        bool)
        requires
            old(self).well_formed(),
            old(self).arena().slots.len() < u32::MAX,
            old(self).arena().budget_bytes < u64::MAX || old(self).arena().metrics.resident_bytes
                + bytes <= u64::MAX,
        ensures
            final(self).well_formed(),
            admitted <==> bytes <= old(self).arena().budget_bytes && old(
                self,
            ).arena().pinned_total() + bytes <= old(self).arena().budget_bytes,
            final(self).arena().budget_bytes == old(self).arena().budget_bytes,
            old(self).arena().arena_step(
                final(self).arena(),
                if admitted {
                    final(self).mapping()[mesh_key].handle_index() as int
                } else {
                    -1
                },
                if bytes <= old(self).arena().budget_bytes {
                    old(self).arena().evicted_sel(bytes as int)
                } else {
                    no_slots()
                },
                !admitted,
            ),
            admitted ==> {
                let handle = final(self).mapping()[mesh_key];
                &&& final(self).mapping() == old(self).mapping().insert(mesh_key, handle)
                &&& final(self).arena().live_handle(handle)
                &&& final(self).arena().slots[handle.handle_index() as int].value == Some(buffers)
                &&& final(self).arena().slots[handle.handle_index() as int].bytes == bytes
                &&& !final(self).arena().slots[handle.handle_index() as int].pinned
                &&& final(self).arena().slots[handle.handle_index() as int].last_used_frame
                    == frame_index
            },
            !admitted ==> final(self).mapping() == old(self).mapping(),
    {
        let admission = ResourceAdmission::cached(bytes, frame_index);
        match self.registry.insert(buffers, admission) {
            Ok(handle) => {
                match self.position(mesh_key) {
                    Some(i) => {
                        proof {
                            lemma_view_remove(self.entries@, i as int);
                        }
                        self.entries.remove(i);
                    },
                    None => {},
                }
                let ghost before = self.entries@;
                let entry = MeshCacheEntry { key: mesh_key, handle };
                proof {
                    assert(!entries_view(before).contains_key(mesh_key));
                    lemma_view_push(before, entry);
                }
                self.entries.push(entry);
                assert(self.mapping() =~= old(self).mapping().insert(mesh_key, handle));
                true
            },
            Err(_) => false,
        }
    }
}

} // verus!
