//! Bounded generational residency arenas for backend resources.
//!
//! Backends store their native buffer, texture, mesh, material, or pipeline
//! objects inside a typed arena. Upper layers retain only handles. The arena
//! evicts least-recently-used unpinned resources only when admission would
//! cross its hard byte budget.

use std::marker::PhantomData;

use vstd::prelude::*;

use crate::handles::{
    BufferHandle, GraphicsHandle, MaterialHandle, MeshHandle, PipelineHandle, SamplerHandle,
    TextureHandle,
};

verus! {

/// Size, recency and pinning of a resource offered to an arena.
#[derive(Debug, Clone, Copy, PartialEq, Eq, Structural)]
pub struct ResourceAdmission {
    pub bytes: u64,
    pub frame_index: u64,
    pub pinned: bool,
}

impl ResourceAdmission {
    /// An admission that may be evicted under budget pressure.
    pub fn cached(bytes: u64, frame_index: u64) -> (admission: Self)
        ensures
            admission == (ResourceAdmission { bytes, frame_index, pinned: false }),
    {
        ResourceAdmission { bytes, frame_index, pinned: false }
    }

    /// An admission that is never evicted while it stays pinned.
    pub fn pinned(bytes: u64, frame_index: u64) -> (admission: Self)
        ensures
            admission == (ResourceAdmission { bytes, frame_index, pinned: true }),
    {
        ResourceAdmission { bytes, frame_index, pinned: true }
    }
}

/// Why an admission was refused: the request and the arena's state at the
/// moment of refusal.
#[derive(Debug, Clone, Copy, PartialEq, Eq, Structural)]
pub struct ResourceBudgetError {
    pub requested_bytes: u64,
    pub resident_bytes: u64,
    pub budget_bytes: u64,
}

/// Counters kept by an arena. All counters saturate instead of wrapping.
#[derive(Debug, Clone, Copy, PartialEq, Eq, Structural)]
pub struct ResourceArenaMetrics {
    pub resident_bytes: u64,
    pub resident_entries: u32,
    pub peak_resident_bytes: u64,
    pub admissions: u64,
    pub removals: u64,
    pub evictions: u64,
    pub rejected_admissions: u64,
    pub cache_hits: u64,
    pub stale_handle_misses: u64,
}

impl ResourceArenaMetrics {
    pub open spec fn zero() -> Self {
        ResourceArenaMetrics {
            resident_bytes: 0,
            resident_entries: 0,
            peak_resident_bytes: 0,
            admissions: 0,
            removals: 0,
            evictions: 0,
            rejected_admissions: 0,
            cache_hits: 0,
            stale_handle_misses: 0,
        }
    }
}

impl Default for ResourceArenaMetrics {
    fn default() -> (metrics: Self)
        ensures
            metrics == ResourceArenaMetrics::zero(),
    {
        ResourceArenaMetrics {
            resident_bytes: 0,
            resident_entries: 0,
            peak_resident_bytes: 0,
            admissions: 0,
            removals: 0,
            evictions: 0,
            rejected_admissions: 0,
            cache_hits: 0,
            stale_handle_misses: 0,
        }
    }
}

/// One arena slot. An empty slot keeps its generation so that handles issued
/// for an earlier occupant stay stale.
pub struct ResourceSlot<T> {
    pub generation: u32,
    pub value: Option<T>,
    pub bytes: u64,
    pub last_used_frame: u64,
    pub pinned: bool,
}

impl<T> Default for ResourceSlot<T> {
    fn default() -> (slot: Self)
        ensures
            slot == (ResourceSlot::<T> {
                generation: 1,
                value: None,
                bytes: 0,
                last_used_frame: 0,
                pinned: false,
            }),
    {
        ResourceSlot { generation: 1, value: None, bytes: 0, last_used_frame: 0, pinned: false }
    }
}

/// The generation a slot takes when its occupant leaves: one more, skipping
/// zero on wrap-around.
pub open spec fn next_generation(generation: u32) -> u32 {
    if generation == u32::MAX {
        1
    } else {
        (generation + 1) as u32
    }
}

/// The state of a slot after its occupant was evicted or removed.
pub open spec fn vacated<T>(slot: ResourceSlot<T>) -> ResourceSlot<T> {
    ResourceSlot {
        generation: next_generation(slot.generation),
        value: None,
        bytes: 0,
        last_used_frame: 0,
        pinned: false,
    }
}

/// `a + b`, or `u64::MAX` when that does not fit.
pub open spec fn sat_add(a: int, b: int) -> u64 {
    if a + b > u64::MAX {
        u64::MAX
    } else {
        (a + b) as u64
    }
}

pub open spec fn every_index() -> spec_fn(int) -> bool {
    |i: int| true
}

pub open spec fn unit_weight() -> spec_fn(int) -> int {
    |i: int| 1int
}

pub open spec fn zero_weight() -> spec_fn(int) -> int {
    |i: int| 0int
}

/// Sum of `weight(i)` over the indices `i < n` that `selected` accepts.
pub open spec fn sum_where(weight: spec_fn(int) -> int, selected: spec_fn(int) -> bool, n: int) -> int
    decreases n,
{
    if n <= 0 {
        0
    } else {
        sum_where(weight, selected, n - 1) + if selected(n - 1) {
            weight(n - 1)
        } else {
            0
        }
    }
}

/// A sum of non-negative weights is non-negative.
pub proof fn lemma_sum_nonneg(weight: spec_fn(int) -> int, selected: spec_fn(int) -> bool, n: int)
    requires
        forall|i: int| 0 <= i < n && #[trigger] selected(i) ==> weight(i) >= 0,
    ensures
        sum_where(weight, selected, n) >= 0,
    decreases n,
{
    if n > 0 {
        lemma_sum_nonneg(weight, selected, n - 1);
    }
}

/// Sums agree when selections and selected weights agree below `n`.
pub proof fn lemma_sum_ext(
    w1: spec_fn(int) -> int,
    s1: spec_fn(int) -> bool,
    w2: spec_fn(int) -> int,
    s2: spec_fn(int) -> bool,
    n: int,
)
    requires
        forall|i: int| 0 <= i < n ==> #[trigger] s1(i) == s2(i),
        forall|i: int| 0 <= i < n && #[trigger] s1(i) ==> w1(i) == w2(i),
    ensures
        sum_where(w1, s1, n) == sum_where(w2, s2, n),
    decreases n,
{
    if n > 0 {
        lemma_sum_ext(w1, s1, w2, s2, n - 1);
        assert(s1(n - 1) == s2(n - 1));
    }
}

/// Selecting more non-negative weights never lowers the sum.
pub proof fn lemma_sum_mono(
    weight: spec_fn(int) -> int,
    s1: spec_fn(int) -> bool,
    s2: spec_fn(int) -> bool,
    n: int,
)
    requires
        forall|i: int| 0 <= i < n && #[trigger] s1(i) ==> s2(i),
        forall|i: int| 0 <= i < n && #[trigger] s2(i) ==> weight(i) >= 0,
    ensures
        sum_where(weight, s1, n) <= sum_where(weight, s2, n),
    decreases n,
{
    if n > 0 {
        lemma_sum_mono(weight, s1, s2, n - 1);
        assert(s1(n - 1) ==> s2(n - 1));
    }
}

/// Taking one index out of the selection.
pub proof fn lemma_sum_point(
    weight: spec_fn(int) -> int,
    selected: spec_fn(int) -> bool,
    n: int,
    k: int,
)
    requires
        0 <= k < n,
    ensures
        sum_where(weight, selected, n) == sum_where(weight, |i: int| selected(i) && i != k, n) + (
        if selected(k) {
            weight(k)
        } else {
            0
        }),
    decreases n,
{
    let rest = |i: int| selected(i) && i != k;
    if n - 1 == k {
        lemma_sum_ext(weight, selected, weight, rest, n - 1);
    } else {
        lemma_sum_point(weight, selected, n - 1, k);
    }
}

/// Splitting a selection by a predicate.
pub proof fn lemma_sum_split(
    weight: spec_fn(int) -> int,
    selected: spec_fn(int) -> bool,
    part: spec_fn(int) -> bool,
    n: int,
)
    ensures
        sum_where(weight, selected, n) == sum_where(weight, |i: int| selected(i) && part(i), n)
            + sum_where(weight, |i: int| selected(i) && !part(i), n),
    decreases n,
{
    if n > 0 {
        lemma_sum_split(weight, selected, part, n - 1);
    }
}

/// Counting never exceeds the number of indices.
pub proof fn lemma_count_bound(selected: spec_fn(int) -> bool, n: int)
    requires
        n >= 0,
    ensures
        0 <= sum_where(unit_weight(), selected, n) <= n,
    decreases n,
{
    if n > 0 {
        lemma_count_bound(selected, n - 1);
    }
}

pub open spec fn bytes_of<T>(slots: Seq<ResourceSlot<T>>) -> spec_fn(int) -> int {
    |i: int| slots[i].bytes as int
}

pub open spec fn live_in<T>(slots: Seq<ResourceSlot<T>>) -> spec_fn(int) -> bool {
    |i: int| 0 <= i < slots.len() && slots[i].value is Some
}

pub open spec fn evictable_in<T>(slots: Seq<ResourceSlot<T>>) -> spec_fn(int) -> bool {
    |i: int| 0 <= i < slots.len() && slots[i].value is Some && !slots[i].pinned
}

pub open spec fn pinned_in<T>(slots: Seq<ResourceSlot<T>>) -> spec_fn(int) -> bool {
    |i: int| 0 <= i < slots.len() && slots[i].value is Some && slots[i].pinned
}

/// Evictable slots that come before slot `i` in eviction order: used less
/// recently, or as recently at a lower index.
pub open spec fn earlier_in<T>(slots: Seq<ResourceSlot<T>>, i: int) -> spec_fn(int) -> bool {
    |j: int|
        0 <= j < slots.len() && slots[j].value is Some && !slots[j].pinned && (
        slots[j].last_used_frame < slots[i].last_used_frame || (slots[j].last_used_frame
            == slots[i].last_used_frame && j < i))
}

/// The abstract state of an arena.
pub struct ArenaView<T> {
    pub slots: Seq<ResourceSlot<T>>,
    pub free: Seq<u32>,
    pub budget_bytes: u64,
    pub metrics: ResourceArenaMetrics,
}

impl<T> ArenaView<T> {
    /// Every admitted resource is resident, was removed, or was evicted.
    pub open spec fn counts_balanced(self) -> bool {
        self.metrics.admissions == self.metrics.removals + self.metrics.evictions
            + self.metrics.resident_entries
    }

    /// Every slot live in `after` other than slot `except` was live in
    /// `self` with the same generation: no handle became valid.
    pub open spec fn live_only_from(self, after: ArenaView<T>, except: int) -> bool {
        forall|i: int|
            #[trigger] after.live(i) && i != except ==> self.live(i) && after.slots[i].generation
                == self.slots[i].generation
    }

    /// None of the admission, removal and eviction counters has reached
    /// `u64::MAX`, where it would saturate.
    pub open spec fn counters_below_max(self) -> bool {
        &&& self.metrics.admissions < u64::MAX
        &&& self.metrics.removals < u64::MAX
        &&& self.metrics.evictions < u64::MAX
    }

    pub open spec fn live(self, i: int) -> bool {
        0 <= i < self.slots.len() && self.slots[i].value is Some
    }

    /// The handle names the current occupant of its slot.
    pub open spec fn live_handle<H: GraphicsHandle>(self, handle: H) -> bool {
        self.live(handle.handle_index() as int) && self.slots[handle.handle_index() as int].generation
            == handle.handle_generation()
    }

    pub open spec fn evictable(self, i: int) -> bool {
        self.live(i) && !self.slots[i].pinned
    }

    /// Slot `j` comes before slot `i` in eviction order: it was used less
    /// recently, or as recently and sits at a lower index.
    pub open spec fn lru_before(self, j: int, i: int) -> bool {
        self.slots[j].last_used_frame < self.slots[i].last_used_frame || (
        self.slots[j].last_used_frame == self.slots[i].last_used_frame && j < i)
    }

    pub open spec fn byte_weight(self) -> spec_fn(int) -> int {
        bytes_of(self.slots)
    }

    pub open spec fn live_sel(self) -> spec_fn(int) -> bool {
        live_in(self.slots)
    }

    pub open spec fn evictable_sel(self) -> spec_fn(int) -> bool {
        evictable_in(self.slots)
    }

    pub open spec fn pinned_sel(self) -> spec_fn(int) -> bool {
        pinned_in(self.slots)
    }

    /// The evictable slots that come before slot `i` in eviction order.
    pub open spec fn earlier_sel(self, i: int) -> spec_fn(int) -> bool {
        earlier_in(self.slots, i)
    }

    pub open spec fn evicted_sel(self, incoming: int) -> spec_fn(int) -> bool {
        |i: int| self.evicted_for(incoming, i)
    }

    /// Bytes held by all slots (empty slots hold none).
    pub open spec fn resident_total(self) -> int {
        sum_where(self.byte_weight(), every_index(), self.slots.len() as int)
    }

    pub open spec fn live_count(self) -> int {
        sum_where(unit_weight(), self.live_sel(), self.slots.len() as int)
    }

    /// Bytes held by pinned resources, which eviction never reclaims.
    pub open spec fn pinned_total(self) -> int {
        sum_where(self.byte_weight(), self.pinned_sel(), self.slots.len() as int)
    }

    /// Bytes held by the evictable resources that come before slot `i` in
    /// eviction order.
    pub open spec fn bytes_before(self, i: int) -> int {
        sum_where(self.byte_weight(), self.earlier_sel(i), self.slots.len() as int)
    }

    /// Making room for `incoming` bytes evicts slot `i`: it is evictable and,
    /// once every evictable resource before it is gone, the arena still
    /// cannot take `incoming` bytes within budget.
    pub open spec fn evicted_for(self, incoming: int, i: int) -> bool {
        self.evictable(i) && self.resident_total() - self.bytes_before(i) + incoming
            > self.budget_bytes
    }

    pub open spec fn eviction_count(self, incoming: int) -> int {
        sum_where(unit_weight(), self.evicted_sel(incoming), self.slots.len() as int)
    }

    /// The slots once room was made for `incoming` bytes.
    pub open spec fn slots_after_eviction(self, incoming: int) -> Seq<ResourceSlot<T>> {
        Seq::new(
            self.slots.len(),
            |i: int|
                if self.evicted_for(incoming, i) {
                    vacated(self.slots[i])
                } else {
                    self.slots[i]
                },
        )
    }

    /// The slots once every unpinned resource was evicted.
    pub open spec fn slots_without_unpinned(self) -> Seq<ResourceSlot<T>> {
        Seq::new(
            self.slots.len(),
            |i: int|
                if self.evictable(i) {
                    vacated(self.slots[i])
                } else {
                    self.slots[i]
                },
        )
    }

    /// The arena after a successful lookup of slot `i` in frame `frame`,
    /// whose resource is now `value`.
    pub open spec fn touched(self, i: int, value: T, frame: u64) -> ArenaView<T> {
        ArenaView {
            slots: self.slots.update(
                i,
                ResourceSlot { value: Some(value), last_used_frame: frame, ..self.slots[i] },
            ),
            metrics: ResourceArenaMetrics {
                cache_hits: sat_add(self.metrics.cache_hits as int, 1),
                ..self.metrics
            },
            ..self
        }
    }

    /// Internal consistency of an arena: metrics agree with the slots, every
    /// empty slot is on the free list exactly once, and no slot has
    /// generation zero.
    pub open spec fn well_formed(self) -> bool {
        &&& self.slots.len() <= u32::MAX
        &&& forall|i: int|
            0 <= i < self.slots.len() ==> (#[trigger] self.slots[i]).generation >= 1
        &&& forall|i: int|
            0 <= i < self.slots.len() && (#[trigger] self.slots[i]).value is None ==> (
            self.slots[i].bytes == 0 && self.slots[i].last_used_frame == 0
                && !self.slots[i].pinned)
        &&& forall|k: int|
            0 <= k < self.free.len() ==> (#[trigger] self.free[k]) < self.slots.len()
                && self.slots[self.free[k] as int].value is None
        &&& self.free.no_duplicates()
        &&& forall|i: int|
            0 <= i < self.slots.len() && (#[trigger] self.slots[i]).value is None
                ==> self.free.contains(i as u32)
        &&& self.metrics.resident_bytes == self.resident_total()
        &&& self.metrics.resident_entries == self.live_count()
        &&& self.metrics.peak_resident_bytes >= self.metrics.resident_bytes
    }
}

/// Replacing one slot changes the resident total by the difference in bytes
/// and the live count by the difference in occupancy.
pub proof fn lemma_update_slot<T>(v1: ArenaView<T>, v2: ArenaView<T>, k: int)
    requires
        0 <= k < v1.slots.len(),
        v2.slots.len() == v1.slots.len(),
        forall|i: int| 0 <= i < v1.slots.len() && i != k ==> v2.slots[i] == v1.slots[i],
    ensures
        v2.resident_total() == v1.resident_total() - v1.slots[k].bytes + v2.slots[k].bytes,
        v2.live_count() == v1.live_count() - (if v1.live(k) {
            1int
        } else {
            0
        }) + (if v2.live(k) {
            1int
        } else {
            0
        }),
{
    let n = v1.slots.len() as int;
    lemma_sum_point(v1.byte_weight(), every_index(), n, k);
    lemma_sum_point(v2.byte_weight(), every_index(), n, k);
    lemma_sum_ext(
        v1.byte_weight(),
        |i: int| every_index()(i) && i != k,
        v2.byte_weight(),
        |i: int| every_index()(i) && i != k,
        n,
    );
    lemma_sum_point(unit_weight(), v1.live_sel(), n, k);
    lemma_sum_point(unit_weight(), v2.live_sel(), n, k);
    lemma_sum_ext(
        unit_weight(),
        |i: int| v1.live_sel()(i) && i != k,
        unit_weight(),
        |i: int| v2.live_sel()(i) && i != k,
        n,
    );
}

/// Slot `i` held a resource in `before` and is empty in `after`.
pub open spec fn vacated_since<T>(before: ArenaView<T>, after: ArenaView<T>, i: int) -> bool {
    before.live(i) && !after.live(i)
}

pub open spec fn vacated_sel<T>(before: ArenaView<T>, after: ArenaView<T>) -> spec_fn(int) -> bool {
    vacated_in(before.slots, after.slots)
}

pub open spec fn vacated_in<T>(before: Seq<ResourceSlot<T>>, after: Seq<ResourceSlot<T>>) -> spec_fn(
    int,
) -> bool {
    |i: int|
        0 <= i < before.len() && before[i].value is Some && !(0 <= i < after.len()
            && after[i].value is Some)
}

/// A selection that accepts nothing sums to zero.
pub proof fn lemma_sum_none(weight: spec_fn(int) -> int, selected: spec_fn(int) -> bool, n: int)
    requires
        forall|i: int| 0 <= i < n ==> !#[trigger] selected(i),
    ensures
        sum_where(weight, selected, n) == 0,
    decreases n,
{
    if n > 0 {
        lemma_sum_none(weight, selected, n - 1);
    }
}

/// The zero weight sums to zero.
pub proof fn lemma_sum_zero(selected: spec_fn(int) -> bool, n: int)
    ensures
        sum_where(zero_weight(), selected, n) == 0,
    decreases n,
{
    if n > 0 {
        lemma_sum_zero(selected, n - 1);
    }
}

/// In a well-formed arena the resident bytes are the pinned bytes plus the
/// evictable bytes.
pub proof fn lemma_resident_split<T>(v: ArenaView<T>)
    requires
        v.well_formed(),
    ensures
        v.resident_total() == v.pinned_total() + sum_where(
            v.byte_weight(),
            v.evictable_sel(),
            v.slots.len() as int,
        ),
        v.pinned_total() >= 0,
{
    let n = v.slots.len() as int;
    let w = v.byte_weight();
    let live = v.live_sel();
    let pinned = |i: int| v.slots[i].pinned;
    lemma_sum_split(w, every_index(), live, n);
    let dead = |i: int| every_index()(i) && !live(i);
    let alive = |i: int| every_index()(i) && live(i);
    lemma_sum_ext(w, dead, zero_weight(), dead, n);
    lemma_sum_zero(dead, n);
    lemma_sum_split(w, alive, pinned, n);
    lemma_sum_ext(w, |i: int| alive(i) && pinned(i), w, v.pinned_sel(), n);
    lemma_sum_ext(w, |i: int| alive(i) && !pinned(i), w, v.evictable_sel(), n);
    lemma_sum_nonneg(w, v.pinned_sel(), n);
}

/// Loop state of making room: `now` is `before` with some evictable
/// resources evicted, each of which had to go, taken in eviction order.
pub open spec fn eviction_progress<T>(before: ArenaView<T>, now: ArenaView<T>, incoming: int) -> bool {
    let n = before.slots.len() as int;
    &&& before.well_formed()
    &&& now.well_formed()
    &&& now.slots.len() == n
    &&& now.budget_bytes == before.budget_bytes
    &&& forall|i: int|
        0 <= i < n ==> #[trigger] now.slots[i] == (if vacated_since(before, now, i) {
            vacated(before.slots[i])
        } else {
            before.slots[i]
        })
    &&& forall|i: int|
        #![trigger vacated_since(before, now, i)]
        vacated_since(before, now, i) ==> before.evicted_for(incoming, i)
    &&& forall|i: int, j: int|
        #![trigger vacated_since(before, now, i), before.evictable(j)]
        vacated_since(before, now, i) && before.evictable(j) && before.lru_before(j, i)
            ==> vacated_since(before, now, j)
    &&& now.resident_total() == before.resident_total() - sum_where(
        before.byte_weight(),
        vacated_sel(before, now),
        n,
    )
    &&& now.metrics == (ResourceArenaMetrics {
        resident_bytes: now.metrics.resident_bytes,
        resident_entries: now.metrics.resident_entries,
        evictions: sat_add(
            before.metrics.evictions as int,
            sum_where(unit_weight(), vacated_sel(before, now), n),
        ),
        ..before.metrics
    })
    &&& now.free.len() == before.free.len() + sum_where(unit_weight(), vacated_sel(before, now), n)
    &&& now.free.subrange(0, before.free.len() as int) == before.free
}

/// Nothing has been evicted yet.
pub proof fn lemma_eviction_start<T>(v0: ArenaView<T>, incoming: int)
    requires
        v0.well_formed(),
    ensures
        eviction_progress(v0, v0, incoming),
{
    let n = v0.slots.len() as int;
    lemma_sum_none(v0.byte_weight(), vacated_sel(v0, v0), n);
    lemma_sum_none(unit_weight(), vacated_sel(v0, v0), n);
    assert(v0.free.subrange(0, v0.free.len() as int) =~= v0.free);
}

/// The slot picked first in eviction order is one that has to go, and all
/// evictable slots before it are already gone.
pub proof fn lemma_candidate_is_evicted<T>(
    v0: ArenaView<T>,
    vb: ArenaView<T>,
    incoming: u64,
    c: int,
)
    requires
        eviction_progress(v0, vb, incoming as int),
        vb.evictable(c),
        forall|j: int| #![trigger vb.evictable(j)] vb.evictable(j) && j != c ==> vb.lru_before(c, j),
        vb.resident_total() + incoming > vb.budget_bytes,
    ensures
        v0.evicted_for(incoming as int, c),
        forall|j: int|
            #![trigger v0.evictable(j)]
            v0.evictable(j) && v0.lru_before(j, c) ==> vacated_since(v0, vb, j),
{
    let n = v0.slots.len() as int;
    assert(vb.slots[c] == v0.slots[c]);
    assert forall|j: int|
        #![trigger v0.evictable(j)]
        v0.evictable(j) && v0.lru_before(j, c) implies vacated_since(v0, vb, j) by {
        if !vacated_since(v0, vb, j) {
            assert(vb.slots[j] == v0.slots[j]);
            assert(vb.evictable(j));
        }
    }
    assert forall|j: int| 0 <= j < n && #[trigger] v0.earlier_sel(c)(j) implies vacated_sel(
        v0,
        vb,
    )(j) by {
        assert(v0.evictable(j) && v0.lru_before(j, c));
    }
    lemma_sum_mono(v0.byte_weight(), v0.earlier_sel(c), vacated_sel(v0, vb), n);
}

/// One eviction keeps the loop state.
pub proof fn lemma_eviction_step<T>(
    v0: ArenaView<T>,
    vb: ArenaView<T>,
    va: ArenaView<T>,
    incoming: u64,
    c: int,
)
    requires
        eviction_progress(v0, vb, incoming as int),
        0 <= c < vb.slots.len(),
        vb.live(c),
        v0.evicted_for(incoming as int, c),
        forall|j: int|
            #![trigger v0.evictable(j)]
            v0.evictable(j) && v0.lru_before(j, c) ==> vacated_since(v0, vb, j),
        va.well_formed(),
        va.budget_bytes == vb.budget_bytes,
        va.slots == vb.slots.update(c, vacated(vb.slots[c])),
        va.free == vb.free.push(c as u32),
        va.metrics == (ResourceArenaMetrics {
            resident_bytes: (vb.metrics.resident_bytes - vb.slots[c].bytes) as u64,
            resident_entries: (vb.metrics.resident_entries - 1) as u32,
            evictions: sat_add(vb.metrics.evictions as int, 1),
            ..vb.metrics
        }),
    ensures
        eviction_progress(v0, va, incoming as int),
        va.live_count() < vb.live_count(),
{
    let n = v0.slots.len() as int;
    assert(vb.slots[c] == v0.slots[c]);
    assert forall|i: int| 0 <= i < n implies vacated_since(v0, va, i) == (vacated_since(v0, vb, i)
        || i == c) by {
        if i != c {
            assert(va.slots[i] == vb.slots[i]);
        }
    }
    assert forall|i: int|
        0 <= i < n implies #[trigger] va.slots[i] == (if vacated_since(v0, va, i) {
            vacated(v0.slots[i])
        } else {
            v0.slots[i]
        }) by {
        if i != c {
            assert(va.slots[i] == vb.slots[i]);
        }
    }
    lemma_update_slot(vb, va, c);
    let rb = vacated_sel(v0, vb);
    let ra = vacated_sel(v0, va);
    lemma_sum_point(v0.byte_weight(), ra, n, c);
    lemma_sum_ext(v0.byte_weight(), |i: int| ra(i) && i != c, v0.byte_weight(), rb, n);
    lemma_sum_point(unit_weight(), ra, n, c);
    lemma_sum_ext(unit_weight(), |i: int| ra(i) && i != c, unit_weight(), rb, n);
    lemma_count_bound(rb, n);
    assert(ra(c));
    assert(va.free.subrange(0, v0.free.len() as int) =~= v0.free) by {
        assert(vb.free.subrange(0, v0.free.len() as int) == v0.free);
        assert forall|k: int| 0 <= k < v0.free.len() implies va.free[k] == vb.free[k] by {}
    }
    assert(va.resident_total() == v0.resident_total() - sum_where(
        v0.byte_weight(),
        vacated_sel(v0, va),
        n,
    ));
    assert(forall|i: int|
        #![trigger vacated_since(v0, va, i)]
        vacated_since(v0, va, i) ==> v0.evicted_for(incoming as int, i));
    assert(forall|i: int, j: int|
        #![trigger vacated_since(v0, va, i), v0.evictable(j)]
        vacated_since(v0, va, i) && v0.evictable(j) && v0.lru_before(j, i)
            ==> vacated_since(v0, va, j));
    assert(va.metrics.evictions == sat_add(
            v0.metrics.evictions as int,
            sum_where(unit_weight(), vacated_sel(v0, va), n)));
}

/// When the loop stops, exactly the slots that had to go are gone.
pub proof fn lemma_eviction_result<T>(v0: ArenaView<T>, v: ArenaView<T>, incoming: u64)
    requires
        eviction_progress(v0, v, incoming as int),
        v.resident_total() + incoming <= v.budget_bytes || forall|i: int| !v.evictable(i),
    ensures
        v.slots == v0.slots_after_eviction(incoming as int),
        sum_where(unit_weight(), vacated_sel(v0, v), v0.slots.len() as int) == v0.eviction_count(
            incoming as int,
        ),
        v0.pinned_total() <= v.resident_total(),
        v.resident_total() + incoming <= v.budget_bytes || v.resident_total() == v0.pinned_total(),
{
    let n = v0.slots.len() as int;
    let removed = vacated_sel(v0, v);
    assert forall|i: int| 0 <= i < n implies #[trigger] removed(i) == v0.evicted_for(
        incoming as int,
        i,
    ) by {
        if v0.evicted_for(incoming as int, i) && !removed(i) {
            assert(v.slots[i] == v0.slots[i]);
            assert(v.evictable(i));
            let earlier = v0.earlier_sel(i);
            assert forall|j: int| 0 <= j < n && #[trigger] removed(j) implies earlier(j) by {
                assert(v0.evicted_for(incoming as int, j));
                if !v0.lru_before(j, i) {
                    assert(v0.lru_before(i, j));
                }
            }
            lemma_sum_mono(v0.byte_weight(), removed, earlier, n);
        }
    }
    assert forall|i: int| 0 <= i < n implies v.slots[i] == v0.slots_after_eviction(
        incoming as int,
    )[i] by {
        assert(v.slots[i] == (if vacated_since(v0, v, i) {
            vacated(v0.slots[i])
        } else {
            v0.slots[i]
        }));
        assert(removed(i) == v0.evicted_for(incoming as int, i));
    }
    assert(v.slots =~= v0.slots_after_eviction(incoming as int));
    lemma_sum_ext(unit_weight(), removed, unit_weight(), v0.evicted_sel(incoming as int), n);
    assert forall|i: int| 0 <= i < n implies #[trigger] v0.pinned_sel()(i) == v.pinned_sel()(i) && (
    v0.pinned_sel()(i) ==> v0.slots[i] == v.slots[i]) by {
        if removed(i) {
            assert(v0.evicted_for(incoming as int, i));
        }
    }
    lemma_sum_ext(v0.byte_weight(), v0.pinned_sel(), v.byte_weight(), v.pinned_sel(), n);
    lemma_resident_split(v);
    lemma_sum_nonneg(v.byte_weight(), v.evictable_sel(), n);
    if forall|i: int| !v.evictable(i) {
        assert forall|i: int| 0 <= i < n implies !#[trigger] v.evictable_sel()(i) by {
            assert(!v.evictable(i));
        }
        lemma_sum_none(v.byte_weight(), v.evictable_sel(), n);
    }
}

/// Appending a slot adds its bytes and occupancy to the totals.
pub proof fn lemma_push_slot<T>(v1: ArenaView<T>, v2: ArenaView<T>)
    requires
        v2.slots.len() == v1.slots.len() + 1,
        forall|i: int| 0 <= i < v1.slots.len() ==> v2.slots[i] == v1.slots[i],
    ensures
        v2.resident_total() == v1.resident_total() + v2.slots.last().bytes,
        v2.live_count() == v1.live_count() + (if v2.slots.last().value is Some {
            1int
        } else {
            0
        }),
{
    let n = v1.slots.len() as int;
    lemma_sum_ext(v1.byte_weight(), every_index(), v2.byte_weight(), every_index(), n);
    lemma_sum_ext(unit_weight(), v1.live_sel(), unit_weight(), v2.live_sel(), n);
}

/// An arena with an empty slot has fewer live slots than slots.
pub proof fn lemma_live_count_below<T>(v: ArenaView<T>, k: int)
    requires
        0 <= k < v.slots.len(),
        !v.live(k),
    ensures
        v.live_count() <= v.slots.len() - 1,
{
    let n = v.slots.len() as int;
    lemma_sum_point(unit_weight(), v.live_sel(), n, k);
    lemma_count_bound(|i: int| v.live_sel()(i) && i != k, n);
    lemma_sum_point(unit_weight(), |i: int| v.live_sel()(i) && i != k, n, k);
    lemma_sum_point(unit_weight(), every_index(), n, k);
    lemma_sum_mono(
        unit_weight(),
        |i: int| (|i: int| v.live_sel()(i) && i != k)(i) && i != k,
        |i: int| every_index()(i) && i != k,
        n,
    );
    lemma_count_all(n);
}

/// Counting every index below `n` gives `n`.
pub proof fn lemma_count_all(n: int)
    requires
        n >= 0,
    ensures
        sum_where(unit_weight(), every_index(), n) == n,
    decreases n,
{
    if n > 0 {
        lemma_count_all(n - 1);
    }
}

/// Changing only the value and last use of a live slot keeps an arena well
/// formed.
pub proof fn lemma_touch_keeps_well_formed<T>(v1: ArenaView<T>, v2: ArenaView<T>, k: int)
    requires
        v1.well_formed(),
        v1.live(k),
        touch_keeps(v1, v2, k),
    ensures
        v2.well_formed(),
{
    lemma_update_slot(v1, v2, k);
}

/// `v2` is `v1` with the value and last use of live slot `k` changed, and
/// counters other than the residency ones possibly changed.
pub open spec fn touch_keeps<T>(v1: ArenaView<T>, v2: ArenaView<T>, k: int) -> bool {
    &&& v2.slots.len() == v1.slots.len()
    &&& forall|i: int| 0 <= i < v1.slots.len() && i != k ==> v2.slots[i] == v1.slots[i]
    &&& v2.slots[k].value is Some
    &&& v2.slots[k].bytes == v1.slots[k].bytes
    &&& v2.slots[k].generation == v1.slots[k].generation
    &&& v2.slots[k].pinned == v1.slots[k].pinned
    &&& v2.free == v1.free
    &&& v2.metrics.resident_bytes == v1.metrics.resident_bytes
    &&& v2.metrics.resident_entries == v1.metrics.resident_entries
    &&& v2.metrics.peak_resident_bytes == v1.metrics.peak_resident_bytes
}

/// `v2` is `v1` with only the pin of live slot `k` changed.
pub open spec fn pin_keeps<T>(v1: ArenaView<T>, v2: ArenaView<T>, k: int) -> bool {
    &&& v2.slots.len() == v1.slots.len()
    &&& forall|i: int| 0 <= i < v1.slots.len() && i != k ==> v2.slots[i] == v1.slots[i]
    &&& v2.slots[k] == (ResourceSlot { pinned: v2.slots[k].pinned, ..v1.slots[k] })
    &&& v2.free == v1.free
    &&& v2.metrics == v1.metrics
    &&& v2.budget_bytes == v1.budget_bytes
}

pub proof fn lemma_pin_keeps_well_formed<T>(v1: ArenaView<T>, v2: ArenaView<T>, k: int)
    requires
        v1.well_formed(),
        v1.live(k),
        pin_keeps(v1, v2, k),
    ensures
        v2.well_formed(),
{
    lemma_update_slot(v1, v2, k);
}

/// Vacating live slot `k` and pushing it on the free list keeps the free
/// list exact.
pub proof fn lemma_vacate_keeps_free_list<T>(v0: ArenaView<T>, v: ArenaView<T>, k: int)
    requires
        v0.well_formed(),
        v0.live(k),
        v.slots == v0.slots.update(k, vacated(v0.slots[k])),
        v.free == v0.free.push(k as u32),
    ensures
        v.free.no_duplicates(),
        forall|j: int|
            0 <= j < v.free.len() ==> (#[trigger] v.free[j]) < v.slots.len() && v.slots[v.free[j] as int].value is None,
        forall|i: int|
            0 <= i < v.slots.len() && (#[trigger] v.slots[i]).value is None ==> v.free.contains(i as u32),
{
    assert(!v0.free.contains(k as u32));
    assert forall|j: int| 0 <= j < v.free.len() implies (#[trigger] v.free[j]) < v.slots.len()
        && v.slots[v.free[j] as int].value is None by {
        if j < v0.free.len() {
            assert(v.free[j] == v0.free[j]);
        }
    }
    assert forall|i: int| 0 <= i < v.slots.len() && (#[trigger] v.slots[i]).value is None
        implies v.free.contains(i as u32) by {
        if i != k {
            assert(v0.free.contains(i as u32));
            let j = choose|j: int| 0 <= j < v0.free.len() && v0.free[j] == i as u32;
            assert(v.free[j] == i as u32);
        } else {
            assert(v.free[v0.free.len() as int] == i as u32);
        }
    }
}

/// Law: making room never evicts a pinned resource; its slot is left as it
/// was.
pub proof fn law_eviction_spares_pinned<T>(v: ArenaView<T>, incoming: int, i: int)
    requires
        v.live(i),
        v.slots[i].pinned,
    ensures
        v.slots_after_eviction(incoming)[i] == v.slots[i],
{
}

/// Law: eviction follows eviction order. When a resource is evicted, every
/// evictable resource used less recently (or as recently at a lower index)
/// is evicted too.
pub proof fn law_eviction_follows_lru_order<T>(v: ArenaView<T>, incoming: int, i: int, j: int)
    requires
        v.evicted_for(incoming, i),
        v.evictable(j),
        v.lru_before(j, i),
    ensures
        v.evicted_for(incoming, j),
{
    let n = v.slots.len() as int;
    assert forall|k: int| 0 <= k < n && #[trigger] v.earlier_sel(j)(k) implies v.earlier_sel(i)(k) by {
        assert(v.lru_before(k, j));
    }
    lemma_sum_mono(v.byte_weight(), v.earlier_sel(j), v.earlier_sel(i), n);
}

/// Law: an evicted or removed resource leaves its slot with another
/// generation, never zero, so the handle that named it is stale and does
/// not name the slot's next occupant.
pub proof fn law_vacated_slot_changes_generation<T>(slot: ResourceSlot<T>)
    ensures
        vacated(slot).generation != slot.generation,
        vacated(slot).generation >= 1,
        vacated(slot).value is None,
{
}

/// Law: in a consistent arena the metrics count exactly the held
/// resources and their bytes, and the resident bytes are the pinned bytes
/// plus the evictable bytes.
pub proof fn law_metrics_match_contents<T>(v: ArenaView<T>)
    requires
        v.well_formed(),
    ensures
        v.metrics.resident_bytes == v.resident_total(),
        v.metrics.resident_entries == v.live_count(),
        v.metrics.peak_resident_bytes >= v.metrics.resident_bytes,
        v.resident_total() == v.pinned_total() + sum_where(
            v.byte_weight(),
            v.evictable_sel(),
            v.slots.len() as int,
        ),
{
    lemma_resident_split(v);
}

/// Selects no slot.
pub open spec fn no_slots() -> spec_fn(int) -> bool {
    |i: int| false
}

/// Selects slot `k` alone.
pub open spec fn only_slot(k: int) -> spec_fn(int) -> bool {
    |i: int| i == k
}

impl<T> ArenaView<T> {
    /// Slot `i` of `self` is still held by `after`, under the same generation.
    pub open spec fn keeps(self, after: ArenaView<T>, i: int) -> bool {
        after.live(i) && after.slots[i].generation == self.slots[i].generation
    }

    /// Of the slots held in `self`, `after` lets go of exactly those that
    /// `retired` selects.
    pub open spec fn retires_exactly(self, after: ArenaView<T>, retired: spec_fn(int) -> bool) -> bool {
        forall|i: int| #[trigger] self.live(i) ==> (self.keeps(after, i) <==> !retired(i))
    }

    /// One operation takes the arena from `self` to `after`: the result is
    /// consistent, no handle becomes valid but one in slot `issued` (-1 for
    /// none), the held resources let go of are those `retired` selects, a
    /// refused admission is counted when `refused`, and the admission count
    /// stays balanced while no counter saturates.
    pub open spec fn arena_step(
        self,
        after: ArenaView<T>,
        issued: int,
        retired: spec_fn(int) -> bool,
        refused: bool,
    ) -> bool {
        &&& after.well_formed()
        &&& self.live_only_from(after, issued)
        &&& self.retires_exactly(after, retired)
        &&& after.metrics.rejected_admissions == if refused {
            sat_add(self.metrics.rejected_admissions as int, 1)
        } else {
            self.metrics.rejected_admissions
        }
        &&& self.counts_balanced() && after.counters_below_max() ==> after.counts_balanced()
    }
}

/// Room made for `incoming` bytes lets go of exactly the evicted resources.
proof fn lemma_eviction_retires<T>(v0: ArenaView<T>, v1: ArenaView<T>, incoming: int)
    requires
        v1.slots == v0.slots_after_eviction(incoming),
    ensures
        v0.retires_exactly(v1, v0.evicted_sel(incoming)),
{
    assert forall|i: int| #[trigger] v0.live(i) implies (v0.keeps(v1, i) <==> !v0.evicted_sel(
        incoming,
    )(i)) by {
        law_vacated_slot_changes_generation(v0.slots[i]);
    }
}

/// Number of `true` entries.
pub open spec fn count_true(flags: Seq<bool>) -> int
    decreases flags.len(),
{
    if flags.len() == 0 {
        0
    } else {
        count_true(flags.drop_last()) + if flags.last() {
            1int
        } else {
            0int
        }
    }
}

/// `n`, or `u64::MAX` where `n` exceeds it.
pub open spec fn saturated(n: int) -> int {
    if n <= u64::MAX {
        n
    } else {
        u64::MAX as int
    }
}

/// Step `k` of an arena history.
pub open spec fn history_step<T>(
    views: Seq<ArenaView<T>>,
    issued: Seq<int>,
    retired: Seq<spec_fn(int) -> bool>,
    refused: Seq<bool>,
    k: int,
) -> bool {
    views[k].arena_step(views[k + 1], issued[k], retired[k], refused[k])
}

/// A history of an arena: `views[0]` is a fresh arena and each `views[k + 1]`
/// follows from `views[k]` by one operation, which issued a handle in slot
/// `issued[k]` (-1 for none), let go of the resources `retired[k]` selects,
/// and was a refused admission when `refused[k]`.
pub open spec fn arena_history<T>(
    views: Seq<ArenaView<T>>,
    issued: Seq<int>,
    retired: Seq<spec_fn(int) -> bool>,
    refused: Seq<bool>,
) -> bool {
    &&& views.len() == issued.len() + 1
    &&& retired.len() == issued.len()
    &&& refused.len() == issued.len()
    &&& views[0].well_formed()
    &&& views[0].slots.len() == 0
    &&& views[0].metrics == ResourceArenaMetrics::zero()
    &&& forall|k: int|
        0 <= k < issued.len() ==> #[trigger] history_step(views, issued, retired, refused, k)
}

/// The handle was issued in some step before `j` and no step after it, up
/// to `j`, let go of its resource.
pub open spec fn issued_and_kept<T, H: GraphicsHandle>(
    views: Seq<ArenaView<T>>,
    issued: Seq<int>,
    retired: Seq<spec_fn(int) -> bool>,
    handle: H,
    j: int,
) -> bool {
    exists|k: int|
        #![trigger views[k + 1].live_handle(handle)]
        0 <= k < j && issued[k] == handle.handle_index() as int && views[k + 1].live_handle(handle)
            && forall|m: int| k < m < j ==> !(#[trigger] retired[m])(handle.handle_index() as int)
}

proof fn lemma_history_metrics<T>(
    views: Seq<ArenaView<T>>,
    issued: Seq<int>,
    retired: Seq<spec_fn(int) -> bool>,
    refused: Seq<bool>,
    j: int,
)
    requires
        arena_history(views, issued, retired, refused),
        0 <= j < views.len(),
    ensures
        views[j].well_formed(),
        views[j].metrics.rejected_admissions == saturated(count_true(refused.take(j))),
        (forall|k: int| 0 <= k <= j ==> #[trigger] views[k].counters_below_max())
            ==> views[j].counts_balanced(),
    decreases j,
{
    if j > 0 {
        lemma_history_metrics(views, issued, retired, refused, j - 1);
        assert(history_step(views, issued, retired, refused, j - 1));
        assert(refused.take(j).drop_last() =~= refused.take(j - 1));
        if forall|k: int| 0 <= k <= j ==> #[trigger] views[k].counters_below_max() {
            assert(views[j].counters_below_max());
            assert forall|k: int| 0 <= k <= j - 1 implies #[trigger] views[k].counters_below_max() by {
                assert(views[k].counters_below_max());
            }
        }
    } else {
        assert(refused.take(0) =~= Seq::<bool>::empty());
    }
}

proof fn lemma_history_handles<T, H: GraphicsHandle>(
    views: Seq<ArenaView<T>>,
    issued: Seq<int>,
    retired: Seq<spec_fn(int) -> bool>,
    refused: Seq<bool>,
    handle: H,
    j: int,
)
    requires
        arena_history(views, issued, retired, refused),
        0 <= j < views.len(),
    ensures
        views[j].live_handle(handle) <==> issued_and_kept(views, issued, retired, handle, j),
    decreases j,
{
    let idx = handle.handle_index() as int;
    if j > 0 {
        lemma_history_handles(views, issued, retired, refused, handle, j - 1);
        assert(history_step(views, issued, retired, refused, j - 1));
        let before = views[j - 1];
        let after = views[j];
        if after.live_handle(handle) {
            if issued[j - 1] == idx {
                assert(issued_and_kept(views, issued, retired, handle, j));
            } else {
                assert(after.live(idx));
                assert(before.live_handle(handle));
                assert(before.live(idx));
                assert(before.keeps(after, idx));
                assert(!retired[j - 1](idx));
                let k = choose|k: int|
                    #![trigger views[k + 1].live_handle(handle)]
                    0 <= k < j - 1 && issued[k] == idx && views[k + 1].live_handle(handle) && forall|
                        m: int,
                    | k < m < j - 1 ==> !(#[trigger] retired[m])(idx);
                assert forall|m: int| k < m < j implies !(#[trigger] retired[m])(idx) by {
                    if m < j - 1 {
                    }
                }
                assert(issued_and_kept(views, issued, retired, handle, j));
            }
        }
        if issued_and_kept(views, issued, retired, handle, j) {
            let k = choose|k: int|
                #![trigger views[k + 1].live_handle(handle)]
                0 <= k < j && issued[k] == idx && views[k + 1].live_handle(handle) && forall|m: int|
                    k < m < j ==> !(#[trigger] retired[m])(idx);
            if k < j - 1 {
                assert(!retired[j - 1](idx));
                assert(issued_and_kept(views, issued, retired, handle, j - 1));
                assert(before.live_handle(handle));
                assert(before.live(idx));
                assert(before.keeps(after, idx));
            }
            assert(after.live_handle(handle));
        }
    } else {
        assert(!views[0].live(idx));
    }
}

/// Law: along any history of an arena, the metrics stay consistent with
/// what the arena holds, the refused admissions are counted one by one
/// (saturating at `u64::MAX`), and while no counter saturates every
/// admitted resource is held, removed or evicted.
pub proof fn law_history_keeps_metrics<T>(
    views: Seq<ArenaView<T>>,
    issued: Seq<int>,
    retired: Seq<spec_fn(int) -> bool>,
    refused: Seq<bool>,
)
    requires
        arena_history(views, issued, retired, refused),
    ensures
        views.last().well_formed(),
        views.last().metrics.resident_entries == views.last().live_count(),
        views.last().metrics.resident_bytes == views.last().resident_total(),
        views.last().metrics.peak_resident_bytes >= views.last().metrics.resident_bytes,
        views.last().metrics.rejected_admissions == saturated(count_true(refused)),
        (forall|k: int| 0 <= k < views.len() ==> #[trigger] views[k].counters_below_max())
            ==> views.last().counts_balanced(),
{
    let n = issued.len() as int;
    lemma_history_metrics(views, issued, retired, refused, n);
    assert(refused.take(n) =~= refused);
}

/// Law: along any history of an arena, a handle is held at the end exactly
/// when some step issued it and no later step let go of its resource; a
/// fresh arena holds no handle.
pub proof fn law_held_handles_were_issued_and_kept<T, H: GraphicsHandle>(
    views: Seq<ArenaView<T>>,
    issued: Seq<int>,
    retired: Seq<spec_fn(int) -> bool>,
    refused: Seq<bool>,
    handle: H,
)
    requires
        arena_history(views, issued, retired, refused),
    ensures
        views.last().live_handle(handle) <==> issued_and_kept(
            views,
            issued,
            retired,
            handle,
            issued.len() as int,
        ),
        !views[0].live_handle(handle),
{
    lemma_history_handles(views, issued, retired, refused, handle, issued.len() as int);
}

/// Law: no consistent arena holds a handle whose index is `u32::MAX`, such
/// as the invalid handle.
pub proof fn law_max_index_handle_is_never_held<T, H: GraphicsHandle>(v: ArenaView<T>, handle: H)
    requires
        v.well_formed(),
        handle.handle_index() == u32::MAX,
    ensures
        !v.live_handle(handle),
{
}

/// A residency arena: values of type `T` addressed by handles of type `H`,
/// admitted against a byte budget.
pub struct ResourceArena<H, T> where H: GraphicsHandle {
    slots: Vec<ResourceSlot<T>>,
    free: Vec<u32>,
    budget_bytes: u64,
    metrics: ResourceArenaMetrics,
    marker: PhantomData<H>,
}

impl<H: GraphicsHandle, T> View for ResourceArena<H, T> {
    type V = ArenaView<T>;

    closed spec fn view(&self) -> ArenaView<T> {
        ArenaView {
            slots: self.slots@,
            free: self.free@,
            budget_bytes: self.budget_bytes,
            metrics: self.metrics,
        }
    }
}

impl<H: GraphicsHandle, T> ResourceArena<H, T> {
    /// An empty arena with the given byte budget.
    pub fn new(budget_bytes: u64) -> (arena: Self)
        ensures
            arena@.well_formed(),
            arena@.slots.len() == 0,
            arena@.free.len() == 0,
            arena@.budget_bytes == budget_bytes,
            arena@.metrics == ResourceArenaMetrics::zero(),
            arena@.counts_balanced(),
    {
        let arena = ResourceArena {
            slots: Vec::new(),
            free: Vec::new(),
            budget_bytes,
            metrics: ResourceArenaMetrics::default(),
            marker: PhantomData,
        };
        proof {
            assert(arena@.free =~= Seq::<u32>::empty());
        }
        arena
    }

    pub fn budget_bytes(&self) -> (budget: u64)
        ensures
            budget == self@.budget_bytes,
    {
        self.budget_bytes
    }

    pub fn metrics(&self) -> (metrics: ResourceArenaMetrics)
        ensures
            metrics == self@.metrics,
    {
        self.metrics
    }

    /// Whether the handle names a resource the arena currently holds.
    pub fn contains(&self, handle: H) -> (found: bool)
        requires
            self@.well_formed(),
        ensures
            found == self@.live_handle(handle),
    {
        self.slot(handle).is_some()
    }

    fn budget_error(&self, requested_bytes: u64) -> (error: ResourceBudgetError)
        ensures
            error == (ResourceBudgetError {
                requested_bytes,
                resident_bytes: self@.metrics.resident_bytes,
                budget_bytes: self@.budget_bytes,
            }),
    {
        ResourceBudgetError {
            requested_bytes,
            resident_bytes: self.metrics.resident_bytes,
            budget_bytes: self.budget_bytes,
        }
    }

    /// Admits a resource. When the budget cannot take its bytes, unpinned
    /// resources are evicted in eviction order first; the admission is
    /// refused when it exceeds the budget on its own or when it cannot fit
    /// beside the pinned resources.
    pub fn insert(&mut self, value: T, admission: ResourceAdmission) -> (result: Result<
        H,
        ResourceBudgetError,
    >)
        requires
            old(self)@.well_formed(),
            old(self)@.slots.len() < u32::MAX,
            old(self)@.budget_bytes < u64::MAX || old(self)@.metrics.resident_bytes
                + admission.bytes <= u64::MAX,
        ensures
            final(self)@.well_formed(),
            final(self)@.budget_bytes == old(self)@.budget_bytes,
            result is Err <==> (admission.bytes > old(self)@.budget_bytes || old(
                self,
            )@.pinned_total() + admission.bytes > old(self)@.budget_bytes),
            admission.bytes > old(self)@.budget_bytes ==> final(self)@ == (ArenaView {
                metrics: ResourceArenaMetrics {
                    rejected_admissions: sat_add(
                        old(self)@.metrics.rejected_admissions as int,
                        1,
                    ),
                    ..old(self)@.metrics
                },
                ..old(self)@
            }),
            result matches Err(error) ==> error == (ResourceBudgetError {
                requested_bytes: admission.bytes,
                resident_bytes: final(self)@.metrics.resident_bytes,
                budget_bytes: old(self)@.budget_bytes,
            }),
            admission.bytes <= old(self)@.budget_bytes ==> ({
                let after = old(self)@.slots_after_eviction(admission.bytes as int);
                let evicted = old(self)@.eviction_count(admission.bytes as int);
                &&& final(self)@.metrics.evictions == sat_add(
                    old(self)@.metrics.evictions as int,
                    evicted,
                )
                &&& final(self)@.metrics.removals == old(self)@.metrics.removals
                &&& final(self)@.metrics.cache_hits == old(self)@.metrics.cache_hits
                &&& final(self)@.metrics.stale_handle_misses
                    == old(self)@.metrics.stale_handle_misses
                &&& result is Err ==> {
                    &&& final(self)@.slots == after
                    &&& final(self)@.metrics.rejected_admissions == sat_add(
                        old(self)@.metrics.rejected_admissions as int,
                        1,
                    )
                    &&& final(self)@.metrics.admissions == old(self)@.metrics.admissions
                    &&& final(self)@.metrics.peak_resident_bytes
                        == old(self)@.metrics.peak_resident_bytes
                }
                &&& result matches Ok(handle) ==> {
                    let i = handle.handle_index() as int;
                    &&& final(self)@.live_handle(handle)
                    &&& final(self)@.metrics.resident_bytes <= final(self)@.budget_bytes
                    &&& i <= after.len()
                    &&& i < after.len() ==> after[i].value is None
                    &&& (i == after.len()) == (forall|j: int|
                        0 <= j < after.len() ==> (#[trigger] after[j]).value is Some)
                    &&& evicted == 0 && old(self)@.free.len() > 0 ==> i == old(
                        self,
                    )@.free.last()
                    &&& final(self)@.slots.len() == if i == after.len() {
                        after.len() + 1int
                    } else {
                        after.len() as int
                    }
                    &&& forall|j: int|
                        0 <= j < after.len() && j != i ==> #[trigger] final(self)@.slots[j]
                            == after[j]
                    &&& final(self)@.slots[i] == (ResourceSlot {
                        generation: if i < after.len() {
                            after[i].generation
                        } else {
                            1
                        },
                        value: Some(value),
                        bytes: admission.bytes,
                        last_used_frame: admission.frame_index,
                        pinned: admission.pinned,
                    })
                    &&& final(self)@.metrics.admissions == sat_add(
                        old(self)@.metrics.admissions as int,
                        1,
                    )
                    &&& final(self)@.metrics.rejected_admissions
                        == old(self)@.metrics.rejected_admissions
                    &&& final(self)@.metrics.peak_resident_bytes == if old(
                        self,
                    )@.metrics.peak_resident_bytes >= final(self)@.metrics.resident_bytes {
                        old(self)@.metrics.peak_resident_bytes
                    } else {
                        final(self)@.metrics.resident_bytes
                    }
                }
            }),
            old(self)@.arena_step(
                final(self)@,
                (match result {
                    Ok(handle) => handle.handle_index() as int,
                    Err(_) => -1,
                }),
                if admission.bytes <= old(self)@.budget_bytes {
                    old(self)@.evicted_sel(admission.bytes as int)
                } else {
                    no_slots()
                },
                result is Err,
            ),
    {
        if admission.bytes > self.budget_bytes {
            self.metrics.rejected_admissions = self.metrics.rejected_admissions.saturating_add(1);
            return Err(self.budget_error(admission.bytes));
        }
        let ghost v0 = self@;
        self.evict_to_budget(admission.bytes);
        let ghost ve = self@;
        if self.metrics.resident_bytes.saturating_add(admission.bytes) > self.budget_bytes {
            self.metrics.rejected_admissions = self.metrics.rejected_admissions.saturating_add(1);
            proof {
                lemma_eviction_retires(v0, self@, admission.bytes as int);
            }
            return Err(self.budget_error(admission.bytes));
        }
        let index: u32 = match self.free.pop() {
            Some(index) => index,
            None => {
                let index = self.slots.len() as u32;
                self.slots.push(ResourceSlot::default());
                index
            },
        };
        let ghost vp = self@;
        let slot = &mut self.slots[index as usize];
        slot.value = Some(value);
        slot.bytes = admission.bytes;
        slot.last_used_frame = admission.frame_index;
        slot.pinned = admission.pinned;
        let generation = slot.generation;
        self.metrics.resident_bytes = self.metrics.resident_bytes.saturating_add(admission.bytes);
        self.metrics.resident_entries = self.metrics.resident_entries.saturating_add(1);
        self.metrics.peak_resident_bytes = self.metrics.peak_resident_bytes.max(
            self.metrics.resident_bytes,
        );
        self.metrics.admissions = self.metrics.admissions.saturating_add(1);
        proof {
            let vf = self@;
            let n = ve.slots.len() as int;
            if index < n {
                assert(ve.free.len() > 0);
                assert(vf.free == ve.free.drop_last());
                assert(index == ve.free.last());
                assert(vf.slots =~= ve.slots.update(index as int, vf.slots[index as int]));
                lemma_update_slot(ve, vf, index as int);
                lemma_live_count_below(ve, index as int);
                assert forall|k: int| 0 <= k < vf.free.len() implies (#[trigger] vf.free[k])
                    < vf.slots.len() && vf.slots[vf.free[k] as int].value is None by {
                    assert(vf.free[k] == ve.free[k]);
                    assert(ve.free[k] != ve.free[ve.free.len() - 1]);
                }
                assert forall|i: int|
                    0 <= i < vf.slots.len() && (#[trigger] vf.slots[i]).value is None
                        implies vf.free.contains(i as u32) by {
                    assert(ve.free.contains(i as u32));
                    let k = choose|k: int| 0 <= k < ve.free.len() && ve.free[k] == i as u32;
                    assert(k != ve.free.len() - 1);
                    assert(vf.free[k] == i as u32);
                }
            } else {
                assert(ve.free.len() == 0);
                assert forall|j: int| 0 <= j < n implies (#[trigger] ve.slots[j]).value is Some by {
                    if ve.slots[j].value is None {
                        assert(ve.free.contains(j as u32));
                    }
                }
                lemma_push_slot(ve, vf);
                lemma_count_bound(ve.live_sel(), n);
            }
            assert(vf.free.no_duplicates());
            lemma_eviction_retires(v0, ve, admission.bytes as int);
            assert forall|i: int| #[trigger] v0.live(i) implies (v0.keeps(vf, i) <==> !v0.evicted_sel(
                admission.bytes as int,
            )(i)) by {
                assert(v0.keeps(ve, i) <==> !v0.evicted_sel(admission.bytes as int)(i));
                if i == index as int {
                    law_vacated_slot_changes_generation(v0.slots[i]);
                }
            }
            assert(vf.metrics.resident_bytes == vf.resident_total());
            assert(vf.metrics.resident_entries == vf.live_count());
        }
        Ok(H::from_parts(index, generation))
    }

    /// Changes the budget and evicts unpinned resources, in eviction order,
    /// until the resident bytes fit the new budget or nothing evictable is
    /// left.
    pub fn set_budget_bytes(&mut self, budget_bytes: u64)
        requires
            old(self)@.well_formed(),
        ensures
            final(self)@.well_formed(),
            final(self)@.budget_bytes == budget_bytes,
            ({
                let rebudgeted = ArenaView { budget_bytes, ..old(self)@ };
                &&& final(self)@.slots == rebudgeted.slots_after_eviction(0)
                &&& final(self)@.metrics == (ResourceArenaMetrics {
                    resident_bytes: final(self)@.metrics.resident_bytes,
                    resident_entries: final(self)@.metrics.resident_entries,
                    evictions: sat_add(
                        old(self)@.metrics.evictions as int,
                        rebudgeted.eviction_count(0),
                    ),
                    ..old(self)@.metrics
                })
            }),
            final(self)@.resident_total() <= budget_bytes || final(self)@.resident_total()
                == old(self)@.pinned_total(),
            old(self)@.arena_step(
                final(self)@,
                -1,
                (ArenaView { budget_bytes, ..old(self)@ }).evicted_sel(0),
                false,
            ),
    {
        self.budget_bytes = budget_bytes;
        let ghost rebudgeted = self@;
        self.evict_to_budget(0);
        proof {
            lemma_eviction_retires(rebudgeted, self@, 0);
        }
    }

    /// Looks a resource up and records `frame_index` as its last use. A
    /// stale or unknown handle counts as a miss and finds nothing.
    pub fn get(&mut self, handle: H, frame_index: u64) -> (found: Option<&T>)
        requires
            old(self)@.well_formed(),
        ensures
            final(self)@.well_formed(),
            final(self)@.budget_bytes == old(self)@.budget_bytes,
            final(self)@.free == old(self)@.free,
            found is Some <==> old(self)@.live_handle(handle),
            ({
                let i = handle.handle_index() as int;
                if old(self)@.live_handle(handle) {
                    &&& Some(*found.unwrap()) == old(self)@.slots[i].value
                    &&& final(self)@.slots == old(self)@.slots.update(
                        i,
                        ResourceSlot { last_used_frame: frame_index, ..old(self)@.slots[i] },
                    )
                    &&& final(self)@.metrics == (ResourceArenaMetrics {
                        cache_hits: sat_add(old(self)@.metrics.cache_hits as int, 1),
                        ..old(self)@.metrics
                    })
                } else {
                    &&& final(self)@.slots == old(self)@.slots
                    &&& final(self)@.metrics == (ResourceArenaMetrics {
                        stale_handle_misses: sat_add(
                            old(self)@.metrics.stale_handle_misses as int,
                            1,
                        ),
                        ..old(self)@.metrics
                    })
                }
            }),
            old(self)@.arena_step(final(self)@, -1, no_slots(), false),
    {
        let index = handle.index() as usize;
        let valid = index < self.slots.len() && self.slots[index].generation == handle.generation()
            && self.slots[index].value.is_some();
        if !valid {
            self.metrics.stale_handle_misses = self.metrics.stale_handle_misses.saturating_add(1);
            return None;
        }
        self.metrics.cache_hits = self.metrics.cache_hits.saturating_add(1);
        let ghost v0 = self@;
        let slot = &mut self.slots[index];
        slot.last_used_frame = frame_index;
        proof {
            assert(self@.slots =~= v0.slots.update(index as int, self@.slots[index as int]));
            lemma_update_slot(v0, self@, index as int);
        }
        self.slots[index].value.as_ref()
    }

    /// Like `get`, with mutable access to the resource.
    pub fn get_mut(&mut self, handle: H, frame_index: u64) -> (found: Option<&mut T>)
        requires
            old(self)@.well_formed(),
        ensures
            final(self)@.well_formed(),
            found is Some <==> old(self)@.live_handle(handle),
            ({
                let i = handle.handle_index() as int;
                if old(self)@.live_handle(handle) {
                    &&& Some(*found.unwrap()) == old(self)@.slots[i].value
                    &&& final(self)@ == old(self)@.touched(i, *final(found.unwrap()), frame_index)
                } else {
                    final(self)@ == (ArenaView {
                        metrics: ResourceArenaMetrics {
                            stale_handle_misses: sat_add(
                                old(self)@.metrics.stale_handle_misses as int,
                                1,
                            ),
                            ..old(self)@.metrics
                        },
                        ..old(self)@
                    })
                }
            }),
            old(self)@.arena_step(final(self)@, -1, no_slots(), false),
    {
        let index = handle.index() as usize;
        let valid = index < self.slots.len() && self.slots[index].generation == handle.generation()
            && self.slots[index].value.is_some();
        if !valid {
            self.metrics.stale_handle_misses = self.metrics.stale_handle_misses.saturating_add(1);
            return None;
        }
        let ghost v0 = self@;
        self.metrics.cache_hits = self.metrics.cache_hits.saturating_add(1);
        proof {
            assert forall|v2: ArenaView<T>|
                touch_keeps(v0, v2, index as int) implies #[trigger] v2.well_formed() by {
                lemma_touch_keeps_well_formed(v0, v2, index as int);
            }
        }
        let slot = &mut self.slots[index];
        slot.last_used_frame = frame_index;
        slot.value.as_mut()
    }

    /// Sets or clears the pin of a held resource. Returns whether the handle
    /// named one.
    pub fn pin(&mut self, handle: H, pinned: bool) -> (found: bool)
        requires
            old(self)@.well_formed(),
        ensures
            final(self)@.well_formed(),
            found == old(self)@.live_handle(handle),
            found ==> final(self)@ == (ArenaView {
                slots: old(self)@.slots.update(
                    handle.handle_index() as int,
                    ResourceSlot { pinned, ..old(self)@.slots[handle.handle_index() as int] },
                ),
                ..old(self)@
            }),
            !found ==> final(self)@ == old(self)@,
            old(self)@.arena_step(final(self)@, -1, no_slots(), false),
    {
        let ghost v0 = self@;
        proof {
            assert forall|v2: ArenaView<T>|
                v0.live(handle.handle_index() as int) && pin_keeps(v0, v2, handle.handle_index() as int)
                    implies #[trigger] v2.well_formed() by {
                lemma_pin_keeps_well_formed(v0, v2, handle.handle_index() as int);
            }
        }
        match self.slot_mut(handle) {
            Some(slot) => {
                slot.pinned = pinned;
                true
            },
            None => false,
        }
    }

    /// Takes a held resource out of the arena. Its slot gets a new generation,
    /// so the handle and every copy of it become stale.
    pub fn remove(&mut self, handle: H) -> (removed: Option<T>)
        requires
            old(self)@.well_formed(),
        ensures
            final(self)@.well_formed(),
            removed is Some <==> old(self)@.live_handle(handle),
            ({
                let i = handle.handle_index() as int;
                if old(self)@.live_handle(handle) {
                    &&& removed == old(self)@.slots[i].value
                    &&& final(self)@ == (ArenaView {
                        slots: old(self)@.slots.update(i, vacated(old(self)@.slots[i])),
                        free: old(self)@.free.push(i as u32),
                        metrics: ResourceArenaMetrics {
                            resident_bytes: (old(self)@.metrics.resident_bytes
                                - old(self)@.slots[i].bytes) as u64,
                            resident_entries: (old(self)@.metrics.resident_entries - 1) as u32,
                            removals: sat_add(old(self)@.metrics.removals as int, 1),
                            ..old(self)@.metrics
                        },
                        ..old(self)@
                    })
                } else {
                    final(self)@ == old(self)@
                }
            }),
            old(self)@.arena_step(
                final(self)@,
                -1,
                if old(self)@.live_handle(handle) {
                    only_slot(handle.handle_index() as int)
                } else {
                    no_slots()
                },
                false,
            ),
            !final(self)@.live_handle(handle),
    {
        let index = handle.index() as usize;
        if index >= self.slots.len() {
            return None;
        }
        if self.slots[index].generation != handle.generation() || self.slots[index].value.is_none() {
            return None;
        }
        let ghost v0 = self@;
        let slot = &mut self.slots[index];
        let value = slot.value.take();
        let bytes = slot.bytes;
        slot.bytes = 0;
        slot.last_used_frame = 0;
        slot.pinned = false;
        slot.generation = slot.generation.wrapping_add(1).max(1);
        let ghost v1 = self@;
        proof {
            lemma_update_slot(v0, v1, index as int);
            lemma_sum_nonneg(v1.byte_weight(), every_index(), v1.slots.len() as int);
            lemma_count_bound(v1.live_sel(), v1.slots.len() as int);
        }
        self.metrics.resident_bytes = self.metrics.resident_bytes.saturating_sub(bytes);
        self.metrics.resident_entries = self.metrics.resident_entries.saturating_sub(1);
        self.metrics.removals = self.metrics.removals.saturating_add(1);
        self.free.push(index as u32);
        proof {
            assert(self@.slots =~= v0.slots.update(index as int, vacated(v0.slots[index as int])));
            lemma_update_slot(v1, self@, index as int);
            lemma_vacate_keeps_free_list(v0, self@, index as int);
            law_vacated_slot_changes_generation(v0.slots[index as int]);
        }
        value
    }

    /// Evicts every resource that is not pinned.
    pub fn clear_unpinned(&mut self)
        requires
            old(self)@.well_formed(),
        ensures
            final(self)@.well_formed(),
            final(self)@.budget_bytes == old(self)@.budget_bytes,
            final(self)@.slots == old(self)@.slots_without_unpinned(),
            final(self)@.metrics == (ResourceArenaMetrics {
                resident_bytes: final(self)@.metrics.resident_bytes,
                resident_entries: final(self)@.metrics.resident_entries,
                evictions: sat_add(
                    old(self)@.metrics.evictions as int,
                    sum_where(
                        unit_weight(),
                        old(self)@.evictable_sel(),
                        old(self)@.slots.len() as int,
                    ),
                ),
                ..old(self)@.metrics
            }),
            final(self)@.resident_total() == old(self)@.pinned_total(),
            old(self)@.arena_step(final(self)@, -1, old(self)@.evictable_sel(), false),
    {
        let ghost v0 = self@;
        let mut index: usize = 0;
        while index < self.slots.len()
            invariant
                v0.well_formed(),
                self@.well_formed(),
                self@.slots.len() == v0.slots.len(),
                self@.budget_bytes == v0.budget_bytes,
                index <= v0.slots.len(),
                forall|i: int|
                    0 <= i < v0.slots.len() ==> #[trigger] self@.slots[i] == (if i < index
                        && v0.evictable(i) {
                        vacated(v0.slots[i])
                    } else {
                        v0.slots[i]
                    }),
                self@.metrics == (ResourceArenaMetrics {
                    resident_bytes: self@.metrics.resident_bytes,
                    resident_entries: self@.metrics.resident_entries,
                    evictions: sat_add(
                        v0.metrics.evictions as int,
                        sum_where(unit_weight(), v0.evictable_sel(), index as int),
                    ),
                    ..v0.metrics
                }),
                v0.counts_balanced() && self@.metrics.evictions < u64::MAX
                    ==> self@.counts_balanced(),
            decreases v0.slots.len() - index,
        {
            proof {
                lemma_count_bound(v0.evictable_sel(), index as int);
            }
            if self.slots[index].value.is_some() && !self.slots[index].pinned {
                self.evict_index(index);
            }
            index += 1;
        }
        proof {
            assert(self@.slots =~= v0.slots_without_unpinned());
            let n = v0.slots.len() as int;
            assert forall|i: int| 0 <= i < n implies #[trigger] v0.pinned_sel()(i)
                == self@.pinned_sel()(i) && (v0.pinned_sel()(i) ==> v0.slots[i] == self@.slots[i]) by {
                assert(self@.slots[i] == (if v0.evictable(i) {
                    vacated(v0.slots[i])
                } else {
                    v0.slots[i]
                }));
            }
            lemma_sum_ext(v0.byte_weight(), v0.pinned_sel(), self@.byte_weight(), self@.pinned_sel(), n);
            lemma_resident_split(self@);
            assert forall|i: int| 0 <= i < n implies !#[trigger] self@.evictable_sel()(i) by {
                assert(self@.slots[i] == (if v0.evictable(i) {
                    vacated(v0.slots[i])
                } else {
                    v0.slots[i]
                }));
            }
            lemma_sum_none(self@.byte_weight(), self@.evictable_sel(), n);
            assert forall|i: int| #[trigger] v0.live(i) implies (v0.keeps(self@, i)
                <==> !v0.evictable_sel()(i)) by {
                law_vacated_slot_changes_generation(v0.slots[i]);
            }
        }
    }

    /// The slot a live handle names.
    fn slot(&self, handle: H) -> (found: Option<&ResourceSlot<T>>)
        ensures
            found is Some <==> self@.live_handle(handle),
            found matches Some(slot) ==> *slot == self@.slots[handle.handle_index() as int],
    {
        let index = handle.index() as usize;
        if index < self.slots.len() {
            let slot = &self.slots[index];
            if slot.generation == handle.generation() && slot.value.is_some() {
                return Some(slot);
            }
        }
        None
    }

    /// Mutable access to the slot a live handle names.
    fn slot_mut(&mut self, handle: H) -> (found: Option<&mut ResourceSlot<T>>)
        ensures
            found is Some <==> old(self)@.live_handle(handle),
            found matches Some(slot) ==> {
                &&& *slot == old(self)@.slots[handle.handle_index() as int]
                &&& final(self)@ == (ArenaView {
                    slots: old(self)@.slots.update(handle.handle_index() as int, *final(slot)),
                    ..old(self)@
                })
            },
            found is None ==> final(self)@ == old(self)@,
    {
        let index = handle.index() as usize;
        if index < self.slots.len() && self.slots[index].generation == handle.generation()
            && self.slots[index].value.is_some() {
            Some(&mut self.slots[index])
        } else {
            None
        }
    }

    /// The evictable slot that comes first in eviction order, if any.
    fn least_recently_used(&self) -> (candidate: Option<usize>)
        ensures
            candidate is None ==> forall|i: int| !self@.evictable(i),
            candidate matches Some(c) ==> {
                &&& self@.evictable(c as int)
                &&& forall|j: int|
                    #![trigger self@.evictable(j)]
                    self@.evictable(j) && j != c ==> self@.lru_before(c as int, j)
            },
    {
        let mut best: Option<usize> = None;
        let mut best_frame: u64 = 0;
        let mut index: usize = 0;
        while index < self.slots.len()
            invariant
                index <= self.slots.len(),
                best is None ==> forall|i: int| 0 <= i < index ==> !self@.evictable(i),
                best matches Some(b) ==> {
                    &&& b < index
                    &&& self@.evictable(b as int)
                    &&& best_frame == self@.slots[b as int].last_used_frame
                    &&& forall|j: int|
                        #![trigger self@.evictable(j)]
                        0 <= j < index && self@.evictable(j) && j != b ==> self@.lru_before(
                            b as int,
                            j,
                        )
                },
            decreases self.slots.len() - index,
        {
            let slot = &self.slots[index];
            if slot.value.is_some() && !slot.pinned {
                match best {
                    None => {
                        best = Some(index);
                        best_frame = slot.last_used_frame;
                    },
                    Some(_) => {
                        if slot.last_used_frame < best_frame {
                            best = Some(index);
                            best_frame = slot.last_used_frame;
                        }
                    },
                }
            }
            index += 1;
        }
        best
    }

    /// Evicts unpinned resources in eviction order until `incoming_bytes`
    /// more would fit within the budget, or nothing evictable is left.
    fn evict_to_budget(&mut self, incoming_bytes: u64)
        requires
            old(self)@.well_formed(),
            old(self)@.budget_bytes < u64::MAX || old(self)@.metrics.resident_bytes
                + incoming_bytes <= u64::MAX,
        ensures
            final(self)@.well_formed(),
            final(self)@.budget_bytes == old(self)@.budget_bytes,
            final(self)@.slots == old(self)@.slots_after_eviction(incoming_bytes as int),
            final(self)@.free.len() == old(self)@.free.len() + old(self)@.eviction_count(
                incoming_bytes as int,
            ),
            final(self)@.resident_total() <= old(self)@.resident_total(),
            final(self)@.free.subrange(0, old(self)@.free.len() as int) == old(self)@.free,
            final(self)@.metrics == (ResourceArenaMetrics {
                resident_bytes: final(self)@.metrics.resident_bytes,
                resident_entries: final(self)@.metrics.resident_entries,
                evictions: sat_add(
                    old(self)@.metrics.evictions as int,
                    old(self)@.eviction_count(incoming_bytes as int),
                ),
                ..old(self)@.metrics
            }),
            old(self)@.pinned_total() <= final(self)@.resident_total(),
            final(self)@.resident_total() + incoming_bytes <= final(self)@.budget_bytes
                || final(self)@.resident_total() == old(self)@.pinned_total(),
            old(self)@.counts_balanced() && final(self)@.metrics.evictions < u64::MAX
                ==> final(self)@.counts_balanced(),
    {
        let ghost v0 = self@;
        proof {
            lemma_eviction_start(v0, incoming_bytes as int);
        }
        loop
            invariant
                eviction_progress(v0, self@, incoming_bytes as int),
                v0.counts_balanced() && self@.metrics.evictions < u64::MAX
                    ==> self@.counts_balanced(),
                v0.budget_bytes < u64::MAX || v0.metrics.resident_bytes + incoming_bytes
                    <= u64::MAX,
            ensures
                self@.resident_total() + incoming_bytes <= self@.budget_bytes || forall|i: int|
                    !self@.evictable(i),
            decreases self@.live_count(),
        {
            proof {
                lemma_sum_nonneg(v0.byte_weight(), vacated_sel(v0, self@), v0.slots.len() as int);
            }
            if self.metrics.resident_bytes.saturating_add(incoming_bytes) <= self.budget_bytes {
                proof {
                    assert(self@.metrics.resident_bytes == self@.resident_total());
                    assert(self@.resident_total() <= v0.resident_total());
                    assert(self@.resident_total() + incoming_bytes <= self@.budget_bytes);
                }
                break;
            }
            let candidate = self.least_recently_used();
            match candidate {
                None => {
                    break;
                },
                Some(index) => {
                    let ghost vb = self@;
                    proof {
                        lemma_candidate_is_evicted(v0, vb, incoming_bytes, index as int);
                    }
                    self.evict_index(index);
                    proof {
                        lemma_eviction_step(v0, vb, self@, incoming_bytes, index as int);
                    }
                },
            }
        }
        proof {
            lemma_eviction_result(v0, self@, incoming_bytes);
            lemma_sum_nonneg(v0.byte_weight(), vacated_sel(v0, self@), v0.slots.len() as int);
        }
    }

    /// Evicts the occupant of slot `index`, if any.
    fn evict_index(&mut self, index: usize)
        requires
            old(self)@.well_formed(),
            index < old(self)@.slots.len(),
        ensures
            final(self)@.well_formed(),
            final(self)@.budget_bytes == old(self)@.budget_bytes,
            old(self)@.live(index as int) ==> {
                &&& final(self)@.slots == old(self)@.slots.update(
                    index as int,
                    vacated(old(self)@.slots[index as int]),
                )
                &&& final(self)@.free == old(self)@.free.push(index as u32)
                &&& final(self)@.metrics == (ResourceArenaMetrics {
                    resident_bytes: (old(self)@.metrics.resident_bytes - old(
                        self,
                    )@.slots[index as int].bytes) as u64,
                    resident_entries: (old(self)@.metrics.resident_entries - 1) as u32,
                    evictions: sat_add(old(self)@.metrics.evictions as int, 1),
                    ..old(self)@.metrics
                })
            },
            !old(self)@.live(index as int) ==> final(self)@ == old(self)@,
            old(self)@.counts_balanced() && final(self)@.metrics.evictions < u64::MAX
                ==> final(self)@.counts_balanced(),
    {
        if self.slots[index].value.is_none() {
            return;
        }
        let ghost v0 = self@;
        let slot = &mut self.slots[index];
        let _ = slot.value.take();
        let bytes = slot.bytes;
        slot.bytes = 0;
        slot.last_used_frame = 0;
        slot.pinned = false;
        slot.generation = slot.generation.wrapping_add(1).max(1);
        let ghost v1 = self@;
        proof {
            lemma_update_slot(v0, v1, index as int);
            lemma_sum_nonneg(v1.byte_weight(), every_index(), v1.slots.len() as int);
            lemma_count_bound(v1.live_sel(), v1.slots.len() as int);
        }
        self.metrics.resident_bytes = self.metrics.resident_bytes.saturating_sub(bytes);
        self.metrics.resident_entries = self.metrics.resident_entries.saturating_sub(1);
        self.metrics.evictions = self.metrics.evictions.saturating_add(1);
        self.free.push(index as u32);
        proof {
            assert(self@.slots =~= v0.slots.update(index as int, vacated(v0.slots[index as int])));
            lemma_update_slot(v1, self@, index as int);
            assert(!v0.free.contains(index as u32));
            assert forall|k: int| 0 <= k < self@.free.len() implies (#[trigger] self@.free[k])
                < self@.slots.len() && self@.slots[self@.free[k] as int].value is None by {
                if k < v0.free.len() {
                    assert(self@.free[k] == v0.free[k]);
                }
            }
            assert forall|i: int| 0 <= i < self@.slots.len() && (#[trigger] self@.slots[i]).value is None
                implies self@.free.contains(i as u32) by {
                if i != index {
                    assert(v0.free.contains(i as u32));
                    let k = choose|k: int| 0 <= k < v0.free.len() && v0.free[k] == i as u32;
                    assert(self@.free[k] == i as u32);
                } else {
                    assert(self@.free[v0.free.len() as int] == i as u32);
                }
            }
            assert(self@.free.no_duplicates());
            assert(self@.metrics.resident_bytes == self@.resident_total());
            assert(self@.metrics.resident_entries == self@.live_count());
            assert(self@.metrics.peak_resident_bytes >= self@.metrics.resident_bytes);
            assert(forall|i: int| 0 <= i < self@.slots.len() ==> (#[trigger] self@.slots[i]).generation >= 1);
        }
    }
}

pub type BufferRegistry<T> = ResourceArena<BufferHandle, T>;

pub type TextureRegistry<T> = ResourceArena<TextureHandle, T>;

pub type SamplerRegistry<T> = ResourceArena<SamplerHandle, T>;

pub type PipelineRegistry<T> = ResourceArena<PipelineHandle, T>;

pub type MeshRegistry<T> = ResourceArena<MeshHandle, T>;

pub type MaterialRegistry<T> = ResourceArena<MaterialHandle, T>;

} // verus!
