//! The retained-UI compilation cache: when the layout and the paint list of
//! a surface are reused and when they are rebuilt.
//!
//! The host builds layouts and paint lists; this cache decides. A layout is
//! reused while its key (document revision, interaction state, size, scale,
//! clear colour) is unchanged, which the host compares; a paint list is
//! reused while it was built from the current layout, the same text-atlas
//! revision and the same resolved texts.

use vstd::prelude::*;

verus! {

/// Whether the last compile reused the cached layout and paint data, and how
/// often each was rebuilt.
#[derive(Debug, Clone, Copy, PartialEq, Eq, Structural)]
pub struct UiSurfaceCompileMetrics {
    pub layout_cache_hit: bool,
    pub paint_cache_hit: bool,
    pub layout_builds: u64,
    pub paint_builds: u64,
}

impl Default for UiSurfaceCompileMetrics {
    fn default() -> (metrics: Self)
        ensures
            metrics == (UiSurfaceCompileMetrics {
                layout_cache_hit: false,
                paint_cache_hit: false,
                layout_builds: 0,
                paint_builds: 0,
            }),
    {
        UiSurfaceCompileMetrics {
            layout_cache_hit: false,
            paint_cache_hit: false,
            layout_builds: 0,
            paint_builds: 0,
        }
    }
}

/// `n + 1`, wrapping past `u64::MAX` to 1: layout revisions are never 0.
pub open spec fn next_layout_revision(n: u64) -> u64 {
    if n == u64::MAX {
        1
    } else {
        (n + 1) as u64
    }
}

/// `n + 1`, saturating at `u64::MAX`.
pub open spec fn count_up(n: u64) -> u64 {
    if n == u64::MAX {
        n
    } else {
        (n + 1) as u64
    }
}

pub open spec fn texts_view(texts: Seq<String>) -> Seq<Seq<char>> {
    texts.map_values(|t: String| t@)
}

/// What a cached paint list was built from.
struct CachedPaintKey {
    layout_revision: u64,
    atlas_revision: u64,
    resolved_text: Vec<String>,
}

/// The compilation state of one surface host.
pub struct UiSurfaceCompilationCache {
    layout_revision: Option<u64>,
    paint: Option<CachedPaintKey>,
    next_layout_revision: u64,
    metrics: UiSurfaceCompileMetrics,
}

/// Whether two lists of resolved texts are equal, text by text.
fn same_texts(a: &Vec<String>, b: &[String]) -> (same: bool)
    ensures
        same == (texts_view(a@) == texts_view(b@)),
{
    if a.len() != b.len() {
        assert(texts_view(a@).len() != texts_view(b@).len());
        return false;
    }
    let mut i: usize = 0;
    while i < a.len()
        invariant
            a@.len() == b@.len(),
            i <= a@.len(),
            forall|j: int| 0 <= j < i ==> a@[j]@ == b@[j]@,
        decreases a@.len() - i,
    {
        if a[i] != b[i] {
            assert(texts_view(a@)[i as int] != texts_view(b@)[i as int]);
            return false;
        }
        i += 1;
    }
    assert(texts_view(a@) =~= texts_view(b@));
    true
}

impl UiSurfaceCompilationCache {
    /// Revision of the cached layout, if one is cached.
    pub closed spec fn layout_spec(&self) -> Option<u64> {
        self.layout_revision
    }

    /// Layout revision, text-atlas revision and resolved texts the cached
    /// paint list was built from, if one is cached.
    pub closed spec fn paint_spec(&self) -> Option<(u64, u64, Seq<Seq<char>>)> {
        match self.paint {
            Some(p) => Some((p.layout_revision, p.atlas_revision, texts_view(p.resolved_text@))),
            None => None,
        }
    }

    /// The revision the last built layout received.
    pub closed spec fn revision_spec(&self) -> u64 {
        self.next_layout_revision
    }

    pub closed spec fn metrics_spec(&self) -> UiSurfaceCompileMetrics {
        self.metrics
    }

    /// An empty cache.
    pub fn new() -> (cache: Self)
        ensures
            cache.layout_spec() is None,
            cache.paint_spec() is None,
            cache.revision_spec() == 0,
            cache.metrics_spec() == (UiSurfaceCompileMetrics {
                layout_cache_hit: false,
                paint_cache_hit: false,
                layout_builds: 0,
                paint_builds: 0,
            }),
    {
        UiSurfaceCompilationCache {
            layout_revision: None,
            paint: None,
            next_layout_revision: 0,
            metrics: UiSurfaceCompileMetrics::default(),
        }
    }

    /// Drops the cached layout and paint list.
    pub fn invalidate(&mut self)
        ensures
            final(self).layout_spec() is None,
            final(self).paint_spec() is None,
            final(self).revision_spec() == old(self).revision_spec(),
            final(self).metrics_spec() == old(self).metrics_spec(),
    {
        self.layout_revision = None;
        self.paint = None;
    }

    pub fn metrics(&self) -> (metrics: UiSurfaceCompileMetrics)
        ensures
            metrics == self.metrics_spec(),
    {
        self.metrics
    }

    /// Starts a compile. The cached layout is reused when there is one and
    /// the host found its key equal to the new key; otherwise the layout is
    /// rebuilt under the next revision and the cached paint list is
    /// dropped. Returns whether the layout must be rebuilt.
    pub fn begin_layout(&mut self, cached_key_matches: bool) -> (rebuild: bool)
        ensures
            rebuild == !(old(self).layout_spec() is Some && cached_key_matches),
            final(self).metrics_spec() == (UiSurfaceCompileMetrics {
                layout_cache_hit: !rebuild,
                paint_cache_hit: false,
                layout_builds: if rebuild {
                    count_up(old(self).metrics_spec().layout_builds)
                } else {
                    old(self).metrics_spec().layout_builds
                },
                ..old(self).metrics_spec()
            }),
            !rebuild ==> {
                &&& final(self).layout_spec() == old(self).layout_spec()
                &&& final(self).paint_spec() == old(self).paint_spec()
                &&& final(self).revision_spec() == old(self).revision_spec()
            },
            rebuild ==> {
                &&& final(self).revision_spec() == next_layout_revision(old(self).revision_spec())
                &&& final(self).layout_spec() == Some(final(self).revision_spec())
                &&& final(self).paint_spec() is None
            },
    {
        let hit = self.layout_revision.is_some() && cached_key_matches;
        self.metrics.layout_cache_hit = hit;
        self.metrics.paint_cache_hit = false;
        if hit {
            return false;
        }
        self.next_layout_revision = self.next_layout_revision.wrapping_add(1).max(1);
        self.metrics.layout_builds = self.metrics.layout_builds.saturating_add(1);
        self.layout_revision = Some(self.next_layout_revision);
        self.paint = None;
        true
    }

    /// Whether the cached paint list can be reused for the current layout,
    /// text-atlas revision `atlas_revision` and resolved texts; records the
    /// answer in the metrics.
    pub fn paint_hit(&mut self, atlas_revision: u64, resolved_text: &[String]) -> (hit: bool)
        ensures
            hit == (old(self).layout_spec() matches Some(layout) && old(self).paint_spec() matches Some(
                p,
            ) && p.0 == layout && p.1 == atlas_revision && p.2 == texts_view(resolved_text@)),
            final(self).metrics_spec() == (UiSurfaceCompileMetrics {
                paint_cache_hit: hit,
                ..old(self).metrics_spec()
            }),
            final(self).layout_spec() == old(self).layout_spec(),
            final(self).paint_spec() == old(self).paint_spec(),
            final(self).revision_spec() == old(self).revision_spec(),
    {
        let hit = match (&self.layout_revision, &self.paint) {
            (Some(layout), Some(paint)) => paint.layout_revision == *layout && paint.atlas_revision
                == atlas_revision && same_texts(&paint.resolved_text, resolved_text),
            _ => false,
        };
        self.metrics.paint_cache_hit = hit;
        hit
    }

    /// Records a paint list built from the current layout, text-atlas
    /// revision `atlas_revision` and the resolved texts.
    pub fn store_paint(&mut self, atlas_revision: u64, resolved_text: Vec<String>)
        requires
            old(self).layout_spec() is Some,
        ensures
            final(self).paint_spec() == Some(
                (old(self).layout_spec()->0, atlas_revision, texts_view(resolved_text@)),
            ),
            final(self).metrics_spec() == (UiSurfaceCompileMetrics {
                paint_builds: count_up(old(self).metrics_spec().paint_builds),
                ..old(self).metrics_spec()
            }),
            final(self).layout_spec() == old(self).layout_spec(),
            final(self).revision_spec() == old(self).revision_spec(),
    {
        let layout_revision = match self.layout_revision {
            Some(revision) => revision,
            None => 0,
        };
        self.metrics.paint_builds = self.metrics.paint_builds.saturating_add(1);
        self.paint = Some(CachedPaintKey { layout_revision, atlas_revision, resolved_text });
    }
}

} // verus!
