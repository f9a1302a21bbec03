# raf_render

Verified core of a small renderer for an editor: the bookkeeping that decides
what is drawn, cached, uploaded and evicted, with its behaviour stated as
contracts and proved with Verus.

- `src/` — the verified library.
  - `resource_registry` — generational handles into a byte-budgeted arena
    with pinned entries and least-recently-used eviction, and laws over any
    history of operations on an arena.
  - `mesh_cache` — whether a batch of mesh instances is drawn instanced, and
    the cache of uploaded mesh buffers that instanced drawing reads.
  - `frame_scheduler` — frame pacing profiles, invalidation reasons and the
    decision whether a frame is rendered.
  - `ui_surface` — the retained-UI compositor: when layouts and paint lists
    are reused, paint order and draw-call coalescing, the text atlas (shelf
    packing, growth, dirty regions), the image store (with PNG decoding) and GPU texture residency, mip chains,
    row padding and downsampling, the per-frame decisions of the GPU
    compositor, the press edges and text that native input events leave in
    a frame, and the records the hosts report.
  - `device`, `capabilities`, `canvas_presenter`, `pipeline`, `handles`,
    `abstraction` — backends, capabilities, captured frames and handles.
- `tests/` — executable tests of the library.
- `app/` — host-side code that works with wall-clock time, floating point or
  files: the timed frame scheduler, dynamic resolution, memory budgets and
  reading image files.
