# blinc_app (verified core)

The application layer of the Blinc UI toolkit, with its decision logic
verified by Verus.

- `src/` — the verified library:
  - `hot_reload` — shared hot-reload state (rebuild flag, asset invalidation
    queue, source-edit settling) and the routing of watcher events and
    dev-server messages;
  - `svg_source` — writing fill / stroke / dash / opacity / path-data
    overrides into SVG sources and resolving `currentColor`;
  - `layer_cache` — per-node layer textures with batch-hash dirty skipping;
  - `canvas` — canvas replay order and splicing of canvas output into the
    cached primitive batch;
  - `images` — block-compression policy, glass backdrop sizing, image cache
    keys backed by a changed file;
  - `image_cache` — the decoded-image LRU (capacity, promotion on a hit,
    eviction of the least recently used image) and the invalidation of the
    images a changed file backs;
  - `image_fade` — fade-in deadlines of freshly loaded images and their
    expiry at frame boundaries;
  - `mesh_dispatch` — the order in which pending 3D meshes are drawn, their
    shadow slots and environment-map uploads;
  - `element_routing` — which pass draws each collected element;
  - `debug_mode`, `fonts`, `cache_stats` — small policies;
  - `bytes` — byte-string search, cut, insert and replace.
- `app/` — the threads, sockets, file watchers and process-wide state around
  the library, plus the renderer's floating-point geometry helpers.
- `tests/` — tests of the library.
