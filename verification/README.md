# bif_viewport

The logic of the BIF viewport — node-graph evaluation and editing, the scene
browser, prim paths, texture budgeting and slot layout, scene rebuild
decisions and project bookkeeping — as a library whose functions carry
contracts checked by Verus.

Layout:

- `src/` — the verified library. Its only trusted items are two wrappers in
  `src/text.rs` around `String::push` and `str::to_lowercase`.
  - `node_graph/` — node kinds and pins, evaluation (`eval.rs`), the graph
    with its wires (`ops.rs`), the editor state (`state.rs`) and the status
    lines of each node (`status.rs`). The graph is held as a vector of nodes
    and a vector of wires, each node under an identifier of its own; node
    positions and the rest of the editor widget's state belong to the UI and
    are not part of it.
  - `scene_browser.rs`, `scene_browser/` — browser state, the procedural prim
    cache, prim providers and the rows of the prim table.
  - `scene_rebuild.rs`, `scene_merge.rs`, `scene_pipeline.rs`,
    `scene_edit.rs` — what rebuilding, loading and editing the working scene
    decide: active nodes, hidden prototypes, the triangle material table,
    transform order, skin bindings, identifier renumbering, instance arrays,
    prototype removal and naming.
  - `texture.rs`, `texture_slots.rs` — VRAM budget, mip counts, downscaling,
    texture paths and slot plans.
  - `persistence.rs`, `paths.rs`, `prim_path.rs`, `types.rs`, `property.rs`.
- `tests/` — ordinary Rust tests against the library.
- `app/` — what stays outside: file I/O and serde for projects (graph, camera, render and display
  settings) and recent files, the shared GPU-health flag, floating-point colour conversion, the
  wall-clock timeline and canonical scene paths.
