# egui_xyflow

An interactive node-graph editor for egui: nodes with connection handles,
edges between them, box and click selection, connection dragging, and the
declarative `NodeChange` / `EdgeChange` operations that edit the graph.

The graph model, the change operations, and the editor's decisions on
clicks, drags, resizes, connections, the selection box and the keyboard
are written in Verus and proved against their contracts. Drawing, input
handling and floating-point geometry (positions, hit tests, zoom, the
minimap's mapping, handle offsets) are ordinary Rust around it.

## Layout

- `src/` — the verified library.
  - `types/` — nodes, edges, handles, ids, positions, viewport, changes.
    Coordinates are a type parameter `S` (the canvas uses `f32`); the library
    carries them but never computes on them.
  - `state/changes.rs` — applying node and edge changes, with laws on how
    changes compose, what removal leaves and what an addition undone leaves.
  - `state/lookup.rs` — the node lookup (one entry per id, in insertion
    order) and its queries, parent resolution, in-place updates, and the laws
    that keep it in step with the node list and its z-sorted order valid.
  - `state/graph.rs` — the node list and its lookup updated together, with
    the lookup proved to stay in step on both the rebuild and the in-place
    path, and the drawing order held until a structural change.
  - `state/handle_layout.rs` — which slot each handle takes on its side,
    and the resolved handle records.
  - `canvas.rs` — what clicks, key presses, anchor drags and connection drags
    do to the graph.
  - `drag.rs` — the selectability and connectability gates, which nodes a
    drag moves and when they start and stop dragging, and how a resize
    overrides a drag.
  - `selection.rs` — the selection box's reaction to each frame's pointer
    activity, and when the background selects, pans and zooms.
  - `render.rs` — colour choices of the painters (one call into egui).
- `tests/` — tests of the library on concrete graphs.
- `app/` — the egui side: `FlowCanvas` (one frame of the editor), `FlowState`,
  the canvas settings, floating-point geometry, painters, the minimap, the
  selection box driver and serde copies of the graph types. Edges are drawn
  as straight segments; viewport changes take effect at once.
