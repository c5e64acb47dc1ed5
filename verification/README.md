# scenekit

The CPU-side logic of a small scene and rendering toolkit, written in Verus
with its behaviour stated as contracts and proved.

- `src/scene`: the scene graph (a forest of nodes held in a slot map, with
  dirty tracking for cached world transforms, depth-first and breadth-first
  traversal, removal and reparenting), editor metadata, layer policy,
  selection state and the inspector outline.
- `src/texture`: texture formats, samplers, CPU textures and their
  validation, box-filtered mip chains, video frames and a shelf-packing atlas.
- `src/render`: renderer bookkeeping that needs no GPU: configuration,
  render target checks and sizes, uniform alignment, index packing, draw
  ordering, and registries of meshes, materials, textures, lights and skins.
- `src/web`: browser-side decisions: canvas sizing, DOM input mapping,
  backend choice and the viewer's interactive state.
- `src/raycast`: which scene nodes picking can hit.
- `app/`: serialisable copies of plain data types, for serde users.
- `tests/`: executable tests of the library.

Matrix and vector math, ray intersection, GPU work and browser I/O are not
part of the library: they consume its results (for example the recompute
order returned by `SceneGraph::update_world_transforms`).
