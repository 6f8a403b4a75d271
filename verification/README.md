# ultra_render

A renderer for Lottie animations drawn as many instanced sprites. The crate is
split in two:

- `src/` is the verified library (Verus). It holds the decisions that do not need
  floating point: decoding the symbolic fields of the Lottie schema, building and
  ordering the scene graph (parents, precomp assets, update and draw order), the
  state-machine inputs and transition choice, splitting paths into contours, the
  layout of the GPU buffers for fills and strokes (fans, complex fills, stroke
  strips, instancing of synced sprites), buffer growth and upload bookkeeping,
  draw sort keys, the per-frame plan of compute passes and draw calls, how a
  shape group's paints pair with its geometries, sprite batching, the culling
  grid, the player's limits and the canvas bookkeeping.
  Each public function states its result in its contract; the laws that relate
  several calls are public proof functions beside the code they speak of.
- `app/` is the program around it: JSON and archive loading, all geometry in
  floating point (transforms, curves, trim and round modifiers, interpolation),
  and a headless frame loop that feeds the library and prints statistics. For each
  frame it asks the library whether to encode the geometry again (by its stamp),
  which compute passes to run and which draw calls to issue, and reports them.
  There is no window, GPU device or web API: the frame plan is printed, not drawn.

`tests/` runs the library on concrete values.
