# shinra

The verified core of a small game-engine workspace: the logic that decides
things, with its behaviour stated in `requires`/`ensures` contracts and proved
by Verus.

- `input` — the keymap: held keys, one-frame taps, the next-game and quit
  requests, and the axes of a frame.
- `runner` — the terminal runner's key binding, frame loop decisions, game
  cycling, render size and game-library names.
- `script`, `text` — the dialogue dialect, read from bytes (the longest valid
  UTF-8 prefix) into lines and actor slots.
- `dialogue` — the typewriter handshake, line description, glyph layout and
  roster reconciliation of the dialogue game.
- `scene` — the scene document, deep copies, the undo history, ground tiles,
  and the distinct meshes a scene names.
- `editor` — brush strokes and drops on the editor's viewport, node names and
  labels, the mesh palette, the mesh cache, and what the viewport draws.
- `draw` — a scene as a game draws it: mesh list, nodes in walk order with
  their parents, and one draw per mesh and per tile.
- `mesh` — flattening OBJ models into one indexed vertex plan.
- `readback` — row padding of GPU readback buffers and stripping it again.
- `stream` — the editor server's keyframe schedule, socket framing and I420
  layout.
- `exports` — mesh paths as a game hands them to its host.
- `rules` — the integer rules of the bundled games' control layers.
- `viewer` — the model viewer's key bindings.
- `tags` — marker components.

Real-valued fields (`f32`) are carried as bit patterns and nothing in the
library computes with them. `app/` is a thin command-line front end: it reads
and writes scene and tileset files, loads OBJ files and fills in their float
positions and normals, applies the model viewer's float steps, and drives the
terminal key loops. The rest of the float work is left out altogether: the
typewriter's timer, the games' physics and collision column test, the
world-transform composition of draw plans, glyph and actor positions, camera
matrices, and all GPU, window, editor-GUI and video-encoding code.
