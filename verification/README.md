# terminal_renderer

A small software 3D renderer that draws OBJ models in a terminal or in a
window.

- `src/` is the verified integer core, checked with Verus: render-mode
  settings, Bresenham line walks, fixed-point edge functions and triangle
  coverage, the per-plane clipping plan, mesh index bookkeeping (triangles
  from index lists, vertex welding, edge collection), hexadecimal and packed
  colours, and the viewer's key and mouse handling.
- `app/` is the program around it: model loading, floating-point geometry,
  shading and texturing, and terminal and window output. It calls the
  library for every integer decision.
- `tests/` exercises the library on concrete values.

Run `terminal_renderer render --mode video --model path/to/model.obj` for a
window, or `--mode terminal` to draw in the terminal.
