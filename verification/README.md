# hyprpanopticon

A Hyprland workspace overview: the workspaces of the focused monitor (or of
every monitor) arranged on a ring, with live window thumbnails captured
through `hyprland-toplevel-export-v1`.

- `src/` is the verified library (Verus): window-address parsing, assembly of
  the overview snapshot from what Hyprland reports (a stable sort with its
  permutation made explicit), the ring focus and its rotation, the capture
  protocol's state and step decisions, pixel post-processing, the texture
  cache and capture backpressure of the live refresh, and the small
  decisions behind preview decoration, the key and scroll table, and
  workspace dispatch.
- `app/` is the GTK4 program around it: IPC and Wayland I/O, threads, the
  layer-shell window and widgets, and the floating-point layout and drawing.
- `tests/` exercises the library on concrete values.
