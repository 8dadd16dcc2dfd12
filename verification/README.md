# slint_layer_support

Verified pieces of Slint's internals, written in Verus:

- `back_key_state`: which back-like keys were seen going down, and when an
  orphan release needs a synthetic press.
- `layer_shell`: layer-shell surface roles, anchors, the queue of pending
  configure events, surface ids and the dispatcher thread's decisions.
- `sw_layer`: 0xAARRGGBB pixel packing, damage rectangles and line spans of
  the software renderer that paints layer-shell surfaces.
- `sharedfontique`: font registration once per canonical path or embedded
  byte range, per-path caches, default-font path checks and design metrics
  read with `ttf-parser`.
- `fileaccess`: lookup of `builtin:/` paths in the widget library (with `..`,
  `.` and style aliases) and the list of styles.
- `collect_custom_fonts`: the sorted set of custom fonts, embedded resource
  ids and kinds, and font registrations, by path (with the configured path
  prefix mapping applied) or by embedded resource.
- `paths`: resolution of builtin paths component by component and lexical cleaning of
  paths given by their `std::path` components.
- `lookup`, `text`, `path_map`: shared helpers.

`app/` holds the I/O around it: file system, memory maps, the fontique
collection and the Wayland connection. Tests are under `tests/`.
