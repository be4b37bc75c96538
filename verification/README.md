# launcher

A keyboard-driven application launcher for Wayland (GTK4 with layer shell),
with its decision logic verified in Verus.

- `src/` is the verified library: query routing and ranking (`router`), the
  launch history (`frecency`), the result types and plugin interface
  (`plugin`), the plugins' query handling and what activating a result means
  (`applications`, `calculator`, `clipboard`, `system`, `web`,
  `window_switcher`, `translator`), the theme's style sheet (`config`), the
  colour picker's texts (`color_picker`), the window's key and click decisions
  (`ui`), fuzzy scoring (`fuzzy`) and exact text helpers (`text`).
- `app/` is the program around it: reading the desktop files, the settings and
  the histories, asking the system and the compositor, spawning processes,
  the translation service, floating-point arithmetic, and the GTK windows.
- `tests/` runs the library on concrete inputs.

The launch history is a list of entries, each an id with its launch times,
in which no id occurs twice; its view is the map from id to times. vstd
specifies the effect of `HashMap` operations only for key types that obey
its key model, and `String` is not among them (only integers, `bool` and
their boxes are), so a map keyed by `String` would leave `get` and `insert`
without a provable effect.
