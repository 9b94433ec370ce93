# pixelcoords core, verified

The platform-free core of pixelcoords — geometry, selections and their undo
history, the session schema, point verdicts, click resolution, code emitters,
region comparison, edge snapping, hotkey grammar, configuration and the
overlay rasterizer — written in Verus, with every function's behaviour stated
in `requires` / `ensures` and proved.

## Layout

- `src/` — the verified library. Coordinates are `i32`; the geometry is
  proved over the domain `MAX_COORD` (every coordinate within a million of
  the origin), which a session is validated against on load.
  - `geometry`, `shape_laws` — shapes, hit tests, moves and resizes, and the
    laws they keep (a clamped move stays in bounds, a click point lands
    inside its shape, a resize never collapses a shape).
  - `selection` — the editable selection set and its undo/redo stacks.
  - `session`, `config`, `hotkeys`, `points`, `duration`, `matcher` — the
    file formats and grammars, with every refusal stated.
  - `resolve`, `verdict`, `emit`, `locate`, `diff`, `wait`, `report` — the
    answers the scoring commands give.
  - `draw`, `font`, `snap` — the overlay's rasterizer, text layout and edge
    snapping.
- `tests/` — the test suite, run against the compiled library.
- `app/` — plain Rust around the library: the serde and thiserror forms of
  its types, the vector font, and the computations that need floating point
  (turning shapes by an angle, logical units, template matching, ratios),
  each of which hands its decisions to the library.
