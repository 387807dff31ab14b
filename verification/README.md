# falling_everything_core

The core of a falling-sand game, written in Verus: the code in `src/` is verified by Verus,
and its functions state what they do in `requires`/`ensures` contracts (a few, such as the line
visitor `for_each_bresenham_line`, only state what they require of their callers).

Layout:

- `src/cell64.rs` – the packed 64-bit cell and its fields.
- `src/world/` – the world: dense cell grid, chunk bookkeeping (dirty, awake, physics-dirty),
  chunk hash store, streaming regions, painting and relocation.
- `src/sim/` – the simulation: per-cell step, material engines (granular, liquid, gases, fire,
  acid, burning, influence rules), temperature, chunk scheduler, frame helpers. Random draws go
  through the small wrappers in `src/sim/rng.rs`.
- `src/bresenham.rs`, `src/explosion.rs` – integer lines and chord explosions.
- `src/morph.rs`, `src/contour.rs`, `src/rigid.rs` – grid logic of rigid pixel bodies: closing of
  rounded pixels, reachability, marching-squares contours, connected pieces, spawn cells.
- `src/frame_input.rs` – the sandbox front end's per-frame input decisions (brush, strokes,
  rectangles, explosions, heat and cool), returned as actions for the host.
- `src/render.rs`, `src/game.rs`, `src/materials/`, `src/material_blurbs.rs`,
  `src/simulation.rs` – colours, brush rules, material tables and frame events.
- `app/` – the host side that Verus does not see: floating-point particles and noise, storage
  with serde/bincode, the simulation loop, the front end's frame host and the engine adapter.
- `tests/` – tests of the library.
