# conway_duel

The rules of a three-faction space duel, verified with Verus.

- `src/` is the verified library: factions, time spans (`time::Span`, whole
  nanoseconds), the float-free ship components, the event bus, skills, the
  weapon, hit, lifetime and respawn bookkeeping, the pilots' enemy choice and
  behaviour machine, the order of collision tests, the shape picked for each
  renderable and the fixed-step frame planner. Each public function states
  its result exactly; the laws of the game stand beside them as proof
  functions.
- `app/` is the browser game around it: the `hecs` world and its
  float-bearing components (positions, health, colours), steering and
  physics in floating point, WebGL drawing through `glow`, and the
  `wasm-bindgen` entry points. It hands the library plain values and applies
  what comes back.
- `tests/` runs the library on concrete scenarios.
