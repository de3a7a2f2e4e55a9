# moirai (verified core)

The deterministic core of a single-threaded ECS, written in Verus with its behaviour stated
as `requires`/`ensures` contracts and proved.

Layout:

- `src/` — the verified library (crate name `lib`):
  - `revision`, `time` — checked counters, durations, fixed-step accumulation.
  - `entity`, `component`, `storage/` — sparse sets, table columns, archetype storage.
  - `resource/` — the typed resource store with scoping and schedule locks.
  - `state` — host state machines and their transition hooks.
  - `schedule/` — system descriptors, run conditions, the schedule builder (validation,
    ordering edges, run orders, event roles), compiled schedules, and the stage-pass state
    machine that decides which system runs next.
  - `query/` — query specs, cursors, windows, prepared-query policies, materialized and
    incremental membership, and typed query traversal (which candidates are visited, in
    which order, and when a cursor moves).
  - `testkit/` — finite deterministic replay over a host driver, and report comparison.
- `app/` — host-side code: the live execution lease, floating-point and `std::time`
  conversions, and the loops that perform the world work a stage pass asks for.
- `tests/` — tests of the library through its public API.
