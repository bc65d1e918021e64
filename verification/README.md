# physics_engine

An Entity Component System core for a Newtonian physics engine, written in
Verus and verified.

## Layout

- `src/` — the verified library:
  - `ecs/entity.rs`, `ecs/world.rs`: entity handles with generations, and the
    world that hands them out and tracks which are alive;
  - `ecs/component.rs`, `ecs/columns.rs`: a hash-map storage, a dense
    swap-remove storage, and a three-column dense storage;
  - `ecs/system.rs`, `ecs/scheduler.rs`: systems, the executor, and the staged
    scheduler that runs systems stage by stage, in insertion order within a
    stage;
  - `plugins/`: plugin API version compatibility (semantic versions parsed
    with `semver`), dependency ordering with cycle detection, and the
    registry state machine;
  - `simd/`: CPU feature detection (through `raw-cpuid`) and backend choice;
  - `pool.rs`: buffer-pool bookkeeping.
- `tests/` — tests of the library.
- `app/` — the floating-point physics (components, forces, integrators,
  gravity, vector kernels), the thread-safe pool, and the plugin host that
  runs plugin hooks in the order the registry decides.
