# submilli_wasm

A small WebAssembly interpreter core whose logic is verified with Verus.

- `src/` is the verified library:
  - `config`, `engine`: configuration knobs, the engine state (epoch, GC-pressure mailboxes,
    committed GC bytes) and the canonical type registry it owns.
  - `canon`: canonical type keys, hash-consed rec groups with registration counts and the
    reclaim cascade (`registry`, `intern`, `pins`), and the byte layout of GC aggregates.
  - `gc_types`: host-built struct, array and rec-group types.
  - `exec`: the compiler from structured control flow to flat code, and the machine that runs
    it: numeric, memory, table, SIMD, cast, call, exception and epoch/fuel behaviour, each
    against a reference semantics (`spec_step`, `spec_run`).
  - `backtrace`: stack backtraces and their printed form.
- `tests/` runs the library on concrete inputs.
- `app/` holds what the library does not: reading modules with `wasmparser`, floating-point
  arithmetic, the shared engine handle, the error type and the fuzz entry points.
