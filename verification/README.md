# haybale

Symbolic execution of LLVM IR: the parts of the engine that decide,
compute and keep state, each with a contract proved by Verus.

- `src/` is the verified library: bitvector terms and their meaning
  (`bv_term`), the two memory models (`simple_memory`, `cell_memory`, with
  their read-after-write laws in `cell_memory_laws`), the allocator and the
  global allocations, constant conversion (`constants`), type layouts
  (`layout`), the LLVM intrinsics and the built-in function hooks, the
  searches that ask the solver about possible values (`solver_utils`,
  `memcpy_length`), and the bookkeeping of one path of execution (`state`:
  locations, path, call stack, constraints and backtracking).
- The solver is never called from `src/`: each search takes the solver's
  answers through closures, and is proved for every set of values those
  answers are consistent with.
- `app/` reads a bitcode file with `llvm-ir`, hands the library plain values,
  and drives Boolector.
- `tests/` runs the library on concrete inputs, with small evaluators in
  place of the solver.
