# metamorphic_engine

A small optimizing-compiler core, verified with Verus: an IR of modules, functions, basic
blocks and instruction trees; an interpreter for it; optimization passes and a pass manager;
a validator that runs original and optimized code side by side; an optimization engine that
profiles, picks hot functions and runs a preset pipeline; builders for test modules; an IR
generator; and a reader for a subset of textual LLVM IR.

Layout:

- `src/ir/` — the IR and its mathematical models (`Inst`, `BlockModel`, `FunctionModel`,
  `ModuleModel`).
- `src/interpreter.rs` — `eval`/`execute` as spec functions, and the interpreter proved
  against them.
- `src/passes.rs`, `src/passes/` — the passes, each with the module it leaves as a spec
  function (`Pass::outcome`), the pass manager and the registry; laws about the passes
  (fixpoints, shapes kept, values kept) sit next to the passes they are about.
- `src/validator.rs`, `src/engine.rs`, `src/profiler.rs` — validation, the engine, call
  counting and hot-function selection.
- `src/module_builders.rs`, `src/ir_generator.rs` — test modules, specialisation and random
  variants; `src/builder_laws.rs` — what the interpreter gives for the built modules (sums,
  digital root, call chain, ...), proved from `execute`.
- `src/blueprint_archive.rs` — the shape hash of a module and the similarity of two hashes.
- `src/evolution.rs` — the integer part of pipeline evolution: the pass cap, crossover and
  the add/remove/reorder/duplicate/tune edits, with the random draws passed in.
- `src/llvm_frontend.rs`, `src/chars.rs`, `src/text.rs` — reading LLVM text (the regular
  expressions run through the `regex` crate), and the character and string helpers.
- `src/demo.rs`, `src/experience.rs` — the demonstration run and the experience-store types.
- `app/` — the command line: logging, file and process I/O, JSON through serde, and the
  float reader for LLVM literals.
- `tests/` — the tests.
