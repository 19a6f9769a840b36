# osprey_codegen

The verified core of Osprey's LLVM text backend. The library emits LLVM IR
as text and states what it emits in Verus contracts over a model of the
emitter: the module's declarations, globals and finished functions, the
lines, registers, labels and blocks of the function being built, its
lexical scopes, its ownership ledger, and its debug metadata.

Layout of `src/`:

- `ast.rs`: the syntax tree the backend reads, as the library's own types.
- `builder.rs`: the emitter (`Codegen`), scopes, string constants, function
  framing, module rendering and coverage counters.
- `llty.rs`, `meta.rs`, `aggregate.rs`, `call.rs`, `conv.rs`: machine types,
  heap layout words, field access, runtime calls and numeric coercions.
- `arc.rs`: the ownership ledger and the retain/release code it drives.
- `result.rs`, `runtime.rs`, `anybox.rs`, `collections.rs`, `listlit.rs`,
  `loops.rs`, `expr.rs`: Result blocks, value rendering, erased values,
  runtime collections, list literals, counted loops and operator pieces.
- `effects.rs`, `closure.rs`, `freevars.rs`, `monofn.rs`, `pattern.rs`,
  `extern_call.rs`, `gpu.rs`, `gpu_kernel.rs`, `debug_info.rs`,
  `coverage.rs`, `names.rs`, `text.rs`, `error.rs`: effect handlers,
  closures, free-variable analysis, specialisation keys, match joins, the
  runtime-builtin table, GPU buffers, debug metadata, coverage, name sets,
  text helpers and diagnostics.

`tests/` runs the library and compares the emitted IR with exact text.
`app/` holds the host-dependent glue around the library: the DWARF
version of the host platform, the kernel mode read from the environment,
and the library's error as a standard error type.
The library emits the pieces of a module; it does not hold the whole-program
lowering (expressions, calls, effect handlers, indexing, match joins).
