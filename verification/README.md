# perry_codegen

The decisions and text formats of Perry's LLVM code generator, verified with
Verus.

- `src/gc_map` — the compact GC stack map. `clang -S` output is parsed into
  the bytes its stack-map block assembles to (`block`), decoded as LLVM
  stack-map v3 (`decode_spec`, `decode`, `slots`), re-encoded as Perry's
  sorted, delta-coded root stream with a repeat flag (`varint`,
  `stream_spec`, `stream`), checked by decoding it back the way the runtime
  does, and printed as the `_perry_gc_map` section (`emit`). The laws live in
  `roundtrip` (every stream the encoder writes for a well-formed map
  verifies), `concat_laws` (maps laid end to end decode as they do alone),
  `decode_laws` and `live_set_laws` (every decoded live set is
  deduplicated, ordered by frame offset and well-formed) and `rewrite_laws`
  (nothing after the new map names the old label).
- `src/expr` — representation-selection gates, i18n template resolution and
  template grammar, import-origin naming, V8 bridge constants, and the
  string-literal equality encodings.
- `src/inprocess` — what the in-process backend decides from its options
  (optimisation level, pass pipeline, budgets, CPU, file kind).
- `src/text.rs`, `src/numtext.rs` — the character-level helpers the above
  are written with, each with the spec of the `str` method it stands for.
- `app/` — environment knobs, the assembly file on disk and the assembler
  subprocess around the library.
