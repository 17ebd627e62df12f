# clang_wrap

A verified library for wrappers around `clang`/`clang++`, `ar`, `cp`, `mv`, `ln`,
`install` and `strip` that keep LLVM IR beside a build. With `EMIT_LLVMIR` set, every
compile also writes the bitcode of its object file into an IR tree (`LLVM_IR_DIR`, by
default `~/tmp/llvmir`) under the object's absolute path; every link merges the bitcode of
its inputs with `llvm-link` and writes a `_cmd` script that re-links it with the link's own
options; archiving, copying, moving, linking, installing and stripping a product do the
same to its IR.

## Layout

- `src/` — the library, verified with Verus. Each function has a contract over
  mathematical models (`Seq<char>` for strings, spec functions for parsers and plans);
  calls into `std::path`, `pathdiff` and `serde_json` go through a few trusted wrappers
  whose contracts are stated beside them.
- `tests/` — tests of the library on concrete values.
- `app/` — the executable: it dispatches on the name it runs under and does the process,
  file system and environment work. The library decides how command lines are read, where
  IR files go, which commands repeat an operation on the IR tree, and what the `_cmd`
  script holds; it also decides what each linker script stands for, where a library's
  resolution looks next, and, step by step, what a link wrapper does after each outcome
  (`link_run`). The app performs each step: it runs the processes, looks at the file
  system, and reports back what happened.

## Environment

- `EMIT_LLVMIR` — switches IR generation on when set to anything but empty or `0`; other
  values than `1` are extra options for the IR compile.
- `LLVM_IR_DIR` — the IR tree.
- `CLANG_WRAP_DEBUG` — debug log in the IR tree when set to anything but empty or `0`.
