# gcrecomp

A GameCube static recompiler: it reads a DOL executable, decodes its
PowerPC code, finds its functions and emits a Rust module that runs them
against an emulated memory and CPU context. Around it sit the pieces the
recompiled program uses at run time: the OS calls it makes, a virtual DVD
filesystem backed by a compressed archive, and controller input.

## Layout

- `src/` — the library, written in Verus and verified. Its functions state
  their results in contracts; where a result rests on the host clock (the
  OS time base), the contract states what holds of every reading and a
  separate function states the conversion.
  - `decoder`, `dol`, `symbols` — instruction decoding, the DOL format, and
    symbol-map text.
  - `codegen` — Rust code generation per instruction and per function, with
    its specification in `codegen/spec.rs`.
  - `pipeline` — function discovery (linear sweep or symbol map), the
    staged recompilation pipeline and the generated module.
  - `memory`, `context`, `os` — emulated memory, CPU registers, OS state,
    arena allocator, interrupts, and SDK call dispatch.
  - `dvd`, `disc` — the GCFS archive reader and virtual filesystem, and the
    disc-image side: FST parsing, hashing, and packing the disc's files into
    an archive whose files read back.
  - `input` — controller families, adapter reports, mapping data and the
    registry that keeps controller IDs stable.
- `app/` — the command-line front end and everything that does I/O or works
  with floating point: file access, USB and gamepad
  backends, analog mapping and saved profiles.
- `tests/` — tests of the library's public functions.
