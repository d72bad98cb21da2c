# omni_core

A universal file converter built around a conversion graph: every format is
a node, every adapter an edge. The library is written in Verus; its
functions carry `requires`/`ensures` contracts that Verus proves.

## Layout

- `src/` — the verified library.
  - `formats.rs` — the table of known formats and lookup by extension.
  - `registry.rs` — the conversion graph, route finding, the list of
    targets of a format and the explanation of a pair that has no route.
  - `engine.rs` — source and target formats of a conversion and the step
    that carries it out (native adapter, copy, or external tool).
  - `detect.rs` — detection by content (magic bytes, text sniffing), the
    extension as fallback.
  - `deps.rs` — the external tools, their install hints and status.
  - `queue.rs` — the job book: submitting, cancelling, starting and
    finishing conversions.
  - `presets.rs` — built-in presets and where custom ones are kept.
  - `adapters/` — native text, data, image, archive and spreadsheet
    conversions (on bytes: reading, unpacking and packing), external tool
    commands and outcomes, and FFmpeg progress parsing.
  - `serial.rs`, `paths.rs` — the calls into outside crates and
    `std::path`, each with the contract it is trusted to meet.
  - `entries.rs`, `text.rs` — key-sorted maps, strings and decimal numbers
    (`text.rs` also holds the trusted `String::push` and `to_lowercase`).
- `tests/` — tests of the library on concrete values.
- `app/` — the `omni` command line program: file and process I/O, the
  asynchronous job queue, the folder watcher, the clock that stamps zip
  entries, 7z (whose crate works on paths) and the serde copies of the
  library's types.
