# annotate

An annotation and reflection framework for Rust: functions and modules marked
with `#[pragma(...)]` are found by a build-time scan, recorded with their
attributes, and exported as an environment that can be queried at run time.

Layout:

- `src/` — the verified library.
  - `runtime/` — paths, attributes and values, the environment of annotated
    functions and modules with its queries, and a registry of environments.
  - `build/` — the build configuration (pragma names, custom derives, module
    derives, configuration specs), the targets of a manifest that are scanned,
    the scanner's state machine and the records it produces with the names of
    the symbols the generated code links to.
  - `expand.rs` — what the `#[pragma(...)]` macro makes of its arguments,
    and where the generated environment of a source file lies.
  - `paths.rs` — what std's path handling gives on every platform.
  - `text.rs` — text helpers with their specifications.
  - `trusted.rs` — the calls into std and outside crates, with the contracts
    their documentation or source shows.
- `app/` — the parts that read and write files, walk syntax trees, build token
  streams, hold the process-wide registry and call through exported pointers.
  The expansions name the framework `annotate`; a crate that uses them
  depends on the app crate under that name, whose `__private` module joins
  the library's constructors and the function pointers.
- `tests/` — tests of the library.
