# docli

A library for reading, checking and editing Word (`.docx`) packages, with
its behaviour stated in contracts and proved with Verus, and a command line
around it.

## Layout

- `src/` — the verified library.
  - `package`, `part_graph`: a package's inventory and parts, and the
    mutable set of parts that edits work on.
  - `xml`, `bytes`, `chars`, `text`, `markup`, `units`: the models and
    helpers the rest is stated over (parsed XML, byte and character search,
    escaping, length units).
  - `index`, `story`, `read`, `inspect`, `ooxml`, `diff`: indexing the main
    document part, mapping stories to parts, the read and inspect views,
    pretty-printing and querying raw XML, comparing documents.
  - `comments`, `tracked_changes`, `delete`, `replace_text`, `id_alloc`:
    edits on parts, and fresh ids for them.
  - `schema`, `structural`, `invariants`, `redline`, `repair`: validation
    findings and repairs.
  - `kb`, `create`, `job`, `envelope`, `error`: knowledge-base references,
    rule files and templates; documents built with `docx-rs`; jobs;
    command envelopes; errors.
  - `commands/`: what each command decides, as plain data and functions.
- `tests/` — tests of the library.
- `app/` — the `docli` program: argument parsing, archives on disk, output,
  outside programs.

Calls into outside crates (`roxmltree`, `quick-xml`, `similar`, `minijinja`,
`serde_yaml`, `docx-rs`) and into `std` where Verus has no specification go
through small trusted functions whose contracts state what the library relies
on; every other function is verified.
