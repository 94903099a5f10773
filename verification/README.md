# docfresh

Tracks documentation freshness against source code: a manifest maps each
documentation page to the source files it documents, and git history tells
which pages went stale since they were last verified.

## Layout

- `src/` — the verified library (Verus). Each public function states its
  result in `ensures` over spec functions of the same module.
  - `manifest` — the manifest model, page lookup, version and repository checks.
  - `audit` — the new status of each page from what git reported, and the
    warnings about pages related to stale ones.
  - `coverage` — documented and undocumented source files, orphan pages,
    shared sources, concept coverage.
  - `concepts`, `concept_graph` — concepts of Rust and Markdown files, and
    the graph of which pages mention them.
  - `suggest` — term extraction and scoring of source files against pages.
  - `report` — the text and Markdown reports.
  - `ops` — the steps of the commands: page scanning and routing, verify,
    map, CI thresholds.
  - `presets`, `config`, `git`, `paths`, `text` — presets, configuration
    merging, git output parsing, path pieces and string helpers.
- `app/` — the command line: arguments, files, git processes, JSON output
  and the floating-point ranking of suggestions.
- `tests/` — tests of the library.
