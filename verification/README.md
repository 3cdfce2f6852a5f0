# gispect

A terminal UI for inspecting git diffs side by side — old code on the left,
new code on the right — with a changed-files panel, switchable diff modes, an
MCP server over stdio and self-update. The logic is a library whose functions
carry `requires`/`ensures` contracts proved with Verus.

## Layout

- `src/` — the verified library:
  - `types`, `text` — the data model and string helpers (line splitting,
    trimming, number parsing, ordering);
  - `diff` — aligned side-by-side rows and intra-line changed spans over the
    line and word diffs of the `similar` crate;
  - `search` — smart-case matching, in-file search, path filter, changed-line
    extraction from unified diffs, match tinting;
  - `segments`, `layout`, `pane`, `panel`, `screen` — what the screen shows:
    styled segments, scroll windows, popups, pane lines, file-panel rows
    (list and tree), status bar, footer and config-editor texts;
  - `highlight` — syntax highlighting with `syntect` and `two-face`;
  - `git` — git command arguments and the parsing of git's output;
  - `config` — startup defaults and their editor;
  - `app`, `keys` — the application state and its reaction to each key;
  - `mcp`, `update` — MCP request routing and summaries, update checks.
- `app/` — the `gispect` binary: command line, terminal loop and drawing,
  running git, reading and writing the config file, the MCP server loop and
  the self-update commands.
- `tests/` — tests of the library.
