# blast_radius

When you change a file, find out what else might break: the files that depend
on it directly or transitively, grouped by package and directory, with a risk
verdict (`minor`, `moderate`, `risky`, `high`).

The library in `src/` is written in Verus; every function there carries a
contract that Verus proves, except the small trusted functions that call
std, serde_json, toml, figlet, swc, rustpython and syn, whose contracts name
what those crates return. `app/` is the command-line program around it: it
reads the repository, the files and the command line, walks swc syntax
trees for `require` calls and usage, and writes what the library returns.

## Layout of `src/`

- `pipeline` — a whole analysis: loading parsed files and running a command
  (`file`, `export`, `files`) to its result.
- `walk`, `analyze`, `impacts`, `run` — the reverse-dependency walk, the
  consumer links between modules, the result and per-file impacts, and where
  a walk starts.
- `resolve`, `alias`, `manifest`, `config`, `javascript`, `python`, `ruby`,
  `java`, `rust_lang`, `language` — resolving import specifiers: relative
  paths, `tsconfig` path aliases, package `exports`/`imports`, workspaces,
  Python packages, Ruby and Java indexes, Rust crates and modules.
- `js_facts`, `js_syntax`, `component`, `python_parse`, `rust_parse`,
  `java_parse`, `ruby_parse`, `facts` — what a source file imports, exports,
  re-exports and uses, from its text.
- `report`, `cascade`, `tree`, `groups`, `theme`, `graph_formats` — the tree
  report, the Mermaid and DOT graphs, and the plain edge listing.
- `diagnostics` — unresolved imports and their explanation.
- `gate`, `hooks` — exit codes, colour, the git hook script, and the file
  list read from standard input.
- `collections`, `text`, `paths`, `lines`, `order` — ordered string sets and
  maps, strings, paths and lines.
