# deadcode

Finds unused Python code — variables, functions, classes, methods,
properties, attributes, imports and empty files — and can remove it
(`--fix`) or show the removal as a diff (`--dry`).

## Layout

- `src/` — the library, verified with Verus. Every function carries a
  contract:
  - `visitor/` walks a Python syntax tree (`python_ast`), recording the
    names each construct uses (`uses`) and the definitions it makes (`walk`),
    with the rules that exempt definitions (`ignore`, `noqa`) and the report
    (`dead_code_visitor`: a definition is reported exactly when its name is
    never used).
  - `actions/` holds the steps of a run: option merging with
    `pyproject.toml`, tach project files, the decisions of the file search,
    the report text, merging overlapping code regions and removing them from
    a file's lines, and what `--fix`/`--dry` do to each file.
  - `utils/` holds glob matching, path handling, line indexes, sorting and
    the text and byte helpers the rest builds on; `regex_support`,
    `toml_support` and the diff in `actions/fix_or_show_unused_code` call the
    `regex`, `toml` and `similar` crates.
- `app/` — the command around the library: clap's command line, the file
  system, ruff's Python parser (turned into the library's syntax tree) and
  printing.
- `tests/` — tests of the library, including whole-file scenarios written
  against hand-built syntax trees.
