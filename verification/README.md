# lead_build

The interpreter of the lead build description language, verified with
Verus: it reads a build description, evaluates it, and writes the ninja
file for the builds it describes.

Layout:

- `src/` — the verified library.
  - `text`, `strkey`, `path`: strings, interned keys, virtual paths.
  - `lexer`, `syntax`, `pbcst`: tokens and the concrete syntax tree.
  - `lower`, `parser`: from the syntax tree to expressions.
  - `expr`, `value`, `eval`: expressions, values and their evaluation.
  - `builtins`, `pbbuild`: the `pb`, `ops` and `dbg` builtins and the
    build records they make.
  - `ninja`, `ninjaexpr`, `stats`: the ninja file model, filling it from an
    evaluated description, and counts of what was added.
  - `context`: the top-level evaluation context and command-line helpers.
  - `error`, `snippet`, `lineindex`: error locations, source snippets,
    and conversion between byte offsets and line/column positions.
  - `datamodel`: a small data model read from `{ name = value; }` syntax.
- `tests/` — tests run against the compiled library.
- `app/` — the `pb` command line program around the library.
